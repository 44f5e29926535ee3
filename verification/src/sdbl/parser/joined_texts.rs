//! What the package of two texts with a semicolon between them holds.
use super::{ErrorView, ScanView, MAX_DEPTH};
use crate::sdbl::ast;
use crate::sdbl::lexeme_laws;
use crate::sdbl::lexer;
use crate::sdbl::lexer::{Kind, Kw, TokenView};
use crate::text;
use vstd::prelude::*;

verus! {

/// How many brackets are open behind the first `n` lexemes.
pub open spec fn open_brackets(a: Seq<TokenView>, n: int) -> int
    decreases n,
{
    if n <= 0 {
        0
    } else {
        super::depth_after(a[n - 1], open_brackets(a, n - 1))
    }
}

/// Brackets stand in pairs: none is closed that is not open, and none is left open.
pub open spec fn balanced(a: Seq<TokenView>) -> bool {
    &&& open_brackets(a, a.len() as int) == 0
    &&& forall|n: int| 0 <= n <= a.len() ==> #[trigger] open_brackets(a, n) >= 0
}

/// A list of lexemes does not reach over its end: brackets stand in pairs, and `TOP`, which takes
/// the lexeme behind it, is not the last one.
pub open spec fn self_contained(a: Seq<TokenView>) -> bool {
    balanced(a) && (a.len() > 0 ==> !a.last().is_kw(Kw::Top))
}

/// The same word: what a lexeme is, wherever it stands.
pub open spec fn same_word(x: TokenView, y: TokenView) -> bool {
    x.kind == y.kind && x.text == y.text
}

/// The list `t` ends where the list `a`, which stands in it from `n` on, does.
pub open spec fn to_the_end(t: Seq<TokenView>, a: Seq<TokenView>, n: int) -> bool {
    n + a.len() == t.len()
}

/// The words of the list `a` stand in the list `t` from `n` on; `t` ends there, or a semicolon
/// follows and `a` does not reach over its end.
pub open spec fn stands_at(t: Seq<TokenView>, a: Seq<TokenView>, n: int) -> bool {
    &&& 0 <= n
    &&& n + a.len() <= t.len()
    &&& forall|k: int| 0 <= k < a.len() ==> same_word(#[trigger] a[k], t[n + k])
    &&& to_the_end(t, a, n) || (t[n + a.len()].is_sign(';') && self_contained(a))
}

/// Where a part of a query ends, if it is understood.
pub open spec fn end_of<X>(r: Result<(X, int), ErrorView>) -> Option<int> {
    match r {
        Ok((_, next)) => Some(next),
        Err(_) => None,
    }
}

/// What is understood in `a` is understood in `t`, up to the same lexeme; what is not understood
/// in `a` is not in `t`, where `t` ends with `a`.
spec fn tracks(t: Seq<TokenView>, a: Seq<TokenView>, n: int, in_a: Option<int>, in_t: Option<int>) -> bool {
    match in_a {
        Some(next) => in_t == Some(n + next),
        None => to_the_end(t, a, n) ==> in_t is None,
    }
}

proof fn lemma_word(t: Seq<TokenView>, a: Seq<TokenView>, n: int, pos: int)
    requires
        stands_at(t, a, n),
        0 <= pos <= a.len(),
    ensures
        pos < a.len() ==> same_word(a[pos], t[n + pos]),
        pos == a.len() && !to_the_end(t, a, n) ==> t[n + pos].is_sign(';') && t[n + pos].kind == Kind::Punct,
        forall|kw: Kw| #[trigger] super::kw_at(t, n + pos, kw) == super::kw_at(a, pos, kw),
        forall|c: char| c != ';' ==> #[trigger] super::sign_at(t, n + pos, c) == super::sign_at(a, pos, c),
{
    if pos < a.len() {
        assert(same_word(a[pos], t[n + pos]));
    }
}

proof fn lemma_ident(t: Seq<TokenView>, a: Seq<TokenView>, n: int, pos: int)
    requires
        stands_at(t, a, n),
        0 <= pos <= a.len(),
    ensures
        match super::ident_at(a, pos) {
            Ok((x, next)) => super::ident_at(t, n + pos) == Ok::<(Seq<char>, int), ErrorView>((x, n + next))
                && pos < next <= a.len(),
            Err(_) => to_the_end(t, a, n) ==> super::ident_at(t, n + pos) is Err,
        },
{
    lemma_word(t, a, n, pos);
    if pos < a.len() {
        lemma_word(t, a, n, pos + 1);
    }
}

proof fn lemma_parts(t: Seq<TokenView>, a: Seq<TokenView>, n: int, pos: int, parts: Seq<Seq<char>>)
    requires
        stands_at(t, a, n),
        0 <= pos <= a.len(),
    ensures
        match super::parts_at(a, pos, parts) {
            Ok((x, next)) => super::parts_at(t, n + pos, parts) == Ok::<(Seq<Seq<char>>, int), ErrorView>(
                (x, n + next),
            ) && pos <= next <= a.len(),
            Err(_) => to_the_end(t, a, n) ==> super::parts_at(t, n + pos, parts) is Err,
        },
    decreases a.len() - pos,
{
    lemma_word(t, a, n, pos);
    if super::sign_at(a, pos, '.') {
        lemma_ident(t, a, n, pos + 1);
        match super::ident_at(a, pos + 1) {
            Ok((part, next)) => {
                lemma_parts(t, a, n, next, parts.push(part));
            },
            Err(_) => {},
        }
    }
}

proof fn lemma_path(t: Seq<TokenView>, a: Seq<TokenView>, n: int, pos: int)
    requires
        stands_at(t, a, n),
        0 <= pos <= a.len(),
    ensures
        match super::path_at(a, pos) {
            Ok((x, next)) => super::path_at(t, n + pos) == Ok::<(Seq<Seq<char>>, int), ErrorView>((x, n + next))
                && pos < next <= a.len(),
            Err(_) => to_the_end(t, a, n) ==> super::path_at(t, n + pos) is Err,
        },
{
    lemma_ident(t, a, n, pos);
    match super::ident_at(a, pos) {
        Ok((part, next)) => {
            lemma_parts(t, a, n, next, seq![part]);
        },
        Err(_) => {},
    }
}

proof fn lemma_alias(t: Seq<TokenView>, a: Seq<TokenView>, n: int, pos: int)
    requires
        stands_at(t, a, n),
        0 <= pos <= a.len(),
    ensures
        super::alias_at(t, n + pos).1 == n + super::alias_at(a, pos).1,
        pos <= super::alias_at(a, pos).1 <= a.len(),
{
    lemma_word(t, a, n, pos);
    if pos < a.len() {
        lemma_word(t, a, n, pos + 1);
    }
}

/// At `pos`, inside `depth` brackets, the end is not reached with a bracket open.
spec fn closes(t: Seq<TokenView>, a: Seq<TokenView>, n: int, pos: int, depth: int) -> bool {
    to_the_end(t, a, n) || 0 <= depth <= open_brackets(a, pos)
}

proof fn lemma_closes_at_start(t: Seq<TokenView>, a: Seq<TokenView>, n: int, pos: int)
    requires
        stands_at(t, a, n),
        0 <= pos <= a.len(),
    ensures
        closes(t, a, n, pos, 0),
{
    if !to_the_end(t, a, n) {
        assert(open_brackets(a, pos) >= 0);
    }
}

proof fn lemma_expression(t: Seq<TokenView>, a: Seq<TokenView>, n: int, pos: int, depth: int)
    requires
        stands_at(t, a, n),
        0 <= pos <= a.len(),
        closes(t, a, n, pos, depth),
    ensures
        super::expression_end(t, n + pos, depth) == n + super::expression_end(a, pos, depth),
        pos <= super::expression_end(a, pos, depth) <= a.len(),
    decreases a.len() - pos,
{
    lemma_word(t, a, n, pos);
    if pos < a.len() {
        assert(super::expression_ends(a[pos]) == super::expression_ends(t[n + pos]));
        if !(depth == 0 && super::expression_ends(a[pos])) {
            assert(open_brackets(a, pos + 1) == super::depth_after(a[pos], open_brackets(a, pos)));
            lemma_expression(t, a, n, pos + 1, super::depth_after(a[pos], depth));
        }
    }
}

proof fn lemma_condition_end(toks: Seq<TokenView>, pos: int, depth: int, scan: ScanView)
    ensures
        super::condition_from(toks, pos, depth, scan).1 == super::expression_end(toks, pos, depth),
    decreases toks.len() - pos,
{
    if !(pos < 0 || pos >= toks.len() || (depth == 0 && super::expression_ends(toks[pos]))) {
        let after = super::depth_after(toks[pos], depth);
        lemma_condition_end(
            toks,
            pos + 1,
            after,
            scan.took(toks[pos], after == 0, super::sign_at(toks, pos + 1, '.')),
        );
    }
}

proof fn lemma_condition(t: Seq<TokenView>, a: Seq<TokenView>, n: int, pos: int)
    requires
        stands_at(t, a, n),
        0 <= pos <= a.len(),
    ensures
        super::condition_at(t, n + pos).1 == n + super::condition_at(a, pos).1,
        pos <= super::condition_at(a, pos).1 <= a.len(),
{
    lemma_closes_at_start(t, a, n, pos);
    lemma_expression(t, a, n, pos, 0);
    lemma_condition_end(a, pos, 0, super::scan_start(super::offset_at(a, pos)));
    lemma_condition_end(t, n + pos, 0, super::scan_start(super::offset_at(t, n + pos)));
}

/// Where the parameters in brackets end that go on at `pos`.
spec fn params_end(toks: Seq<TokenView>, pos: int, depth: int) -> int
    decreases toks.len() - pos,
{
    if pos < 0 || pos >= toks.len() {
        pos
    } else if depth == 1 && toks[pos].is_sign(')') {
        pos + 1
    } else {
        params_end(toks, pos + 1, super::depth_after(toks[pos], depth))
    }
}

proof fn lemma_params_end(
    toks: Seq<TokenView>,
    pos: int,
    depth: int,
    params: Seq<ast::ConditionView>,
    scan: ScanView,
)
    ensures
        super::params_from(toks, pos, depth, params, scan).1 == params_end(toks, pos, depth),
    decreases toks.len() - pos,
{
    if !(pos < 0 || pos >= toks.len() || (depth == 1 && toks[pos].is_sign(')'))) {
        if depth == 1 && toks[pos].is_sign(',') {
            let s = scan.flushed();
            assert(super::depth_after(toks[pos], depth) == depth);
            lemma_params_end(
                toks,
                pos + 1,
                depth,
                params.push(s.condition),
                ScanView { condition: super::empty_condition(toks[pos].offset), after_dot: false, ..s },
            );
        } else {
            let after = super::depth_after(toks[pos], depth);
            lemma_params_end(
                toks,
                pos + 1,
                after,
                params,
                scan.took(toks[pos], after == 1, super::sign_at(toks, pos + 1, '.')),
            );
        }
    }
}

proof fn lemma_params_track(t: Seq<TokenView>, a: Seq<TokenView>, n: int, pos: int, depth: int)
    requires
        stands_at(t, a, n),
        0 <= pos <= a.len(),
        to_the_end(t, a, n) || 1 <= depth <= open_brackets(a, pos),
    ensures
        params_end(t, n + pos, depth) == n + params_end(a, pos, depth),
        pos <= params_end(a, pos, depth) <= a.len(),
    decreases a.len() - pos,
{
    lemma_word(t, a, n, pos);
    if pos < a.len() && !(depth == 1 && a[pos].is_sign(')')) {
        assert(open_brackets(a, pos + 1) == super::depth_after(a[pos], open_brackets(a, pos)));
        lemma_params_track(t, a, n, pos + 1, super::depth_after(a[pos], depth));
    }
}

proof fn lemma_params(t: Seq<TokenView>, a: Seq<TokenView>, n: int, pos: int)
    requires
        stands_at(t, a, n),
        0 <= pos <= a.len(),
    ensures
        super::params_at(t, n + pos).1 == n + super::params_at(a, pos).1,
        pos <= super::params_at(a, pos).1 <= a.len(),
{
    lemma_word(t, a, n, pos);
    if super::sign_at(a, pos, '(') {
        lemma_closes_at_start(t, a, n, pos);
        assert(open_brackets(a, pos + 1) == super::depth_after(a[pos], open_brackets(a, pos)));
        lemma_params_track(t, a, n, pos + 1, 1);
        lemma_params_end(a, pos + 1, 1, seq![], super::scan_start(super::offset_at(a, pos + 1)));
        lemma_params_end(t, n + pos + 1, 1, seq![], super::scan_start(super::offset_at(t, n + pos + 1)));
    }
}

proof fn lemma_select(t: Seq<TokenView>, a: Seq<TokenView>, n: int, pos: int)
    requires
        stands_at(t, a, n),
        0 <= pos <= a.len(),
    ensures
        super::select_at(t, n + pos).1 == n + super::select_at(a, pos).1,
        pos <= super::select_at(a, pos).1 <= a.len(),
{
    lemma_word(t, a, n, pos);
    let q = super::past_kw(a, pos, Kw::Allowed);
    lemma_word(t, a, n, q);
    let p = super::past_kw(a, q, Kw::Distinct);
    lemma_word(t, a, n, p);
    let list = if super::kw_at(a, p, Kw::Top) {
        if p + 1 < a.len() {
            p + 2
        } else {
            p + 1
        }
    } else {
        p
    };
    if super::kw_at(a, p, Kw::Top) && p + 1 == a.len() {
        assert(a.last() == a[p]);
    }
    lemma_condition(t, a, n, list);
}

proof fn lemma_ignored(t: Seq<TokenView>, a: Seq<TokenView>, n: int, pos: int)
    requires
        stands_at(t, a, n),
        0 <= pos <= a.len(),
    ensures
        super::past_ignored(t, n + pos) == n + super::past_ignored(a, pos),
        pos <= super::past_ignored(a, pos) <= a.len(),
    decreases a.len() - pos,
{
    lemma_word(t, a, n, pos);
    assert(super::ignored_section(t, n + pos) == super::ignored_section(a, pos));
    if super::ignored_section(a, pos) {
        lemma_closes_at_start(t, a, n, pos + 1);
        lemma_expression(t, a, n, pos + 1, 0);
        super::lemma_expression_end(a, pos + 1, 0);
        super::lemma_expression_end(t, n + pos + 1, 0);
        lemma_ignored(t, a, n, super::expression_end(a, pos + 1, 0));
    }
}

proof fn lemma_names(
    t: Seq<TokenView>,
    a: Seq<TokenView>,
    n: int,
    pos: int,
    in_a: Seq<ast::NamedView>,
    in_t: Seq<ast::NamedView>,
)
    requires
        stands_at(t, a, n),
        0 <= pos <= a.len(),
    ensures
        tracks(t, a, n, end_of(super::more_path_names(a, pos, in_a)), end_of(super::more_path_names(t, n + pos, in_t))),
        end_of(super::more_path_names(a, pos, in_a)) matches Some(next) ==> pos <= next <= a.len(),
    decreases a.len() - pos,
{
    lemma_word(t, a, n, pos);
    if super::sign_at(a, pos, ',') {
        lemma_path(t, a, n, pos + 1);
        match super::path_name_at(a, pos + 1) {
            Ok((name, next)) => {
                let other = super::path_name_at(t, n + pos + 1)->Ok_0.0;
                lemma_names(t, a, n, next, in_a.push(name), in_t.push(other));
            },
            Err(_) => {},
        }
    }
}

#[verifier::rlimit(30)]
proof fn lemma_index(t: Seq<TokenView>, a: Seq<TokenView>, n: int, pos: int)
    requires
        stands_at(t, a, n),
        0 <= pos <= a.len(),
    ensures
        tracks(t, a, n, end_of(super::index_at(a, pos)), end_of(super::index_at(t, n + pos))),
        end_of(super::index_at(a, pos)) matches Some(next) ==> pos <= next <= a.len(),
{
    lemma_word(t, a, n, pos);
    if super::kw_at(a, pos, Kw::IndexBy) {
        lemma_word(t, a, n, pos + 1);
        lemma_path(t, a, n, pos + 1);
        if pos + 1 < a.len() {
            assert(super::by_sets(a, pos + 1) == super::by_sets(t, n + pos + 1));
            if super::by_sets(a, pos + 1) {
                lemma_params(t, a, n, pos + 2);
            } else {
                match super::path_name_at(a, pos + 1) {
                    Ok((name, next)) => {
                        let other = super::path_name_at(t, n + pos + 1)->Ok_0.0;
                        lemma_names(t, a, n, next, seq![name], seq![other]);
                    },
                    Err(_) => {},
                }
            }
        }
    }
}

/// Where a source that is not a subquery ends, if it is understood.
spec fn named_table_end(toks: Seq<TokenView>, pos: int) -> Option<int> {
    if 0 <= pos < toks.len() && toks[pos].kind == Kind::Param {
        Some(pos + 1)
    } else {
        match super::path_at(toks, pos) {
            Err(_) => None,
            Ok((parts, next)) => if super::meta_kind(text::uppercase(parts[0])) && parts.len() >= 2 {
                Some(super::params_at(toks, next).1)
            } else if super::sign_at(toks, next, '(') {
                None
            } else {
                Some(next)
            },
        }
    }
}

proof fn lemma_named_table_end(toks: Seq<TokenView>, pos: int, depth: int)
    requires
        !super::sign_at(toks, pos, '('),
    ensures
        end_of(super::table_at(toks, pos, depth)) == named_table_end(toks, pos),
{
}

#[verifier::rlimit(30)]
proof fn lemma_named_table(t: Seq<TokenView>, a: Seq<TokenView>, n: int, pos: int)
    requires
        stands_at(t, a, n),
        0 <= pos <= a.len(),
    ensures
        tracks(t, a, n, named_table_end(a, pos), named_table_end(t, n + pos)),
        named_table_end(a, pos) matches Some(next) ==> pos < next <= a.len(),
{
    lemma_word(t, a, n, pos);
    lemma_path(t, a, n, pos);
    match super::path_at(a, pos) {
        Ok((parts, next)) => {
            lemma_word(t, a, n, next);
            lemma_params(t, a, n, next);
        },
        Err(_) => {},
    }
}

/// Where a subquery ends, if it is understood.
spec fn subquery_end(toks: Seq<TokenView>, pos: int, depth: int) -> Option<int> {
    if depth >= MAX_DEPTH || !super::kw_at(toks, pos + 1, Kw::Select) {
        None
    } else {
        match super::selections_at(toks, pos + 1, depth + 1, seq![]) {
            Err(_) => None,
            Ok((_, next)) => if super::sign_at(toks, next, ')') {
                Some(next + 1)
            } else {
                None
            },
        }
    }
}

proof fn lemma_subquery_end(toks: Seq<TokenView>, pos: int, depth: int)
    requires
        super::sign_at(toks, pos, '('),
    ensures
        end_of(super::table_at(toks, pos, depth)) == subquery_end(toks, pos, depth),
{
}

#[verifier::rlimit(30)]
proof fn lemma_table_track(t: Seq<TokenView>, a: Seq<TokenView>, n: int, pos: int, depth: int)
    requires
        stands_at(t, a, n),
        0 <= pos <= a.len(),
        0 <= depth <= MAX_DEPTH,
    ensures
        tracks(
            t,
            a,
            n,
            end_of(super::table_at(a, pos, depth)),
            end_of(super::table_at(t, n + pos, depth)),
        ),
        end_of(super::table_at(a, pos, depth)) matches Some(next) ==> pos < next <= a.len(),
    decreases a.len() - pos, 0int,
{
    lemma_word(t, a, n, pos);
    if super::sign_at(a, pos, '(') {
        lemma_subquery_end(a, pos, depth);
        lemma_subquery_end(t, n + pos, depth);
        lemma_word(t, a, n, pos + 1);
        if depth < MAX_DEPTH && super::kw_at(a, pos + 1, Kw::Select) {
            lemma_selections_track(t, a, n, pos + 1, depth + 1, seq![], seq![]);
            match super::selections_at(a, pos + 1, depth + 1, seq![]) {
                Ok((_, next)) => {
                    lemma_word(t, a, n, next);
                },
                Err(_) => {},
            }
        }
    } else {
        lemma_named_table_end(a, pos, depth);
        lemma_named_table_end(t, n + pos, depth);
        lemma_named_table(t, a, n, pos);
    }
}

proof fn lemma_source_track(t: Seq<TokenView>, a: Seq<TokenView>, n: int, pos: int, depth: int)
    requires
        stands_at(t, a, n),
        0 <= pos <= a.len(),
        0 <= depth <= MAX_DEPTH,
    ensures
        tracks(t, a, n, end_of(super::source_at(a, pos, depth)), end_of(super::source_at(t, n + pos, depth))),
        end_of(super::source_at(a, pos, depth)) matches Some(next) ==> pos < next <= a.len(),
    decreases a.len() - pos, 1int,
{
    lemma_table_track(t, a, n, pos, depth);
    match super::table_at(a, pos, depth) {
        Ok((_, next)) => {
            lemma_alias(t, a, n, next);
        },
        Err(_) => {},
    }
}

#[verifier::rlimit(30)]
proof fn lemma_sources_track(
    t: Seq<TokenView>,
    a: Seq<TokenView>,
    n: int,
    pos: int,
    depth: int,
    in_a: Seq<ast::SourceView>,
    in_t: Seq<ast::SourceView>,
)
    requires
        stands_at(t, a, n),
        0 <= pos <= a.len(),
        0 <= depth <= MAX_DEPTH,
    ensures
        tracks(
            t,
            a,
            n,
            end_of(super::sources_at(a, pos, depth, in_a)),
            end_of(super::sources_at(t, n + pos, depth, in_t)),
        ),
        end_of(super::sources_at(a, pos, depth, in_a)) matches Some(next) ==> pos <= next <= a.len(),
    decreases a.len() - pos, 0int,
{
    lemma_word(t, a, n, pos);
    if super::sign_at(a, pos, ',') {
        lemma_source_track(t, a, n, pos + 1, depth);
        match super::source_at(a, pos + 1, depth) {
            Ok((source, next)) => {
                let other = super::source_at(t, n + pos + 1, depth)->Ok_0.0;
                lemma_sources_track(t, a, n, next, depth, in_a.push(source), in_t.push(other));
            },
            Err(_) => {},
        }
    }
}

#[verifier::rlimit(30)]
proof fn lemma_joins_track(
    t: Seq<TokenView>,
    a: Seq<TokenView>,
    n: int,
    pos: int,
    depth: int,
    in_a: Seq<ast::JoinView>,
    in_t: Seq<ast::JoinView>,
)
    requires
        stands_at(t, a, n),
        0 <= pos <= a.len(),
        0 <= depth <= MAX_DEPTH,
    ensures
        tracks(
            t,
            a,
            n,
            end_of(super::joins_at(a, pos, depth, in_a)),
            end_of(super::joins_at(t, n + pos, depth, in_t)),
        ),
        end_of(super::joins_at(a, pos, depth, in_a)) matches Some(next) ==> pos <= next <= a.len(),
    decreases a.len() - pos, 0int,
{
    lemma_word(t, a, n, pos);
    match super::join_kind_at(a, pos) {
        None => {},
        Some((kind, p)) => {
            assert(super::join_kind_at(t, n + pos) == Some((kind, n + p)));
            lemma_word(t, a, n, p);
            let at = super::past_kw(a, p, Kw::Outer);
            lemma_word(t, a, n, at);
            if super::kw_at(a, at, Kw::Join) {
                lemma_source_track(t, a, n, at + 1, depth);
                match super::source_at(a, at + 1, depth) {
                    Err(_) => {},
                    Ok((source, next)) => {
                        lemma_word(t, a, n, next);
                        let other = super::source_at(t, n + at + 1, depth)->Ok_0.0;
                        let (on_a, end) = if super::kw_at(a, next, Kw::On) {
                            let (condition, end) = super::condition_at(a, next + 1);
                            (Some(condition), end)
                        } else {
                            (None, next)
                        };
                        let on_t = if super::kw_at(a, next, Kw::On) {
                            Some(super::condition_at(t, n + next + 1).0)
                        } else {
                            None
                        };
                        if super::kw_at(a, next, Kw::On) {
                            lemma_condition(t, a, n, next + 1);
                        }
                        let x = ast::JoinView { kind, source, on: on_a, offset: super::offset_at(a, pos) };
                        let y = ast::JoinView {
                            kind,
                            source: other,
                            on: on_t,
                            offset: super::offset_at(t, n + pos),
                        };
                        lemma_joins_track(t, a, n, end, depth, in_a.push(x), in_t.push(y));
                    },
                }
            }
        },
    }
}

#[verifier::rlimit(30)]
proof fn lemma_selections_track(
    t: Seq<TokenView>,
    a: Seq<TokenView>,
    n: int,
    pos: int,
    depth: int,
    in_a: Seq<ast::QueryView>,
    in_t: Seq<ast::QueryView>,
)
    requires
        stands_at(t, a, n),
        0 <= pos <= a.len(),
        0 <= depth <= MAX_DEPTH,
    ensures
        tracks(
            t,
            a,
            n,
            end_of(super::selections_at(a, pos, depth, in_a)),
            end_of(super::selections_at(t, n + pos, depth, in_t)),
        ),
        end_of(super::selections_at(a, pos, depth, in_a)) matches Some(next) ==> pos <= next <= a.len(),
    decreases a.len() - pos, 1int,
{
    lemma_word(t, a, n, pos);
    if super::kw_at(a, pos, Kw::Select) {
        lemma_query_track(t, a, n, pos, depth);
        match super::query_at(a, pos, depth) {
            Ok((query, next)) => {
                let other = super::query_at(t, n + pos, depth)->Ok_0.0;
                lemma_selections_track(t, a, n, next, depth, in_a.push(query), in_t.push(other));
            },
            Err(_) => {},
        }
    }
}

/// Where the section `FROM` ends, if it is understood.
spec fn end_of_from(r: Result<(Seq<ast::SourceView>, Seq<ast::JoinView>, int), ErrorView>) -> Option<int> {
    match r {
        Ok((_, _, next)) => Some(next),
        Err(_) => None,
    }
}

#[verifier::rlimit(30)]
proof fn lemma_from_track(t: Seq<TokenView>, a: Seq<TokenView>, n: int, pos: int, depth: int)
    requires
        stands_at(t, a, n),
        0 <= pos <= a.len(),
        0 <= depth <= MAX_DEPTH,
    ensures
        tracks(t, a, n, end_of_from(super::from_at(a, pos, depth)), end_of_from(super::from_at(t, n + pos, depth))),
        end_of_from(super::from_at(a, pos, depth)) matches Some(next) ==> pos <= next <= a.len(),
    decreases a.len() - pos, 0int,
{
    lemma_word(t, a, n, pos);
    if super::kw_at(a, pos, Kw::From) {
        lemma_source_track(t, a, n, pos + 1, depth);
        match super::source_at(a, pos + 1, depth) {
            Err(_) => {},
            Ok((source, next)) => {
                let other = super::source_at(t, n + pos + 1, depth)->Ok_0.0;
                lemma_sources_track(t, a, n, next, depth, seq![source], seq![other]);
                match super::sources_at(a, next, depth, seq![source]) {
                    Err(_) => {},
                    Ok((_, end)) => {
                        lemma_joins_track(t, a, n, end, depth, seq![], seq![]);
                    },
                }
            },
        }
    }
}

/// Where the sections behind `FROM` end, if they are understood.
spec fn sections_end(toks: Seq<TokenView>, pos: int) -> Option<int> {
    match super::index_at(toks, super::past_ignored(toks, super::where_at(toks, pos).1)) {
        Ok((_, next)) => Some(super::past_union(toks, next)),
        Err(_) => None,
    }
}

/// Where a selection ends, if it is understood.
spec fn selection_end(toks: Seq<TokenView>, pos: int, depth: int) -> Option<int> {
    match super::into_at(toks, super::select_at(toks, pos + 1).1) {
        Err(_) => None,
        Ok((_, p2)) => match super::from_at(toks, p2, depth) {
            Err(_) => None,
            Ok((_, _, p3)) => sections_end(toks, p3),
        },
    }
}

proof fn lemma_selection_end(toks: Seq<TokenView>, pos: int, depth: int)
    requires
        super::kw_at(toks, pos, Kw::Select),
    ensures
        end_of(super::query_at(toks, pos, depth)) == selection_end(toks, pos, depth),
{
}

#[verifier::rlimit(30)]
proof fn lemma_sections(t: Seq<TokenView>, a: Seq<TokenView>, n: int, pos: int)
    requires
        stands_at(t, a, n),
        0 <= pos <= a.len(),
    ensures
        tracks(t, a, n, sections_end(a, pos), sections_end(t, n + pos)),
        sections_end(a, pos) matches Some(next) ==> pos <= next <= a.len(),
{
    lemma_word(t, a, n, pos);
    if super::kw_at(a, pos, Kw::Where) {
        lemma_condition(t, a, n, pos + 1);
    }
    let p4 = super::where_at(a, pos).1;
    lemma_ignored(t, a, n, p4);
    let p = super::past_ignored(a, p4);
    lemma_index(t, a, n, p);
    match super::index_at(a, p) {
        Err(_) => {},
        Ok((_, p5)) => {
            lemma_word(t, a, n, p5);
            if super::kw_at(a, p5, Kw::Union) {
                lemma_word(t, a, n, p5 + 1);
            }
        },
    }
}

#[verifier::rlimit(30)]
proof fn lemma_query_track(t: Seq<TokenView>, a: Seq<TokenView>, n: int, pos: int, depth: int)
    requires
        stands_at(t, a, n),
        0 <= pos <= a.len(),
        0 <= depth <= MAX_DEPTH,
    ensures
        tracks(
            t,
            a,
            n,
            end_of(super::query_at(a, pos, depth)),
            end_of(super::query_at(t, n + pos, depth)),
        ),
        end_of(super::query_at(a, pos, depth)) matches Some(next) ==> pos < next <= a.len(),
    decreases a.len() - pos, 0int,
{
    lemma_word(t, a, n, pos);
    if super::kw_at(a, pos, Kw::Drop) {
        lemma_ident(t, a, n, pos + 1);
    } else if super::kw_at(a, pos, Kw::Select) {
        lemma_selection_end(a, pos, depth);
        lemma_selection_end(t, n + pos, depth);
        lemma_select(t, a, n, pos + 1);
        let p1 = super::select_at(a, pos + 1).1;
        lemma_word(t, a, n, p1);
        if super::kw_at(a, p1, Kw::Into) {
            lemma_ident(t, a, n, p1 + 1);
        }
        match super::into_at(a, p1) {
            Err(_) => {},
            Ok((into, p2)) => {
                lemma_from_track(t, a, n, p2, depth);
                match super::from_at(a, p2, depth) {
                    Err(_) => {},
                    Ok((sources, joins, p3)) => {
                        lemma_sections(t, a, n, p3);
                    },
                }
            },
        }
    }
}

/// The queries that stand in `a` from `pos` on are read in `t` too, up to the end of `a`; what
/// has been read then is given back.
proof fn lemma_first_text(
    t: Seq<TokenView>,
    a: Seq<TokenView>,
    pos: int,
    in_a: Seq<ast::QueryView>,
    in_t: Seq<ast::QueryView>,
) -> (r: Seq<ast::QueryView>)
    requires
        stands_at(t, a, 0),
        0 <= pos <= a.len(),
        super::queries_at(a, pos, in_a) is Ok,
    ensures
        super::queries_at(t, pos, in_t) == super::queries_at(t, a.len() as int, r),
        r.len() - in_t.len() == super::queries_at(a, pos, in_a)->Ok_0.queries.len() - in_a.len(),
    decreases a.len() - pos,
{
    if pos == a.len() {
        in_t
    } else {
        lemma_word(t, a, 0, pos);
        if super::sign_at(a, pos, ';') {
            lemma_first_text(t, a, pos + 1, in_a, in_t)
        } else {
            lemma_query_track(t, a, 0, pos, 0);
            let (query, next) = super::query_at(a, pos, 0)->Ok_0;
            let other = super::query_at(t, pos, 0)->Ok_0.0;
            lemma_first_text(t, a, next, in_a.push(query), in_t.push(other))
        }
    }
}

/// Some lexeme from `pos` on is not a semicolon.
pub open spec fn says_something(b: Seq<TokenView>, pos: int) -> bool {
    exists|k: int| pos <= k < b.len() && !(#[trigger] b[k]).is_sign(';')
}

/// The queries of `b` are read in `t`, at the end of which it stands, as they are in `b`.
proof fn lemma_second_text(
    t: Seq<TokenView>,
    b: Seq<TokenView>,
    n: int,
    pos: int,
    in_b: Seq<ast::QueryView>,
    in_t: Seq<ast::QueryView>,
)
    requires
        stands_at(t, b, n),
        to_the_end(t, b, n),
        0 <= pos <= b.len(),
        in_b.len() > 0 || says_something(b, pos),
        in_b.len() > 0 ==> in_t.len() > 0,
    ensures
        match super::queries_at(b, pos, in_b) {
            Ok(q) => super::queries_at(t, n + pos, in_t) matches Ok(r) && r.queries.len()
                - in_t.len() == q.queries.len() - in_b.len(),
            Err(_) => super::queries_at(t, n + pos, in_t) is Err,
        },
    decreases b.len() - pos,
{
    if pos < b.len() {
        lemma_word(t, b, n, pos);
        assert(super::sign_at(b, pos, ';') == super::sign_at(t, n + pos, ';'));
        if super::sign_at(b, pos, ';') {
            if in_b.len() == 0 {
                let k = choose|k: int| pos <= k < b.len() && !(#[trigger] b[k]).is_sign(';');
                assert(pos + 1 <= k);
            }
            lemma_second_text(t, b, n, pos + 1, in_b, in_t);
        } else {
            lemma_query_track(t, b, n, pos, 0);
            match super::query_at(b, pos, 0) {
                Err(_) => {},
                Ok((query, next)) => {
                    let other = super::query_at(t, n + pos, 0)->Ok_0.0;
                    lemma_second_text(t, b, n, next, in_b.push(query), in_t.push(other));
                },
            }
        }
    }
}

/// The package of two lists of lexemes with a semicolon between them follows from the packages of
/// each, where the first one is understood and does not reach over its end, and the second one
/// holds more than semicolons: it is understood exactly where the second one is, and holds the
/// queries of both.
pub proof fn law_package_of_joined_lexemes(
    a: Seq<TokenView>,
    semicolon: TokenView,
    b: Seq<TokenView>,
    t: Seq<TokenView>,
)
    requires
        self_contained(a),
        semicolon.is_sign(';'),
        says_something(b, 0),
        t.len() == a.len() + 1 + b.len(),
        forall|k: int| 0 <= k < a.len() ==> same_word(#[trigger] a[k], t[k]),
        same_word(semicolon, t[a.len() as int]),
        forall|k: int| 0 <= k < b.len() ==> same_word(#[trigger] b[k], t[a.len() + 1 + k]),
        super::queries_at(a, 0, seq![]) is Ok,
    ensures
        match super::queries_at(b, 0, seq![]) {
            Ok(q) => super::queries_at(t, 0, seq![]) matches Ok(r) && r.queries.len()
                == super::queries_at(a, 0, seq![])->Ok_0.queries.len() + q.queries.len(),
            Err(_) => super::queries_at(t, 0, seq![]) is Err,
        },
{
    assert(stands_at(t, a, 0));
    let read = lemma_first_text(t, a, 0, seq![], seq![]);
    let n = a.len() as int + 1;
    assert(super::queries_at(t, a.len() as int, read) == super::queries_at(t, n, read));
    assert(stands_at(t, b, n));
    lemma_second_text(t, b, n, 0, seq![], read);
}

/// The package of two texts with a semicolon between them follows from the packages of each. The
/// first text is understood, ends outside a string literal, has its brackets in pairs and no `TOP`
/// at its end; the second one holds more than semicolons. Where the second one is not understood,
/// nor is the whole: there is no package of half of the text. Otherwise the whole holds the queries
/// of both.
pub proof fn law_package_of_joined_texts(a: Seq<char>, b: Seq<char>)
    requires
        lexeme_laws::strings_closed(a, 0),
        self_contained(lexer::lexemes(a)),
        says_something(lexer::lexemes(b), 0),
        super::package_of(a) is Ok,
    ensures
        match super::package_of(b) {
            Ok(q) => super::package_of(lexeme_laws::with_semicolon(a, b)) matches Ok(r)
                && r.queries.len() == super::package_of(a)->Ok_0.queries.len() + q.queries.len(),
            Err(_) => super::package_of(lexeme_laws::with_semicolon(a, b)) is Err,
        },
{
    lexeme_laws::law_lexemes_of_joined_texts(a, b);
    let t = lexer::lexemes(lexeme_laws::with_semicolon(a, b));
    let x = lexer::lexemes(a);
    let n = x.len() as int;
    assert forall|k: int| 0 <= k < x.len() implies same_word(#[trigger] x[k], t[k]) by {
        assert(t.take(n)[k] == t[k]);
    }
    law_package_of_joined_lexemes(x, t[n], lexer::lexemes(b), t);
}

} // verus!
