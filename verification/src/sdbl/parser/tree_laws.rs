//! What the tree of a query holds of the lexemes that it was read from.
use crate::sdbl::ast;
use crate::sdbl::ast::JoinKind;
use crate::sdbl::lexer;
use crate::sdbl::lexer::{Kind, Kw};
use crate::sdbl::parser;
use crate::text;
use vstd::prelude::*;

verus! {

/// A plain word behind a table is its alias, with its own text and offset, and with AS between
/// them it is the same alias. Behind AS a keyword that can be a name is an alias too. Where
/// neither a word nor AS follows, the source has no alias and ends with its table.
pub proof fn law_word_behind_a_table_is_its_alias(
    toks: Seq<lexer::TokenView>,
    pos: int,
    depth: int,
    table: ast::TableView,
    at: int,
)
    requires
        0 <= pos <= toks.len(),
        0 <= depth <= parser::MAX_DEPTH,
        parser::table_at(toks, pos, depth) == Ok::<(ast::TableView, int), parser::ErrorView>((table, at)),
    ensures
        at < toks.len() && toks[at].kind == Kind::Ident ==> (parser::source_at(toks, pos, depth) matches Ok((
            s,
            next,
        )) && s.table == table && s.alias == Some(
            ast::NamedView { name: toks[at].text, offset: toks[at].offset },
        ) && next == at + 1),
        at + 1 < toks.len() && toks[at].kind == Kind::Keyword(Kw::As) && toks[at + 1].kind == Kind::Ident ==> (
        parser::source_at(toks, pos, depth) matches Ok((s, next)) && s.table == table && s.alias == Some(
            ast::NamedView { name: toks[at + 1].text, offset: toks[at + 1].offset },
        ) && next == at + 2),
        at + 1 < toks.len() && toks[at].kind == Kind::Keyword(Kw::As) && parser::name_like(toks[at + 1]) ==> (
        parser::source_at(toks, pos, depth) matches Ok((s, next)) && s.table == table && s.alias == Some(
            ast::NamedView { name: toks[at + 1].text, offset: toks[at + 1].offset },
        ) && next == at + 2),
        at == toks.len() || (toks[at].kind != Kind::Ident && toks[at].kind != Kind::Keyword(Kw::As)) ==> (
        parser::source_at(toks, pos, depth) matches Ok((s, next)) && s.table == table && s.alias is None
            && next == at),
{
    parser::lemma_table(toks, pos, depth);
}

/// No word that follows a table is dropped: every plain word between the table and the end of its
/// source is the alias, and behind the end of a source without an alias no plain word stands.
pub proof fn law_no_word_of_a_source_is_dropped(
    toks: Seq<lexer::TokenView>,
    pos: int,
    depth: int,
    table: ast::TableView,
    at: int,
    k: int,
)
    requires
        0 <= pos <= toks.len(),
        0 <= depth <= parser::MAX_DEPTH,
        parser::table_at(toks, pos, depth) == Ok::<(ast::TableView, int), parser::ErrorView>((table, at)),
    ensures
        parser::source_at(toks, pos, depth) matches Ok((s, next)) && s.table == table && at <= next
            <= toks.len() && (at <= k < next && toks[k].kind == Kind::Ident ==> s.alias == Some(
            ast::NamedView { name: toks[k].text, offset: toks[k].offset },
        )) && (s.alias is None && next == at && next < toks.len() ==> toks[next].kind != Kind::Ident),
{
    parser::lemma_table(toks, pos, depth);
}

/// A source is as far understood as its table is.
pub proof fn law_source_needs_a_table(toks: Seq<lexer::TokenView>, pos: int, depth: int)
    ensures
        match parser::table_at(toks, pos, depth) {
            Ok((table, _)) => parser::source_at(toks, pos, depth) matches Ok((s, _)) && s.table == table,
            Err(e) => parser::source_at(toks, pos, depth) == Err::<(ast::SourceView, int), parser::ErrorView>(e),
        },
{
}

/// Sources are read one by one: those that were read stay in front, behind a comma the next one
/// stands, and the list ends where no comma follows.
pub proof fn law_sources_are_read_one_by_one(
    toks: Seq<lexer::TokenView>,
    pos: int,
    depth: int,
    sources: Seq<ast::SourceView>,
)
    requires
        0 <= pos <= toks.len(),
        0 <= depth <= parser::MAX_DEPTH,
    ensures
        parser::sources_at(toks, pos, depth, sources) matches Ok((all, end)) ==> {
            &&& sources.is_prefix_of(all)
            &&& pos <= end <= toks.len()
            &&& !parser::sign_at(toks, end, ',')
            &&& !parser::sign_at(toks, pos, ',') ==> all == sources && end == pos
            &&& parser::sign_at(toks, pos, ',') ==> (parser::source_at(toks, pos + 1, depth) matches Ok((
                s,
                _,
            )) && sources.len() < all.len() && all[sources.len() as int] == s)
        },
    decreases toks.len() - pos,
{
    if parser::sign_at(toks, pos, ',') {
        parser::lemma_source(toks, pos + 1, depth);
        if let Ok((source, next)) = parser::source_at(toks, pos + 1, depth) {
            let more = sources.push(source);
            law_sources_are_read_one_by_one(toks, next, depth, more);
            if let Ok((all, end)) = parser::sources_at(toks, pos, depth, sources) {
                assert(more[sources.len() as int] == all.subrange(0, more.len() as int)[sources.len() as int]);
                assert(sources =~= all.subrange(0, sources.len() as int)) by {
                    assert forall|k: int| 0 <= k < sources.len() implies sources[k] == all[k] by {
                        assert(more[k] == all.subrange(0, more.len() as int)[k]);
                    }
                }
            }
        }
    } else {
        assert(sources =~= sources.subrange(0, sources.len() as int));
    }
}

/// Joins are read one by one: those that were read stay in front, and the list ends where no word
/// of a join follows. A join has the kind of its word, an inner one where only JOIN stands, the
/// offset of its first word, the source behind JOIN, and a condition exactly where ON follows the
/// source.
#[verifier::rlimit(40)]
pub proof fn law_joins_are_read_one_by_one(
    toks: Seq<lexer::TokenView>,
    pos: int,
    depth: int,
    joins: Seq<ast::JoinView>,
)
    requires
        0 <= pos <= toks.len(),
        0 <= depth <= parser::MAX_DEPTH,
    ensures
        parser::joins_at(toks, pos, depth, joins) matches Ok((all, end)) ==> {
            let side = parser::kw_at(toks, pos, Kw::Left) || parser::kw_at(toks, pos, Kw::Right)
                || parser::kw_at(toks, pos, Kw::Full) || parser::kw_at(toks, pos, Kw::Inner);
            let word = if side {
                if parser::kw_at(toks, pos + 1, Kw::Outer) {
                    pos + 2
                } else {
                    pos + 1
                }
            } else {
                pos
            };
            &&& joins.is_prefix_of(all)
            &&& pos <= end <= toks.len()
            &&& !parser::kw_at(toks, end, Kw::Join) && !parser::kw_at(toks, end, Kw::Left)
                && !parser::kw_at(toks, end, Kw::Right) && !parser::kw_at(toks, end, Kw::Full)
                && !parser::kw_at(toks, end, Kw::Inner)
            &&& !side && !parser::kw_at(toks, pos, Kw::Join) ==> all == joins && end == pos
            &&& side || parser::kw_at(toks, pos, Kw::Join) ==> parser::kw_at(toks, word, Kw::Join) && (
            parser::source_at(toks, word + 1, depth) matches Ok((s, next)) && joins.len() < all.len() && {
                let j = all[joins.len() as int];
                &&& j.source == s
                &&& j.offset == toks[pos].offset
                &&& j.on is Some <==> parser::kw_at(toks, next, Kw::On)
                &&& j.on matches Some(c) ==> c == parser::condition_at(toks, next + 1).0
                &&& j.kind == JoinKind::Left <==> parser::kw_at(toks, pos, Kw::Left)
                &&& j.kind == JoinKind::Right <==> parser::kw_at(toks, pos, Kw::Right)
                &&& j.kind == JoinKind::Full <==> parser::kw_at(toks, pos, Kw::Full)
            })
        },
    decreases toks.len() - pos,
{
    match parser::join_kind_at(toks, pos) {
        None => {
            assert(joins =~= joins.subrange(0, joins.len() as int));
        },
        Some((kind, p)) => {
            let at = parser::past_kw(toks, p, Kw::Outer);
            if parser::kw_at(toks, at, Kw::Join) {
                parser::lemma_source(toks, at + 1, depth);
                if let Ok((source, next)) = parser::source_at(toks, at + 1, depth) {
                    let (on, end) = if parser::kw_at(toks, next, Kw::On) {
                        let (condition, end) = parser::condition_at(toks, next + 1);
                        (Some(condition), end)
                    } else {
                        (None, next)
                    };
                    if parser::kw_at(toks, next, Kw::On) {
                        parser::lemma_condition_from(
                            toks,
                            next + 1,
                            0,
                            parser::scan_start(parser::offset_at(toks, next + 1)),
                        );
                    }
                    let joined = ast::JoinView {
                        kind,
                        source,
                        on,
                        offset: parser::offset_at(toks, pos),
                    };
                    let more = joins.push(joined);
                    law_joins_are_read_one_by_one(toks, end, depth, more);
                    if let Ok((all, last)) = parser::joins_at(toks, pos, depth, joins) {
                        assert(more[joins.len() as int] == all.subrange(0, more.len() as int)[joins.len() as int]);
                        assert(joins =~= all.subrange(0, joins.len() as int)) by {
                            assert forall|k: int| 0 <= k < joins.len() implies joins[k] == all[k] by {
                                assert(more[k] == all.subrange(0, more.len() as int)[k]);
                            }
                        }
                    }
                }
            }
        },
    }
}

/// The section FROM of a query holds the source behind its word first, then those behind commas,
/// then the joins. A query without the word has neither sources nor joins.
#[verifier::rlimit(40)]
pub proof fn law_section_from(toks: Seq<lexer::TokenView>, pos: int, depth: int)
    requires
        0 <= pos <= toks.len(),
        0 <= depth <= parser::MAX_DEPTH,
    ensures
        parser::from_at(toks, pos, depth) matches Ok((sources, joins, end)) ==> {
            &&& !parser::kw_at(toks, pos, Kw::From) ==> sources.len() == 0 && joins.len() == 0 && end == pos
            &&& parser::kw_at(toks, pos, Kw::From) ==> {
                &&& sources.len() > 0
                &&& parser::source_at(toks, pos + 1, depth) matches Ok((s, next)) && sources[0] == s && (
                parser::sign_at(toks, next, ',') ==> sources.len() > 1 && (parser::source_at(
                    toks,
                    next + 1,
                    depth,
                ) matches Ok((t, _)) && sources[1] == t)) && (!parser::sign_at(toks, next, ',')
                    ==> sources.len() == 1 && (parser::joins_at(toks, next, depth, seq![]) matches Ok((v, last))
                    && joins == v && end == last))
            }
            &&& !parser::kw_at(toks, end, Kw::Join) && !parser::sign_at(toks, end, ',') || !parser::kw_at(
                toks,
                pos,
                Kw::From,
            ) || joins.len() > 0
        },
{
    if parser::kw_at(toks, pos, Kw::From) {
        parser::lemma_source(toks, pos + 1, depth);
        if let Ok((source, next)) = parser::source_at(toks, pos + 1, depth) {
            law_sources_are_read_one_by_one(toks, next, depth, seq![source]);
            parser::lemma_sources(toks, next, depth, seq![source]);
            if let Ok((sources, end)) = parser::sources_at(toks, next, depth, seq![source]) {
                assert(seq![source][0] == sources.subrange(0, 1)[0]);
                law_joins_are_read_one_by_one(toks, end, depth, seq![]);
            }
        }
    }
}

/// The parts of a path are read one by one: those that were read stay in front, behind a dot the
/// next name stands, and the path ends where no dot follows.
pub proof fn law_parts_are_read_one_by_one(toks: Seq<lexer::TokenView>, pos: int, parts: Seq<Seq<char>>)
    requires
        0 <= pos <= toks.len(),
    ensures
        parser::parts_at(toks, pos, parts) matches Ok((all, end)) ==> {
            &&& parts.is_prefix_of(all)
            &&& !parser::sign_at(toks, end, '.')
            &&& !parser::sign_at(toks, pos, '.') ==> all == parts && end == pos
            &&& parser::sign_at(toks, pos, '.') ==> parts.len() < all.len() && (parser::ident_at(
                toks,
                pos + 1,
            ) matches Ok((part, _)) && all[parts.len() as int] == part)
        },
    decreases toks.len() - pos,
{
    if parser::sign_at(toks, pos, '.') {
        if let Ok((part, next)) = parser::ident_at(toks, pos + 1) {
            let more = parts.push(part);
            law_parts_are_read_one_by_one(toks, next, more);
            if let Ok((all, end)) = parser::parts_at(toks, pos, parts) {
                assert(more[parts.len() as int] == all.subrange(0, more.len() as int)[parts.len() as int]);
                assert(parts =~= all.subrange(0, parts.len() as int)) by {
                    assert forall|k: int| 0 <= k < parts.len() implies parts[k] == all[k] by {
                        assert(more[k] == all.subrange(0, more.len() as int)[k]);
                    }
                }
            }
        }
    } else {
        assert(parts =~= parts.subrange(0, parts.len() as int));
    }
}

/// A kind of object, a dot and a name are the table of an object; a third part behind another dot
/// is its virtual table. Brackets behind the path hold its parameters.
#[verifier::rlimit(40)]
pub proof fn law_table_of_an_object(toks: Seq<lexer::TokenView>, pos: int, depth: int)
    requires
        0 <= pos,
        pos + 2 < toks.len(),
        toks[pos].kind == Kind::Ident,
        parser::sign_at(toks, pos + 1, '.'),
        toks[pos + 2].kind == Kind::Ident,
        parser::meta_kind(text::uppercase(toks[pos].text)),
    ensures
        !parser::sign_at(toks, pos + 3, '.') ==> (parser::table_at(toks, pos, depth) matches Ok((
            ast::TableView::Meta(m),
            end,
        )) && m.kind == toks[pos].text && m.name == toks[pos + 2].text && m.sub_table is None && m.offset
            == toks[pos].offset && m.has_parens == parser::sign_at(toks, pos + 3, '(') && (!m.has_parens
            ==> m.params.len() == 0 && end == pos + 3) && (m.params, end) == parser::params_at(toks, pos + 3)),
        parser::sign_at(toks, pos + 3, '.') && pos + 4 < toks.len() && toks[pos + 4].kind == Kind::Ident
            && !parser::sign_at(toks, pos + 5, '.') ==> (parser::table_at(toks, pos, depth) matches Ok((
            ast::TableView::Meta(m),
            end,
        )) && m.kind == toks[pos].text && m.name == toks[pos + 2].text && m.sub_table == Some(
            toks[pos + 4].text,
        ) && m.offset == toks[pos].offset && m.has_parens == parser::sign_at(toks, pos + 5, '(') && (
        !m.has_parens ==> m.params.len() == 0 && end == pos + 5) && (m.params, end) == parser::params_at(
            toks,
            pos + 5,
        )),
{
    let a = toks[pos].text;
    let b = toks[pos + 2].text;
    assert(!toks[pos].is_sign('(') && !toks[pos].is_sign('%'));
    assert(!toks[pos + 2].is_sign('%'));
    assert(parser::ident_at(toks, pos) == Ok::<(Seq<char>, int), parser::ErrorView>((a, pos + 1)));
    assert(parser::ident_at(toks, pos + 2) == Ok::<(Seq<char>, int), parser::ErrorView>((b, pos + 3)));
    reveal_with_fuel(parser::parts_at, 4);
    if parser::sign_at(toks, pos + 3, '.') && pos + 4 < toks.len() && toks[pos + 4].kind == Kind::Ident {
        let c = toks[pos + 4].text;
        assert(!toks[pos + 4].is_sign('%'));
        assert(parser::ident_at(toks, pos + 4) == Ok::<(Seq<char>, int), parser::ErrorView>((c, pos + 5)));
        if !parser::sign_at(toks, pos + 5, '.') {
            assert(parser::path_at(toks, pos) == Ok::<(Seq<Seq<char>>, int), parser::ErrorView>(
                (seq![a].push(b).push(c), pos + 5),
            ));
        }
    }
    if !parser::sign_at(toks, pos + 3, '.') {
        assert(parser::path_at(toks, pos) == Ok::<(Seq<Seq<char>>, int), parser::ErrorView>(
            (seq![a].push(b), pos + 3),
        ));
    }
}

/// A single word is a temporary table, whatever it is; a parameter of the query is a table of its
/// own. Behind an opening bracket a selection has to stand, and its queries are the table.
pub proof fn law_other_tables(toks: Seq<lexer::TokenView>, pos: int, depth: int)
    requires
        0 <= pos < toks.len(),
    ensures
        toks[pos].kind == Kind::Ident && !parser::sign_at(toks, pos + 1, '.') && !parser::sign_at(
            toks,
            pos + 1,
            '(',
        ) ==> (parser::table_at(toks, pos, depth) matches Ok((ast::TableView::Temp(n), end)) && n.name
            == toks[pos].text && n.offset == toks[pos].offset && end == pos + 1),
        toks[pos].kind == Kind::Param ==> (parser::table_at(toks, pos, depth) matches Ok((
            ast::TableView::Parameter(n),
            end,
        )) && n.name == toks[pos].text && n.offset == toks[pos].offset && end == pos + 1),
        toks[pos].is_sign('(') ==> {
            &&& depth >= parser::MAX_DEPTH ==> parser::table_at(toks, pos, depth) is Err
            &&& !parser::kw_at(toks, pos + 1, Kw::Select) ==> parser::table_at(toks, pos, depth) is Err
            &&& depth < parser::MAX_DEPTH && parser::kw_at(toks, pos + 1, Kw::Select) ==> match parser::selections_at(
                toks,
                pos + 1,
                depth + 1,
                seq![],
            ) {
                Ok((queries, next)) => (parser::table_at(toks, pos, depth) is Ok <==> parser::sign_at(
                    toks,
                    next,
                    ')',
                )) && (parser::table_at(toks, pos, depth) matches Ok((t, end)) ==> end == next + 1 && (
                t matches ast::TableView::Subquery(p) && p.queries == queries)),
                Err(_) => parser::table_at(toks, pos, depth) is Err,
            }
        },
{
    if toks[pos].kind == Kind::Ident && !parser::sign_at(toks, pos + 1, '.') && !parser::sign_at(
        toks,
        pos + 1,
        '(',
    ) {
        let a = toks[pos].text;
        assert(!toks[pos].is_sign('(') && !toks[pos].is_sign('%'));
        assert(parser::ident_at(toks, pos) == Ok::<(Seq<char>, int), parser::ErrorView>((a, pos + 1)));
        assert(parser::path_at(toks, pos) == Ok::<(Seq<Seq<char>>, int), parser::ErrorView>((seq![a], pos + 1)));
        assert(text::joined(seq![a], "."@) =~= a);
    }
}

/// The words ALLOWED and DISTINCT and the number behind TOP are no part of what a query selects:
/// each is passed over, and without them the expressions begin at once.
pub proof fn law_words_before_the_selected_expressions(toks: Seq<lexer::TokenView>, pos: int)
    requires
        0 <= pos <= toks.len(),
    ensures
        parser::kw_at(toks, pos, Kw::Allowed) && !parser::kw_at(toks, pos + 1, Kw::Allowed) ==> parser::select_at(
            toks,
            pos,
        ) == parser::select_at(toks, pos + 1),
        parser::kw_at(toks, pos, Kw::Distinct) && !parser::kw_at(toks, pos + 1, Kw::Allowed)
            && !parser::kw_at(toks, pos + 1, Kw::Distinct) ==> parser::select_at(toks, pos)
            == parser::select_at(toks, pos + 1),
        parser::kw_at(toks, pos, Kw::Top) && pos + 1 < toks.len() ==> parser::select_at(toks, pos)
            == parser::condition_at(toks, pos + 2),
        !parser::kw_at(toks, pos, Kw::Allowed) && !parser::kw_at(toks, pos, Kw::Distinct) && !parser::kw_at(
            toks,
            pos,
            Kw::Top,
        ) ==> parser::select_at(toks, pos) == parser::condition_at(toks, pos),
{
}

/// A selection holds what its sections say: the table behind INTO, the sources and joins of the
/// section FROM, and the condition behind WHERE, each exactly where its word stands. A query that
/// drops a table holds its name and nothing else.
#[verifier::rlimit(40)]
pub proof fn law_sections_of_a_query(toks: Seq<lexer::TokenView>, pos: int, depth: int)
    requires
        0 <= pos < toks.len(),
    ensures
        parser::query_at(toks, pos, depth) matches Ok((q, _)) ==> {
            &&& q.offset == toks[pos].offset
            &&& q.drop_table is Some <==> toks[pos].is_kw(Kw::Drop)
            &&& toks[pos].is_kw(Kw::Drop) ==> q.select is None && q.into is None && q.filter is None
                && q.sources.len() == 0 && q.joins.len() == 0 && q.index_fields.len() == 0 && (pos + 1
                < toks.len() && toks[pos + 1].kind == Kind::Ident ==> q.drop_table == Some(
                ast::NamedView { name: toks[pos + 1].text, offset: toks[pos + 1].offset },
            ))
            &&& !toks[pos].is_kw(Kw::Drop) ==> toks[pos].is_kw(Kw::Select) && {
                let (select, p) = parser::select_at(toks, pos + 1);
                &&& q.select == Some(select)
                &&& q.into is Some <==> parser::kw_at(toks, p, Kw::Into)
                &&& parser::kw_at(toks, p, Kw::Into) && p + 1 < toks.len() && toks[p + 1].kind == Kind::Ident
                    ==> q.into == Some(
                    ast::NamedView { name: toks[p + 1].text, offset: toks[p + 1].offset },
                ) && (parser::from_at(toks, p + 2, depth) matches Ok((sources, joins, r)) && q.sources
                    == sources && q.joins == joins && (q.filter is Some <==> parser::kw_at(
                    toks,
                    r,
                    Kw::Where,
                )) && (q.filter matches Some(c) ==> c == parser::condition_at(toks, r + 1).0))
                &&& !parser::kw_at(toks, p, Kw::Into) ==> (parser::from_at(toks, p, depth) matches Ok((
                    sources,
                    joins,
                    r,
                )) && q.sources == sources && q.joins == joins && (q.filter is Some <==> parser::kw_at(
                    toks,
                    r,
                    Kw::Where,
                )) && (q.filter matches Some(c) ==> c == parser::condition_at(toks, r + 1).0))
            }
        },
{
    if toks[pos].is_kw(Kw::Drop) && pos + 1 < toks.len() && toks[pos + 1].kind == Kind::Ident {
        assert(!toks[pos + 1].is_sign('%'));
    }
    let p = parser::select_at(toks, pos + 1).1;
    if parser::kw_at(toks, p, Kw::Into) && p + 1 < toks.len() && toks[p + 1].kind == Kind::Ident {
        assert(!toks[p + 1].is_sign('%'));
    }
}

/// The fields of an index stand behind its words: without them there is none, the first one
/// stands right behind them, and behind each comma another one does.
pub proof fn law_fields_of_an_index(toks: Seq<lexer::TokenView>, pos: int)
    requires
        0 <= pos < toks.len(),
    ensures
        parser::index_at(toks, pos) matches Ok((names, _)) ==> {
            &&& !parser::kw_at(toks, pos, Kw::IndexBy) ==> names.len() == 0
            &&& parser::kw_at(toks, pos, Kw::IndexBy) && !parser::by_sets(toks, pos + 1) ==> names.len() > 0
                && names[0].offset == parser::offset_at(toks, pos + 1)
            &&& parser::kw_at(toks, pos, Kw::IndexBy) && !parser::by_sets(toks, pos + 1) && pos + 1
                < toks.len() && toks[pos + 1].kind == Kind::Ident && !parser::sign_at(toks, pos + 2, '.')
                ==> names[0].name == toks[pos + 1].text && (parser::sign_at(toks, pos + 2, ',') ==> names.len()
                > 1) && (!parser::sign_at(toks, pos + 2, ',') ==> names.len() == 1)
        },
{
    if parser::kw_at(toks, pos, Kw::IndexBy) && !parser::by_sets(toks, pos + 1) {
        parser::lemma_path_name_at(toks, pos + 1);
        if let Ok((name, next)) = parser::path_name_at(toks, pos + 1) {
            lemma_more_names(toks, next, seq![name]);
            if pos + 1 < toks.len() && toks[pos + 1].kind == Kind::Ident && !parser::sign_at(toks, pos + 2, '.') {
                assert(!toks[pos + 1].is_sign('%'));
                let a = toks[pos + 1].text;
                assert(parser::path_at(toks, pos + 1) == Ok::<(Seq<Seq<char>>, int), parser::ErrorView>(
                    (seq![a], pos + 2),
                ));
                assert(text::joined(seq![a], "."@) =~= a);
            }
        }
    }
}

proof fn lemma_more_names(toks: Seq<lexer::TokenView>, pos: int, names: Seq<ast::NamedView>)
    requires
        0 <= pos <= toks.len(),
    ensures
        parser::more_path_names(toks, pos, names) matches Ok((all, _)) ==> names.len() <= all.len() && (forall|
            k: int,
        |
            0 <= k < names.len() ==> all[k] == names[k]) && (parser::sign_at(toks, pos, ',') ==> names.len()
            < all.len()) && (!parser::sign_at(toks, pos, ',') ==> all == names),
    decreases toks.len() - pos,
{
    if parser::sign_at(toks, pos, ',') {
        if let Ok((name, next)) = parser::path_name_at(toks, pos + 1) {
            parser::lemma_path_name_at(toks, pos + 1);
            lemma_more_names(toks, next, names.push(name));
            if let Ok((all, _)) = parser::more_path_names(toks, next, names.push(name)) {
                assert forall|k: int| 0 <= k < names.len() implies all[k] == names[k] by {
                    assert(all[k] == names.push(name)[k]);
                }
            }
        }
    }
}

/// Queries of a package are read one by one: behind semicolons the next one stands, and every
/// query that was read stays.
pub proof fn law_queries_are_read_one_by_one(
    toks: Seq<lexer::TokenView>,
    pos: int,
    queries: Seq<ast::QueryView>,
)
    requires
        0 <= pos <= toks.len(),
    ensures
        parser::queries_at(toks, pos, queries) matches Ok(p) ==> {
            &&& queries.len() <= p.queries.len()
            &&& forall|k: int| 0 <= k < queries.len() ==> p.queries[k] == queries[k]
            &&& pos < toks.len() && !parser::sign_at(toks, pos, ';') ==> queries.len() < p.queries.len() && (
            parser::query_at(toks, pos, 0) matches Ok((q, _)) && p.queries[queries.len() as int] == q)
            &&& parser::sign_at(toks, pos, ';') ==> parser::queries_at(toks, pos + 1, queries) == Ok::<
                ast::PackageView,
                parser::ErrorView,
            >(p)
            &&& pos == toks.len() ==> p.queries == queries
        },
    decreases toks.len() - pos,
{
    if pos < toks.len() {
        if parser::sign_at(toks, pos, ';') {
            law_queries_are_read_one_by_one(toks, pos + 1, queries);
        } else if let Ok((query, next)) = parser::query_at(toks, pos, 0) {
            if parser::advances(toks, pos, next) {
                law_queries_are_read_one_by_one(toks, next, queries.push(query));
                if let Ok(p) = parser::queries_at(toks, next, queries.push(query)) {
                    assert(p.queries[queries.len() as int] == queries.push(query)[queries.len() as int]);
                    assert forall|k: int| 0 <= k < queries.len() implies p.queries[k] == queries[k] by {
                        assert(p.queries[k] == queries.push(query)[k]);
                    }
                }
            }
        }
    }
}

/// How many more brackets open than close among the lexemes from `pos` up to `k`.
pub open spec fn open_between(toks: Seq<lexer::TokenView>, pos: int, k: int) -> int
    decreases k - pos,
{
    if k <= pos {
        0
    } else {
        open_between(toks, pos, k - 1) + if toks[k - 1].is_sign('(') {
            1int
        } else if toks[k - 1].is_sign(')') {
            -1int
        } else {
            0int
        }
    }
}

proof fn lemma_open_between(toks: Seq<lexer::TokenView>, pos: int, k: int)
    requires
        0 <= pos < k <= toks.len(),
    ensures
        open_between(toks, pos, k) == parser::depth_after(toks[pos], 0) + open_between(toks, pos + 1, k),
    decreases k - pos,
{
    if k > pos + 1 {
        lemma_open_between(toks, pos, k - 1);
    } else {
        assert(open_between(toks, pos, pos) == 0);
        assert(open_between(toks, pos + 1, k) == 0);
    }
}

#[verifier::rlimit(40)]
proof fn lemma_or(toks: Seq<lexer::TokenView>, pos: int, depth: int, scan: parser::ScanView)
    requires
        0 <= pos <= toks.len(),
    ensures
        ({
            let (c, end) = parser::condition_from(toks, pos, depth, scan);
            &&& c.has_or <==> scan.condition.has_or || exists|k: int|
                pos <= k < end && (#[trigger] toks[k]).is_kw(Kw::Or)
            &&& c.has_top_level_or <==> scan.condition.has_top_level_or || exists|k: int|
                pos <= k < end && (#[trigger] toks[k]).is_kw(Kw::Or) && depth + open_between(toks, pos, k) == 0
            &&& forall|k: int|
                pos <= k < end ==> !(parser::expression_ends(#[trigger] toks[k]) && depth + open_between(
                    toks,
                    pos,
                    k,
                ) == 0)
            &&& end == toks.len() || (parser::expression_ends(toks[end]) && depth + open_between(
                toks,
                pos,
                end,
            ) == 0)
        }),
    decreases toks.len() - pos,
{
    parser::lemma_condition_from(toks, pos, depth, scan);
    if pos < toks.len() && !(depth == 0 && parser::expression_ends(toks[pos])) {
        let after = parser::depth_after(toks[pos], depth);
        let next = scan.took(toks[pos], after == 0, parser::sign_at(toks, pos + 1, '.'));
        lemma_or(toks, pos + 1, after, next);
        parser::lemma_condition_from(toks, pos + 1, after, next);
        let (c, end) = parser::condition_from(toks, pos, depth, scan);
        assert forall|k: int| pos < k <= toks.len() implies depth + #[trigger] open_between(toks, pos, k)
            == after + open_between(toks, pos + 1, k) by {
            lemma_open_between(toks, pos, k);
        }
        assert(next.condition.has_or == (scan.condition.has_or || toks[pos].is_kw(Kw::Or)));
        assert(next.condition.has_top_level_or == (scan.condition.has_top_level_or || (toks[pos].is_kw(
            Kw::Or,
        ) && after == 0)));
        if toks[pos].is_kw(Kw::Or) {
            assert(after == depth);
            assert(open_between(toks, pos, pos) == 0);
        }
        if exists|k: int| pos < k < end && (#[trigger] toks[k]).is_kw(Kw::Or) && after + open_between(
            toks,
            pos + 1,
            k,
        ) == 0 {
            let k = choose|k: int| pos < k < end && (#[trigger] toks[k]).is_kw(Kw::Or) && after + open_between(
                toks,
                pos + 1,
                k,
            ) == 0;
            assert(depth + open_between(toks, pos, k) == 0);
        }
        if exists|k: int| pos <= k < end && (#[trigger] toks[k]).is_kw(Kw::Or) && depth + open_between(
            toks,
            pos,
            k,
        ) == 0 {
            let k = choose|k: int| pos <= k < end && (#[trigger] toks[k]).is_kw(Kw::Or) && depth + open_between(
                toks,
                pos,
                k,
            ) == 0;
            if k > pos {
                assert(after + open_between(toks, pos + 1, k) == 0);
            }
        }
        assert forall|k: int| pos <= k < end implies !(parser::expression_ends(#[trigger] toks[k]) && depth
            + open_between(toks, pos, k) == 0) by {
            if k > pos {
                assert(depth + open_between(toks, pos, k) == after + open_between(toks, pos + 1, k));
            }
        }
        if end < toks.len() {
            assert(depth + open_between(toks, pos, end) == after + open_between(toks, pos + 1, end));
        }
    }
}

/// An expression holds an OR exactly where one of its lexemes is one, and an OR at its top exactly
/// where one stands outside all brackets. It ends with the first lexeme outside all brackets that
/// can end it, a closing bracket, a semicolon or the word of a section, or with the text.
pub proof fn law_or_of_a_condition(toks: Seq<lexer::TokenView>, pos: int)
    requires
        0 <= pos <= toks.len(),
    ensures
        ({
            let (c, end) = parser::condition_at(toks, pos);
            &&& c.has_or <==> exists|k: int| pos <= k < end && (#[trigger] toks[k]).is_kw(Kw::Or)
            &&& c.has_top_level_or <==> exists|k: int|
                pos <= k < end && (#[trigger] toks[k]).is_kw(Kw::Or) && open_between(toks, pos, k) == 0
            &&& forall|k: int|
                pos <= k < end ==> !((#[trigger] toks[k]).is_sign(';') && open_between(toks, pos, k) == 0)
                    && !(toks[k].is_sign(')') && open_between(toks, pos, k) == 0) && !((
                toks[k].kind matches Kind::Keyword(kw) && parser::section_keyword(kw)) && open_between(
                    toks,
                    pos,
                    k,
                ) == 0)
            &&& end == toks.len() || (open_between(toks, pos, end) == 0 && (toks[end].is_sign(';')
                || toks[end].is_sign(')') || (toks[end].kind matches Kind::Keyword(kw)
                && parser::section_keyword(kw))))
        }),
{
    lemma_or(toks, pos, 0, parser::scan_start(parser::offset_at(toks, pos)));
}

proof fn lemma_fields_stay(toks: Seq<lexer::TokenView>, pos: int, depth: int, scan: parser::ScanView)
    requires
        0 <= pos <= toks.len(),
    ensures
        ({
            let fields = parser::condition_from(toks, pos, depth, scan).0.fields;
            let n = scan.condition.fields.len() as int;
            &&& n <= fields.len()
            &&& forall|k: int| 0 <= k < n ==> fields[k] == scan.condition.fields[k]
            &&& scan.path.len() > 0 ==> n < fields.len() && fields[n].offset == scan.path_offset
                && scan.path.len() <= fields[n].path.len() && forall|m: int|
                0 <= m < scan.path.len() ==> fields[n].path[m] == scan.path[m]
        }),
    decreases toks.len() - pos,
{
    if pos < toks.len() && !(depth == 0 && parser::expression_ends(toks[pos])) {
        let after = parser::depth_after(toks[pos], depth);
        let next = scan.took(toks[pos], after == 0, parser::sign_at(toks, pos + 1, '.'));
        lemma_fields_stay(toks, pos + 1, after, next);
        let fields = parser::condition_from(toks, pos, depth, scan).0.fields;
        let n = scan.condition.fields.len() as int;
        assert forall|k: int| 0 <= k < n implies fields[k] == scan.condition.fields[k] by {
            assert(fields[k] == next.condition.fields[k]);
        }
        if scan.path.len() > 0 {
            if next.condition.fields.len() > n {
                assert(fields[n] == next.condition.fields[n]);
            } else {
                assert forall|m: int| 0 <= m < scan.path.len() implies fields[n].path[m] == scan.path[m] by {
                    assert(fields[n].path[m] == next.path[m]);
                }
            }
        }
    }
}

#[verifier::rlimit(40)]
proof fn lemma_name_is_kept(
    toks: Seq<lexer::TokenView>,
    pos: int,
    depth: int,
    scan: parser::ScanView,
    k: int,
)
    requires
        0 <= pos <= k < parser::condition_from(toks, pos, depth, scan).1,
        pos <= toks.len(),
        toks[k].kind == Kind::Ident,
    ensures
        ({
            let (c, end) = parser::condition_from(toks, pos, depth, scan);
            &&& exists|i: int, m: int|
                0 <= i < c.fields.len() && 0 <= m < c.fields[i].path.len() && #[trigger] c.fields[i].path[m]
                    == toks[k].text
            &&& (k == pos ==> !scan.after_dot) && (k > pos ==> !toks[k - 1].is_sign('.')) ==> exists|i: int|
                0 <= i < c.fields.len() && (#[trigger] c.fields[i]).offset == toks[k].offset
                    && c.fields[i].path.len() > 0 && c.fields[i].path[0] == toks[k].text
            &&& k + 2 < end && toks[k + 1].is_sign('.') && toks[k + 2].kind == Kind::Ident ==> exists|
                i: int,
                m: int,
            |
                0 <= i < c.fields.len() && 0 <= m && m + 1 < c.fields[i].path.len()
                    && #[trigger] c.fields[i].path[m] == toks[k].text && c.fields[i].path[m + 1]
                    == toks[k + 2].text
        }),
    decreases toks.len() - pos,
{
    parser::lemma_condition_from(toks, pos, depth, scan);
    let after = parser::depth_after(toks[pos], depth);
    let next = scan.took(toks[pos], after == 0, parser::sign_at(toks, pos + 1, '.'));
    let (c, end) = parser::condition_from(toks, pos, depth, scan);
    assert((c, end) == parser::condition_from(toks, pos + 1, after, next));
    if k > pos {
        lemma_name_is_kept(toks, pos + 1, after, next, k);
        if k == pos + 1 && !toks[pos].is_sign('.') {
            assert(!next.after_dot);
        }
    } else {
        lemma_fields_stay(toks, pos + 1, after, next);
        let n = next.condition.fields.len() as int;
        let m = next.path.len() - 1;
        assert(next.path[m] == toks[k].text);
        assert(c.fields[n].path[m] == toks[k].text);
        if !scan.after_dot {
            assert(next.path.len() == 1);
            assert(next.path_offset == toks[k].offset);
            assert(c.fields[n].offset == toks[k].offset && c.fields[n].path[0] == toks[k].text);
        }
        if k + 2 < end && toks[k + 1].is_sign('.') && toks[k + 2].kind == Kind::Ident {
            let after1 = parser::depth_after(toks[k + 1], after);
            let next1 = next.took(toks[k + 1], after1 == 0, parser::sign_at(toks, k + 2, '.'));
            assert((c, end) == parser::condition_from(toks, k + 2, after1, next1));
            assert(next1.after_dot && next1.path == next.path);
            let after2 = parser::depth_after(toks[k + 2], after1);
            let next2 = next1.took(toks[k + 2], after2 == 0, parser::sign_at(toks, k + 3, '.'));
            assert((c, end) == parser::condition_from(toks, k + 3, after2, next2));
            assert(next2.path == next.path.push(toks[k + 2].text));
            assert(next2.condition.fields == next.condition.fields);
            lemma_fields_stay(toks, k + 3, after2, next2);
            assert(next2.path[m] == toks[k].text);
            assert(next2.path[m + 1] == toks[k + 2].text);
            assert(c.fields[n].path[m] == toks[k].text);
            assert(c.fields[n].path[m + 1] == toks[k + 2].text);
        }
    }
}

/// No name of an expression is dropped: every plain word of it is a part of one of its fields. A
/// word that does not stand behind a dot begins a field, at its own offset, and two words with a
/// dot between them stand next to each other in one field.
pub proof fn law_names_of_a_condition_are_kept(toks: Seq<lexer::TokenView>, pos: int, k: int)
    requires
        0 <= pos <= k < parser::condition_at(toks, pos).1,
        pos <= toks.len(),
        toks[k].kind == Kind::Ident,
    ensures
        ({
            let (c, end) = parser::condition_at(toks, pos);
            &&& exists|i: int, m: int|
                0 <= i < c.fields.len() && 0 <= m < c.fields[i].path.len() && #[trigger] c.fields[i].path[m]
                    == toks[k].text
            &&& k == pos || !toks[k - 1].is_sign('.') ==> exists|i: int|
                0 <= i < c.fields.len() && (#[trigger] c.fields[i]).offset == toks[k].offset
                    && c.fields[i].path.len() > 0 && c.fields[i].path[0] == toks[k].text
            &&& k + 2 < end && toks[k + 1].is_sign('.') && toks[k + 2].kind == Kind::Ident ==> exists|
                i: int,
                m: int,
            |
                0 <= i < c.fields.len() && 0 <= m && m + 1 < c.fields[i].path.len()
                    && #[trigger] c.fields[i].path[m] == toks[k].text && c.fields[i].path[m + 1]
                    == toks[k + 2].text
        }),
{
    lemma_name_is_kept(toks, pos, 0, parser::scan_start(parser::offset_at(toks, pos)), k);
}

/// A part comes from a lexeme that can be a name, among those from `from` up to `to`.
spec fn comes_from(toks: Seq<lexer::TokenView>, from: int, to: int, part: Seq<char>) -> bool {
    exists|k: int| from <= k < to && parser::name_like(#[trigger] toks[k]) && toks[k].text == part
}

#[verifier::rlimit(40)]
proof fn lemma_parts_come_from_lexemes(
    toks: Seq<lexer::TokenView>,
    from: int,
    pos: int,
    depth: int,
    scan: parser::ScanView,
)
    requires
        0 <= from <= pos <= toks.len(),
        forall|i: int, m: int|
            0 <= i < scan.condition.fields.len() && 0 <= m < scan.condition.fields[i].path.len()
                ==> comes_from(toks, from, pos, #[trigger] scan.condition.fields[i].path[m]),
        forall|m: int| 0 <= m < scan.path.len() ==> comes_from(toks, from, pos, #[trigger] scan.path[m]),
    ensures
        ({
            let (c, end) = parser::condition_from(toks, pos, depth, scan);
            forall|i: int, m: int|
                0 <= i < c.fields.len() && 0 <= m < c.fields[i].path.len() ==> comes_from(
                    toks,
                    from,
                    end,
                    #[trigger] c.fields[i].path[m],
                )
        }),
    decreases toks.len() - pos,
{
    if pos < toks.len() && !(depth == 0 && parser::expression_ends(toks[pos])) {
        let after = parser::depth_after(toks[pos], depth);
        let next = scan.took(toks[pos], after == 0, parser::sign_at(toks, pos + 1, '.'));
        assert forall|part: Seq<char>| #[trigger] comes_from(toks, from, pos, part) implies comes_from(
            toks,
            from,
            pos + 1,
            part,
        ) by {
            let k = choose|k: int| from <= k < pos && parser::name_like(#[trigger] toks[k]) && toks[k].text == part;
            assert(parser::name_like(toks[k]));
        }
        if parser::name_like(toks[pos]) {
            assert(comes_from(toks, from, pos + 1, toks[pos].text));
        }
        assert forall|m: int| 0 <= m < next.path.len() implies comes_from(
            toks,
            from,
            pos + 1,
            #[trigger] next.path[m],
        ) by {
            if m < scan.path.len() && next.path[m] == scan.path[m] {
                assert(comes_from(toks, from, pos, scan.path[m]));
            }
        }
        let n = scan.condition.fields.len() as int;
        assert forall|i: int, m: int|
            0 <= i < next.condition.fields.len() && 0 <= m < next.condition.fields[i].path.len() implies comes_from(
            toks,
            from,
            pos + 1,
            #[trigger] next.condition.fields[i].path[m],
        ) by {
            if i < n {
                assert(next.condition.fields[i] == scan.condition.fields[i]);
                assert(comes_from(toks, from, pos, scan.condition.fields[i].path[m]));
            } else {
                assert(next.condition.fields[i].path == scan.path);
                assert(comes_from(toks, from, pos, scan.path[m]));
            }
        }
        lemma_parts_come_from_lexemes(toks, from, pos + 1, after, next);
        assert(parser::condition_from(toks, pos, depth, scan) == parser::condition_from(
            toks,
            pos + 1,
            after,
            next,
        ));
    } else {
        let n = scan.condition.fields.len() as int;
        let c = scan.flushed().condition;
        assert(parser::condition_from(toks, pos, depth, scan) == (c, pos));
        assert forall|i: int, m: int|
            0 <= i < c.fields.len() && 0 <= m < c.fields[i].path.len() implies comes_from(
            toks,
            from,
            pos,
            #[trigger] c.fields[i].path[m],
        ) by {
            if i < n {
                assert(c.fields[i] == scan.condition.fields[i]);
                assert(comes_from(toks, from, pos, scan.condition.fields[i].path[m]));
            } else {
                assert(c.fields[i].path == scan.path);
                assert(comes_from(toks, from, pos, scan.path[m]));
            }
        }
    }
}

/// Nothing is put into the fields of an expression that does not stand in it: every part of a
/// field is the text of one of its lexemes that can be a name.
pub proof fn law_fields_come_from_names(toks: Seq<lexer::TokenView>, pos: int, i: int, m: int)
    requires
        0 <= pos <= toks.len(),
        0 <= i < parser::condition_at(toks, pos).0.fields.len(),
        0 <= m < parser::condition_at(toks, pos).0.fields[i].path.len(),
    ensures
        exists|k: int|
            pos <= k < parser::condition_at(toks, pos).1 && parser::name_like(#[trigger] toks[k])
                && toks[k].text == parser::condition_at(toks, pos).0.fields[i].path[m],
{
    lemma_parts_come_from_lexemes(toks, pos, pos, 0, parser::scan_start(parser::offset_at(toks, pos)));
    assert(comes_from(
        toks,
        pos,
        parser::condition_at(toks, pos).1,
        parser::condition_at(toks, pos).0.fields[i].path[m],
    ));
}

/// How many commas stand outside further brackets among the lexemes from `pos` up to `k`.
pub open spec fn commas_between(toks: Seq<lexer::TokenView>, pos: int, k: int) -> nat
    decreases k - pos,
{
    if k <= pos {
        0
    } else {
        commas_between(toks, pos, k - 1) + if toks[k - 1].is_sign(',') && open_between(toks, pos, k - 1) == 0 {
            1nat
        } else {
            0nat
        }
    }
}

/// The same with `depth` brackets open before the first lexeme.
spec fn commas_from(toks: Seq<lexer::TokenView>, pos: int, k: int, depth: int) -> nat
    decreases k - pos,
{
    if k <= pos {
        0
    } else {
        commas_from(toks, pos, k - 1, depth) + if toks[k - 1].is_sign(',') && depth + open_between(
            toks,
            pos,
            k - 1,
        ) == 1 {
            1nat
        } else {
            0nat
        }
    }
}

proof fn lemma_commas_from(toks: Seq<lexer::TokenView>, pos: int, k: int, depth: int)
    requires
        0 <= pos < k <= toks.len(),
    ensures
        commas_from(toks, pos, k, depth) == commas_from(
            toks,
            pos + 1,
            k,
            parser::depth_after(toks[pos], depth),
        ) + if toks[pos].is_sign(',') && depth == 1 {
            1nat
        } else {
            0nat
        },
    decreases k - pos,
{
    if k > pos + 1 {
        lemma_commas_from(toks, pos, k - 1, depth);
        lemma_open_between(toks, pos, k - 1);
    } else {
        assert(open_between(toks, pos, pos) == 0);
        assert(commas_from(toks, pos, pos, depth) == 0);
        assert(commas_from(toks, pos + 1, k, parser::depth_after(toks[pos], depth)) == 0);
    }
}

proof fn lemma_params_count(
    toks: Seq<lexer::TokenView>,
    pos: int,
    depth: int,
    params: Seq<ast::ConditionView>,
    scan: parser::ScanView,
)
    requires
        0 <= pos <= toks.len(),
    ensures
        ({
            let (all, next) = parser::params_from(toks, pos, depth, params, scan);
            let end = bracket_end(toks, pos, depth);
            &&& pos <= end <= toks.len()
            &&& next == if end < toks.len() {
                end + 1
            } else {
                end
            }
            &&& params.len() <= all.len()
            &&& all.len() == params.len() + commas_from(toks, pos, end, depth) || all.len() == params.len()
                + commas_from(toks, pos, end, depth) + 1
            &&& params.len() + commas_from(toks, pos, end, depth) > 0 || !scan.condition.is_empty || end > pos
                ==> all.len() == params.len() + commas_from(toks, pos, end, depth) + 1
            &&& params.len() == 0 && scan.condition.is_empty && end == pos ==> all.len() == 0
        }),
    decreases toks.len() - pos,
{
    if pos < toks.len() && !(depth == 1 && toks[pos].is_sign(')')) {
        let end = bracket_end(toks, pos, depth);
        let after = parser::depth_after(toks[pos], depth);
        if depth == 1 && toks[pos].is_sign(',') {
            let s = scan.flushed();
            lemma_params_count(
                toks,
                pos + 1,
                depth,
                params.push(s.condition),
                parser::ScanView {
                    condition: parser::empty_condition(toks[pos].offset),
                    after_dot: false,
                    ..s
                },
            );
            lemma_commas_from(toks, pos, end, depth);
        } else {
            let next = scan.took(toks[pos], after == 1, parser::sign_at(toks, pos + 1, '.'));
            lemma_params_count(toks, pos + 1, after, params, next);
            lemma_commas_from(toks, pos, end, depth);
            assert(!next.condition.is_empty);
        }
    }
}

/// The bracket that closes the parameters, or the end of the lexemes.
spec fn bracket_end(toks: Seq<lexer::TokenView>, pos: int, depth: int) -> int
    decreases toks.len() - pos,
{
    if pos < 0 || pos >= toks.len() || (depth == 1 && toks[pos].is_sign(')')) {
        pos
    } else {
        bracket_end(toks, pos + 1, parser::depth_after(toks[pos], depth))
    }
}

proof fn lemma_commas_same(toks: Seq<lexer::TokenView>, pos: int, k: int)
    ensures
        commas_from(toks, pos, k, 1) == commas_between(toks, pos, k),
    decreases k - pos,
{
    if k > pos {
        lemma_commas_same(toks, pos, k - 1);
    }
}

/// A table with brackets has a parameter more than commas stand between them outside further
/// brackets, so that an omitted parameter keeps its place; with nothing between the brackets it has
/// none.
pub proof fn law_parameters_are_counted_by_commas(toks: Seq<lexer::TokenView>, pos: int, close: int)
    requires
        0 <= pos < close < toks.len(),
        toks[pos].is_sign('('),
        toks[close].is_sign(')'),
        open_between(toks, pos + 1, close) == 0,
        forall|k: int| pos < k < close ==> !((#[trigger] toks[k]).is_sign(')') && open_between(toks, pos + 1, k) == 0),
    ensures
        close == pos + 1 ==> parser::params_at(toks, pos).0.len() == 0,
        close > pos + 1 ==> parser::params_at(toks, pos).0.len() == commas_between(toks, pos + 1, close) + 1,
        parser::params_at(toks, pos).1 == close + 1,
{
    lemma_params_count(toks, pos + 1, 1, seq![], parser::scan_start(parser::offset_at(toks, pos + 1)));
    lemma_end_is(toks, pos + 1, 1, close);
    lemma_commas_same(toks, pos + 1, close);
}

proof fn lemma_end_is(toks: Seq<lexer::TokenView>, pos: int, depth: int, close: int)
    requires
        0 <= pos <= close < toks.len(),
        toks[close].is_sign(')'),
        depth + open_between(toks, pos, close) == 1,
        forall|k: int|
            pos <= k < close ==> !((#[trigger] toks[k]).is_sign(')') && depth + open_between(toks, pos, k) == 1),
    ensures
        bracket_end(toks, pos, depth) == close,
    decreases close - pos,
{
    if pos < close {
        assert(open_between(toks, pos, pos) == 0);
        assert(!(toks[pos].is_sign(')') && depth + open_between(toks, pos, pos) == 1));
        let after = parser::depth_after(toks[pos], depth);
        lemma_open_between(toks, pos, close);
        assert forall|k: int| pos + 1 <= k < close implies !((#[trigger] toks[k]).is_sign(')') && after
            + open_between(toks, pos + 1, k) == 1) by {
            lemma_open_between(toks, pos, k);
        }
        lemma_end_is(toks, pos + 1, after, close);
    }
}

/// The kinds of objects that a query can read, in Russian and in English.
pub open spec fn kinds_in_two_languages() -> Seq<(Seq<char>, Seq<char>)> {
    seq![
        ("СПРАВОЧНИК"@, "CATALOG"@),
        ("ДОКУМЕНТ"@, "DOCUMENT"@),
        ("ЖУРНАЛДОКУМЕНТОВ"@, "DOCUMENTJOURNAL"@),
        ("КОНСТАНТА"@, "CONSTANT"@),
        ("ПЕРЕЧИСЛЕНИЕ"@, "ENUM"@),
        ("ПЛАНВИДОВХАРАКТЕРИСТИК"@, "CHARTOFCHARACTERISTICTYPES"@),
        ("ПЛАНСЧЕТОВ"@, "CHARTOFACCOUNTS"@),
        ("ПЛАНВИДОВРАСЧЕТА"@, "CHARTOFCALCULATIONTYPES"@),
        ("РЕГИСТРСВЕДЕНИЙ"@, "INFORMATIONREGISTER"@),
        ("РЕГИСТРНАКОПЛЕНИЯ"@, "ACCUMULATIONREGISTER"@),
        ("РЕГИСТРБУХГАЛТЕРИИ"@, "ACCOUNTINGREGISTER"@),
        ("РЕГИСТРРАСЧЕТА"@, "CALCULATIONREGISTER"@),
        ("БИЗНЕСПРОЦЕСС"@, "BUSINESSPROCESS"@),
        ("ЗАДАЧА"@, "TASK"@),
        ("ПЛАНОБМЕНА"@, "EXCHANGEPLAN"@),
        ("ПОСЛЕДОВАТЕЛЬНОСТЬ"@, "SEQUENCE"@),
        ("КРИТЕРИЙОТБОРА"@, "FILTERCRITERION"@),
        ("ВНЕШНИЙИСТОЧНИКДАННЫХ"@, "EXTERNALDATASOURCE"@),
    ]
}

/// A kind of object is one in both languages, and no other word is.
pub proof fn law_kinds_are_known_in_both_languages(i: int, word: Seq<char>)
    requires
        0 <= i < kinds_in_two_languages().len(),
    ensures
        parser::meta_kind(kinds_in_two_languages()[i].0) && parser::meta_kind(kinds_in_two_languages()[i].1),
        parser::meta_kind(word) ==> exists|k: int|
            0 <= k < kinds_in_two_languages().len() && ((#[trigger] kinds_in_two_languages()[k]).0 == word
                || kinds_in_two_languages()[k].1 == word),
{
    let all = kinds_in_two_languages();
    assert(all.len() == 18);
    if parser::meta_kind(word) {
        assert(all[0] == ("СПРАВОЧНИК"@, "CATALOG"@));
        assert(all[1] == ("ДОКУМЕНТ"@, "DOCUMENT"@));
        assert(all[2] == ("ЖУРНАЛДОКУМЕНТОВ"@, "DOCUMENTJOURNAL"@));
        assert(all[3] == ("КОНСТАНТА"@, "CONSTANT"@));
        assert(all[4] == ("ПЕРЕЧИСЛЕНИЕ"@, "ENUM"@));
        assert(all[5] == ("ПЛАНВИДОВХАРАКТЕРИСТИК"@, "CHARTOFCHARACTERISTICTYPES"@));
        assert(all[6] == ("ПЛАНСЧЕТОВ"@, "CHARTOFACCOUNTS"@));
        assert(all[7] == ("ПЛАНВИДОВРАСЧЕТА"@, "CHARTOFCALCULATIONTYPES"@));
        assert(all[8] == ("РЕГИСТРСВЕДЕНИЙ"@, "INFORMATIONREGISTER"@));
        assert(all[9] == ("РЕГИСТРНАКОПЛЕНИЯ"@, "ACCUMULATIONREGISTER"@));
        assert(all[10] == ("РЕГИСТРБУХГАЛТЕРИИ"@, "ACCOUNTINGREGISTER"@));
        assert(all[11] == ("РЕГИСТРРАСЧЕТА"@, "CALCULATIONREGISTER"@));
        assert(all[12] == ("БИЗНЕСПРОЦЕСС"@, "BUSINESSPROCESS"@));
        assert(all[13] == ("ЗАДАЧА"@, "TASK"@));
        assert(all[14] == ("ПЛАНОБМЕНА"@, "EXCHANGEPLAN"@));
        assert(all[15] == ("ПОСЛЕДОВАТЕЛЬНОСТЬ"@, "SEQUENCE"@));
        assert(all[16] == ("КРИТЕРИЙОТБОРА"@, "FILTERCRITERION"@));
        assert(all[17] == ("ВНЕШНИЙИСТОЧНИКДАННЫХ"@, "EXTERNALDATASOURCE"@));
    }
}

/// A keyword can be a name unless it holds the parts of a query together: a word that begins a
/// section, a word of a join, or AS. The words that stand at the end of a query alone can be names.
pub proof fn law_words_of_sections_are_no_names(kw: Kw, word: Seq<char>, offset: nat)
    ensures
        parser::structural_keyword(kw) <==> (parser::section_keyword(kw) && kw != Kw::ForUpdate && kw
            != Kw::AutoOrder) || kw == Kw::Outer || kw == Kw::On || kw == Kw::As,
        parser::structural_keyword(kw) <==> !parser::name_like(
            (lexer::TokenView { kind: Kind::Keyword(kw), text: word, offset }),
        ),
        parser::name_like((lexer::TokenView { kind: Kind::Ident, text: word, offset })),
{
}

proof fn lemma_past_ignored_stops(toks: Seq<lexer::TokenView>, pos: int)
    requires
        0 <= pos <= toks.len(),
    ensures
        pos <= parser::past_ignored(toks, pos) <= toks.len(),
        !parser::ignored_section(toks, parser::past_ignored(toks, pos)),
    decreases toks.len() - pos,
{
    if parser::ignored_section(toks, pos) {
        parser::lemma_expression_end(toks, pos + 1, 0);
        lemma_past_ignored_stops(toks, parser::expression_end(toks, pos + 1, 0));
    }
}

/// Sections that the rules do not look at are passed over, however many there are: where the
/// fields of an index are looked for, no grouping, no condition on groups, no order and no totals
/// stand, and a query without such sections is read on at once.
pub proof fn law_other_sections_are_passed_over(toks: Seq<lexer::TokenView>, pos: int)
    requires
        0 <= pos <= toks.len(),
    ensures
        ({
            let at = parser::past_ignored(toks, pos);
            &&& pos <= at <= toks.len()
            &&& !parser::kw_at(toks, at, Kw::GroupBy) && !parser::kw_at(toks, at, Kw::Having)
                && !parser::kw_at(toks, at, Kw::OrderBy) && !parser::kw_at(toks, at, Kw::Totals)
                && !parser::kw_at(toks, at, Kw::ForUpdate) && !parser::kw_at(toks, at, Kw::AutoOrder)
            &&& parser::kw_at(toks, pos, Kw::IndexBy) || parser::kw_at(toks, pos, Kw::Union) || parser::sign_at(
                toks,
                pos,
                ';',
            ) || parser::sign_at(toks, pos, ')') || pos == toks.len() ==> at == pos
        }),
{
    lemma_past_ignored_stops(toks, pos);
}

/// The fields of the index of a query are those behind the sections that are passed over, and the
/// query ends behind them, or behind the words of a union that follow.
pub proof fn law_index_and_end_of_a_query(toks: Seq<lexer::TokenView>, pos: int, depth: int, r: int)
    requires
        0 <= pos < toks.len(),
        toks[pos].is_kw(Kw::Select),
        ({
            let p = parser::select_at(toks, pos + 1).1;
            !parser::kw_at(toks, p, Kw::Into) && (parser::from_at(toks, p, depth) matches Ok((_, _, end)) && end == r)
        }),
    ensures
        parser::query_at(toks, pos, depth) matches Ok((q, end)) ==> {
            let behind = if parser::kw_at(toks, r, Kw::Where) {
                parser::condition_at(toks, r + 1).1
            } else {
                r
            };
            parser::index_at(toks, parser::past_ignored(toks, behind)) matches Ok((names, last)) && q.index_fields
                == names && (parser::kw_at(toks, last, Kw::Union) && parser::kw_at(toks, last + 1, Kw::All)
                ==> end == last + 2) && (parser::kw_at(toks, last, Kw::Union) && !parser::kw_at(
                toks,
                last + 1,
                Kw::All,
            ) ==> end == last + 1) && (!parser::kw_at(toks, last, Kw::Union) ==> end == last)
        },
{
}

/// Queries of a subquery are read one by one as long as a selection follows, and every one that
/// was read stays.
pub proof fn law_selections_are_read_one_by_one(
    toks: Seq<lexer::TokenView>,
    pos: int,
    depth: int,
    queries: Seq<ast::QueryView>,
)
    requires
        0 <= pos <= toks.len(),
    ensures
        parser::selections_at(toks, pos, depth, queries) matches Ok((all, end)) ==> {
            &&& queries.len() <= all.len()
            &&& forall|k: int| 0 <= k < queries.len() ==> all[k] == queries[k]
            &&& !parser::kw_at(toks, end, Kw::Select)
            &&& parser::kw_at(toks, pos, Kw::Select) ==> queries.len() < all.len() && (parser::query_at(
                toks,
                pos,
                depth,
            ) matches Ok((q, _)) && all[queries.len() as int] == q)
            &&& !parser::kw_at(toks, pos, Kw::Select) ==> all == queries && end == pos
        },
    decreases toks.len() - pos,
{
    if parser::kw_at(toks, pos, Kw::Select) {
        if let Ok((query, next)) = parser::query_at(toks, pos, depth) {
            if parser::advances(toks, pos, next) {
                let more = queries.push(query);
                law_selections_are_read_one_by_one(toks, next, depth, more);
                if let Ok((all, end)) = parser::selections_at(toks, next, depth, more) {
                    assert(all[queries.len() as int] == more[queries.len() as int]);
                    assert forall|k: int| 0 <= k < queries.len() implies all[k] == queries[k] by {
                        assert(all[k] == more[k]);
                    }
                }
            }
        }
    }
}

#[verifier::rlimit(40)]
proof fn lemma_params_stay(
    toks: Seq<lexer::TokenView>,
    pos: int,
    depth: int,
    params: Seq<ast::ConditionView>,
    scan: parser::ScanView,
)
    requires
        0 <= pos <= toks.len(),
        scan.path.len() > 0 ==> !scan.condition.is_empty,
    ensures
        ({
            let all = parser::params_from(toks, pos, depth, params, scan).0;
            let n = params.len() as int;
            let m = scan.condition.fields.len() as int;
            &&& n <= all.len()
            &&& forall|k: int| 0 <= k < n ==> all[k] == params[k]
            &&& !scan.condition.is_empty ==> n < all.len() && m <= all[n].fields.len() && (forall|k: int|
                0 <= k < m ==> all[n].fields[k] == scan.condition.fields[k]) && (scan.path.len() > 0 ==> m
                < all[n].fields.len() && all[n].fields[m].offset == scan.path_offset && scan.path.len()
                <= all[n].fields[m].path.len() && forall|x: int|
                0 <= x < scan.path.len() ==> all[n].fields[m].path[x] == scan.path[x])
        }),
    decreases toks.len() - pos,
{
    let n = params.len() as int;
    let m = scan.condition.fields.len() as int;
    if pos < toks.len() && !(depth == 1 && toks[pos].is_sign(')')) {
        if depth == 1 && toks[pos].is_sign(',') {
            let s = scan.flushed();
            let next = parser::ScanView {
                condition: parser::empty_condition(toks[pos].offset),
                after_dot: false,
                ..s
            };
            let more = params.push(s.condition);
            assert(s.path.len() == 0);
            lemma_params_stay(toks, pos + 1, depth, more, next);
            let all = parser::params_from(toks, pos + 1, depth, more, next).0;
            assert(all[n] == more[n]);
            assert forall|k: int| 0 <= k < n implies all[k] == params[k] by {
                assert(all[k] == more[k]);
            }
        } else {
            let after = parser::depth_after(toks[pos], depth);
            let next = scan.took(toks[pos], after == 1, parser::sign_at(toks, pos + 1, '.'));
            assert(!next.condition.is_empty);
            lemma_params_stay(toks, pos + 1, after, params, next);
            let all = parser::params_from(toks, pos + 1, after, params, next).0;
            assert(all == parser::params_from(toks, pos, depth, params, scan).0);
            assert forall|k: int| 0 <= k < m implies all[n].fields[k] == scan.condition.fields[k] by {
                assert(all[n].fields[k] == next.condition.fields[k]);
            }
            if scan.path.len() > 0 {
                if next.condition.fields.len() > m {
                    assert(all[n].fields[m] == next.condition.fields[m]);
                } else {
                    assert forall|x: int| 0 <= x < scan.path.len() implies all[n].fields[m].path[x]
                        == scan.path[x] by {
                        assert(all[n].fields[m].path[x] == next.path[x]);
                    }
                }
            }
        }
    }
}

/// A word is a part of a field of an expression.
pub open spec fn named_in(c: ast::ConditionView, word: Seq<char>) -> bool {
    exists|i: int, m: int|
        0 <= i < c.fields.len() && 0 <= m < c.fields[i].path.len() && #[trigger] c.fields[i].path[m] == word
}

#[verifier::rlimit(40)]
proof fn lemma_name_of_a_parameter(
    toks: Seq<lexer::TokenView>,
    pos: int,
    depth: int,
    params: Seq<ast::ConditionView>,
    scan: parser::ScanView,
    k: int,
)
    requires
        0 <= pos <= k < bracket_end(toks, pos, depth),
        pos <= toks.len(),
        k < toks.len(),
        toks[k].kind == Kind::Ident,
        scan.path.len() > 0 ==> !scan.condition.is_empty,
    ensures
        ({
            let all = parser::params_from(toks, pos, depth, params, scan).0;
            let p = params.len() + commas_from(toks, pos, k, depth);
            p < all.len() && named_in(all[p as int], toks[k].text)
        }),
    decreases toks.len() - pos,
{
    let after = parser::depth_after(toks[pos], depth);
    if k > pos {
        lemma_commas_from(toks, pos, k, depth);
        if depth == 1 && toks[pos].is_sign(',') {
            let s = scan.flushed();
            let next = parser::ScanView {
                condition: parser::empty_condition(toks[pos].offset),
                after_dot: false,
                ..s
            };
            assert(s.path.len() == 0);
            assert(after == depth);
            let more = params.push(s.condition);
            lemma_name_of_a_parameter(toks, pos + 1, depth, more, next, k);
            assert(parser::params_from(toks, pos, depth, params, scan) == parser::params_from(
                toks,
                pos + 1,
                depth,
                more,
                next,
            ));
            assert(more.len() + commas_from(toks, pos + 1, k, depth) == params.len() + commas_from(
                toks,
                pos,
                k,
                depth,
            ));
        } else {
            let next = scan.took(toks[pos], after == 1, parser::sign_at(toks, pos + 1, '.'));
            assert(!next.condition.is_empty);
            lemma_name_of_a_parameter(toks, pos + 1, after, params, next, k);
            assert(parser::params_from(toks, pos, depth, params, scan) == parser::params_from(
                toks,
                pos + 1,
                after,
                params,
                next,
            ));
        }
    } else {
        assert(!toks[pos].is_sign(')') && !toks[pos].is_sign(','));
        let next = scan.took(toks[pos], after == 1, parser::sign_at(toks, pos + 1, '.'));
        assert(!next.condition.is_empty);
        lemma_params_stay(toks, pos + 1, after, params, next);
        let all = parser::params_from(toks, pos + 1, after, params, next).0;
        assert(all == parser::params_from(toks, pos, depth, params, scan).0);
        assert(commas_from(toks, pos, pos, depth) == 0);
        let n = params.len() as int;
        let i = next.condition.fields.len() as int;
        let m = next.path.len() - 1;
        assert(next.path[m] == toks[k].text);
        assert(all[n].fields[i].path[m] == toks[k].text);
        assert(named_in(all[n], toks[k].text));
    }
}

/// No name between the brackets of a table is dropped, and each one stays in its parameter: a
/// plain word is a part of a field of the parameter that as many commas precede as precede the
/// word.
pub proof fn law_names_of_parameters_are_kept(toks: Seq<lexer::TokenView>, pos: int, close: int, k: int)
    requires
        0 <= pos < k < close < toks.len(),
        toks[pos].is_sign('('),
        toks[close].is_sign(')'),
        open_between(toks, pos + 1, close) == 0,
        forall|x: int| pos < x < close ==> !((#[trigger] toks[x]).is_sign(')') && open_between(toks, pos + 1, x) == 0),
        toks[k].kind == Kind::Ident,
    ensures
        ({
            let params = parser::params_at(toks, pos).0;
            let p = commas_between(toks, pos + 1, k) as int;
            p < params.len() && named_in(params[p], toks[k].text)
        }),
{
    lemma_end_is(toks, pos + 1, 1, close);
    lemma_commas_same(toks, pos + 1, k);
    lemma_name_of_a_parameter(
        toks,
        pos + 1,
        1,
        seq![],
        parser::scan_start(parser::offset_at(toks, pos + 1)),
        k,
    );
}

proof fn lemma_mentioned(params: Seq<ast::ConditionView>, i: int, m: int)
    requires
        0 <= i < params.len(),
        0 <= m < params[i].fields.len(),
    ensures
        parser::mentioned_names(params).contains(
            ast::NamedView {
                name: text::joined(params[i].fields[m].path, "."@),
                offset: params[i].fields[m].offset,
            },
        ),
    decreases params.len(),
{
    let front = parser::mentioned_names(params.drop_last());
    let last = parser::field_names(params.last().fields);
    let all = parser::mentioned_names(params);
    let x = ast::NamedView {
        name: text::joined(params[i].fields[m].path, "."@),
        offset: params[i].fields[m].offset,
    };
    if i < params.len() - 1 {
        lemma_mentioned(params.drop_last(), i, m);
        assert(params.drop_last()[i] == params[i]);
        let k = choose|k: int| 0 <= k < front.len() && front[k] == x;
        assert(all[k] == x);
    } else {
        assert(last[m] == x);
        assert(all[front.len() + m] == x);
    }
}

/// An index by sets has every field of every set, by its whole path and at its place.
pub proof fn law_index_by_sets_has_all_fields(toks: Seq<lexer::TokenView>, pos: int, i: int, m: int)
    requires
        parser::kw_at(toks, pos, Kw::IndexBy),
        parser::by_sets(toks, pos + 1),
        0 <= i < parser::params_at(toks, pos + 2).0.len(),
        0 <= m < parser::params_at(toks, pos + 2).0[i].fields.len(),
    ensures
        parser::index_at(toks, pos) matches Ok((names, _)) && names.contains(
            ast::NamedView {
                name: text::joined(parser::params_at(toks, pos + 2).0[i].fields[m].path, "."@),
                offset: parser::params_at(toks, pos + 2).0[i].fields[m].offset,
            },
        ),
{
    lemma_mentioned(parser::params_at(toks, pos + 2).0, i, m);
}

} // verus!
