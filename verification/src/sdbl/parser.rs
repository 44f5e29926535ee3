//! Recursive descent over the query language.
//!
//! A query that is not understood gives an error, never half of a tree: the rules stay
//! silent about such a query.
use crate::sdbl::ast::{
    Condition, Field, Join, JoinKind, MetaTable, Named, Package, Query, Source, Table,
};
use crate::sdbl::ast;
use crate::sdbl::lexer;
use crate::sdbl::lexer::{copy_token, tokenize, Kind, Kw, Token};
use crate::text;
use crate::text::{join, same_text, to_upper};
use vstd::prelude::*;

pub mod joined_texts;
pub mod tree_laws;

verus! {

/// Why a text was not understood, and at which byte.
#[derive(Debug, Clone, PartialEq, Eq)]
pub struct ParseError {
    pub message: String,
    pub offset: usize,
}

/// The contents of a [`ParseError`].
#[verifier::ext_equal]
pub struct ErrorView {
    pub message: Seq<char>,
    pub offset: nat,
}

impl View for ParseError {
    type V = ErrorView;

    open spec fn view(&self) -> ErrorView {
        ErrorView { message: self.message@, offset: self.offset as nat }
    }
}

/// How deep subqueries may stand inside each other.
pub const MAX_DEPTH: usize = 32;

/// The kinds of objects that a query can read from, in upper case.
pub open spec fn meta_kind(up: Seq<char>) -> bool {
    ||| up == "СПРАВОЧНИК"@
    ||| up == "CATALOG"@
    ||| up == "ДОКУМЕНТ"@
    ||| up == "DOCUMENT"@
    ||| up == "ЖУРНАЛДОКУМЕНТОВ"@
    ||| up == "DOCUMENTJOURNAL"@
    ||| up == "КОНСТАНТА"@
    ||| up == "CONSTANT"@
    ||| up == "ПЕРЕЧИСЛЕНИЕ"@
    ||| up == "ENUM"@
    ||| up == "ПЛАНВИДОВХАРАКТЕРИСТИК"@
    ||| up == "CHARTOFCHARACTERISTICTYPES"@
    ||| up == "ПЛАНСЧЕТОВ"@
    ||| up == "CHARTOFACCOUNTS"@
    ||| up == "ПЛАНВИДОВРАСЧЕТА"@
    ||| up == "CHARTOFCALCULATIONTYPES"@
    ||| up == "РЕГИСТРСВЕДЕНИЙ"@
    ||| up == "INFORMATIONREGISTER"@
    ||| up == "РЕГИСТРНАКОПЛЕНИЯ"@
    ||| up == "ACCUMULATIONREGISTER"@
    ||| up == "РЕГИСТРБУХГАЛТЕРИИ"@
    ||| up == "ACCOUNTINGREGISTER"@
    ||| up == "РЕГИСТРРАСЧЕТА"@
    ||| up == "CALCULATIONREGISTER"@
    ||| up == "БИЗНЕСПРОЦЕСС"@
    ||| up == "BUSINESSPROCESS"@
    ||| up == "ЗАДАЧА"@
    ||| up == "TASK"@
    ||| up == "ПЛАНОБМЕНА"@
    ||| up == "EXCHANGEPLAN"@
    ||| up == "ПОСЛЕДОВАТЕЛЬНОСТЬ"@
    ||| up == "SEQUENCE"@
    ||| up == "КРИТЕРИЙОТБОРА"@
    ||| up == "FILTERCRITERION"@
    ||| up == "ВНЕШНИЙИСТОЧНИКДАННЫХ"@
    ||| up == "EXTERNALDATASOURCE"@
}

fn is_meta_kind(word: &str) -> (r: bool)
    ensures
        r == meta_kind(text::uppercase(word@)),
{
    let up = to_upper(word);
    let w = up.as_str();
    same_text(w, "СПРАВОЧНИК")
        || same_text(w, "CATALOG")
        || same_text(w, "ДОКУМЕНТ")
        || same_text(w, "DOCUMENT")
        || same_text(w, "ЖУРНАЛДОКУМЕНТОВ")
        || same_text(w, "DOCUMENTJOURNAL")
        || same_text(w, "КОНСТАНТА")
        || same_text(w, "CONSTANT")
        || same_text(w, "ПЕРЕЧИСЛЕНИЕ")
        || same_text(w, "ENUM")
        || same_text(w, "ПЛАНВИДОВХАРАКТЕРИСТИК")
        || same_text(w, "CHARTOFCHARACTERISTICTYPES")
        || same_text(w, "ПЛАНСЧЕТОВ")
        || same_text(w, "CHARTOFACCOUNTS")
        || same_text(w, "ПЛАНВИДОВРАСЧЕТА")
        || same_text(w, "CHARTOFCALCULATIONTYPES")
        || same_text(w, "РЕГИСТРСВЕДЕНИЙ")
        || same_text(w, "INFORMATIONREGISTER")
        || same_text(w, "РЕГИСТРНАКОПЛЕНИЯ")
        || same_text(w, "ACCUMULATIONREGISTER")
        || same_text(w, "РЕГИСТРБУХГАЛТЕРИИ")
        || same_text(w, "ACCOUNTINGREGISTER")
        || same_text(w, "РЕГИСТРРАСЧЕТА")
        || same_text(w, "CALCULATIONREGISTER")
        || same_text(w, "БИЗНЕСПРОЦЕСС")
        || same_text(w, "BUSINESSPROCESS")
        || same_text(w, "ЗАДАЧА")
        || same_text(w, "TASK")
        || same_text(w, "ПЛАНОБМЕНА")
        || same_text(w, "EXCHANGEPLAN")
        || same_text(w, "ПОСЛЕДОВАТЕЛЬНОСТЬ")
        || same_text(w, "SEQUENCE")
        || same_text(w, "КРИТЕРИЙОТБОРА")
        || same_text(w, "FILTERCRITERION")
        || same_text(w, "ВНЕШНИЙИСТОЧНИКДАННЫХ")
        || same_text(w, "EXTERNALDATASOURCE")
}

/// Keywords that start a section of a query: an expression ends before them.
///
/// `ON` is not among them: in `TOTALS ... ON ...` it starts no section.
pub open spec fn section_keyword(kw: Kw) -> bool {
    matches!(kw, Kw::Select
        | Kw::Into
        | Kw::From
        | Kw::Where
        | Kw::GroupBy
        | Kw::Having
        | Kw::OrderBy
        | Kw::Totals
        | Kw::IndexBy
        | Kw::Union
        | Kw::Join
        | Kw::Left
        | Kw::Right
        | Kw::Full
        | Kw::Inner
        | Kw::ForUpdate
        | Kw::AutoOrder)
}

fn is_section(kw: Kw) -> (r: bool)
    ensures
        r == section_keyword(kw),
{
    matches!(kw, Kw::Select
        | Kw::Into
        | Kw::From
        | Kw::Where
        | Kw::GroupBy
        | Kw::Having
        | Kw::OrderBy
        | Kw::Totals
        | Kw::IndexBy
        | Kw::Union
        | Kw::Join
        | Kw::Left
        | Kw::Right
        | Kw::Full
        | Kw::Inner
        | Kw::ForUpdate
        | Kw::AutoOrder)
}

/// Keywords that can never be a name: they make up the structure of a query.
pub open spec fn structural_keyword(kw: Kw) -> bool {
    matches!(kw, Kw::Select
        | Kw::From
        | Kw::Into
        | Kw::Where
        | Kw::GroupBy
        | Kw::Having
        | Kw::OrderBy
        | Kw::Totals
        | Kw::IndexBy
        | Kw::Union
        | Kw::Join
        | Kw::Left
        | Kw::Right
        | Kw::Full
        | Kw::Inner
        | Kw::Outer
        | Kw::On
        | Kw::As)
}

fn is_structural(kw: Kw) -> (r: bool)
    ensures
        r == structural_keyword(kw),
{
    matches!(kw, Kw::Select
        | Kw::From
        | Kw::Into
        | Kw::Where
        | Kw::GroupBy
        | Kw::Having
        | Kw::OrderBy
        | Kw::Totals
        | Kw::IndexBy
        | Kw::Union
        | Kw::Join
        | Kw::Left
        | Kw::Right
        | Kw::Full
        | Kw::Inner
        | Kw::Outer
        | Kw::On
        | Kw::As)
}

/// Whether a lexeme can stand as a name: a word, or a keyword that is not structural.
pub open spec fn name_like(t: lexer::TokenView) -> bool {
    match t.kind {
        Kind::Ident => true,
        Kind::Keyword(kw) => !structural_keyword(kw),
        _ => false,
    }
}

fn is_name_like(token: &Token) -> (r: bool)
    ensures
        r == name_like(token@),
{
    match token.kind {
        Kind::Ident => true,
        Kind::Keyword(kw) => !is_structural(kw),
        _ => false,
    }
}

/// The lexeme at `pos` is the keyword `kw`.
pub open spec fn kw_at(toks: Seq<lexer::TokenView>, pos: int, kw: Kw) -> bool {
    0 <= pos < toks.len() && toks[pos].is_kw(kw)
}

/// The lexeme at `pos` is the sign `c`.
pub open spec fn sign_at(toks: Seq<lexer::TokenView>, pos: int, c: char) -> bool {
    0 <= pos < toks.len() && toks[pos].is_sign(c)
}

/// The position behind the keyword `kw`, where it stands at `pos`.
pub open spec fn past_kw(toks: Seq<lexer::TokenView>, pos: int, kw: Kw) -> int {
    if kw_at(toks, pos, kw) {
        pos + 1
    } else {
        pos
    }
}

/// The byte of the lexeme at `pos`; 0 at the end of the text.
pub open spec fn offset_at(toks: Seq<lexer::TokenView>, pos: int) -> nat {
    if 0 <= pos < toks.len() {
        toks[pos].offset
    } else {
        0
    }
}

/// A failure at `pos`.
pub open spec fn failure(toks: Seq<lexer::TokenView>, pos: int, message: Seq<char>) -> ErrorView {
    ErrorView { message, offset: offset_at(toks, pos) }
}

/// A name at `pos`, or a placeholder for one that is filled in at run time (`%1`).
pub open spec fn ident_at(toks: Seq<lexer::TokenView>, pos: int) -> Result<(Seq<char>, int), ErrorView> {
    if sign_at(toks, pos, '%') && pos + 1 < toks.len() && toks[pos + 1].kind == Kind::Number {
        Ok(("%"@ + toks[pos + 1].text, pos + 2))
    } else if 0 <= pos < toks.len() && toks[pos].kind == Kind::Ident {
        Ok((toks[pos].text, pos + 1))
    } else {
        Err(failure(toks, pos, "ожидалось имя"@))
    }
}

/// A name at `pos` with its byte.
pub open spec fn named_at(toks: Seq<lexer::TokenView>, pos: int) -> Result<(ast::NamedView, int), ErrorView> {
    match ident_at(toks, pos) {
        Ok((name, next)) => Ok((ast::NamedView { name, offset: offset_at(toks, pos) }, next)),
        Err(e) => Err(e),
    }
}

/// The parts of a dotted name, of which `parts` have been read.
pub open spec fn parts_at(
    toks: Seq<lexer::TokenView>,
    pos: int,
    parts: Seq<Seq<char>>,
) -> Result<(Seq<Seq<char>>, int), ErrorView>
    decreases toks.len() - pos,
{
    if sign_at(toks, pos, '.') {
        match ident_at(toks, pos + 1) {
            Ok((part, next)) => parts_at(toks, next, parts.push(part)),
            Err(e) => Err(e),
        }
    } else {
        Ok((parts, pos))
    }
}

/// A dotted name at `pos`, as its parts.
pub open spec fn path_at(toks: Seq<lexer::TokenView>, pos: int) -> Result<(Seq<Seq<char>>, int), ErrorView> {
    match ident_at(toks, pos) {
        Ok((part, next)) => parts_at(toks, next, seq![part]),
        Err(e) => Err(e),
    }
}

/// A dotted name at `pos`, as one name.
pub open spec fn path_name_at(toks: Seq<lexer::TokenView>, pos: int) -> Result<(ast::NamedView, int), ErrorView> {
    match path_at(toks, pos) {
        Ok((parts, next)) => Ok(
            (ast::NamedView { name: text::joined(parts, "."@), offset: offset_at(toks, pos) }, next),
        ),
        Err(e) => Err(e),
    }
}

/// The alias of a source at `pos`: `AS name`, or a word that follows at once. Behind `AS`
/// the name may be a keyword that is not structural.
pub open spec fn alias_at(toks: Seq<lexer::TokenView>, pos: int) -> (Option<ast::NamedView>, int) {
    if kw_at(toks, pos, Kw::As) {
        if pos + 1 < toks.len() && name_like(toks[pos + 1]) {
            (Some(ast::NamedView { name: toks[pos + 1].text, offset: toks[pos + 1].offset }), pos + 2)
        } else {
            (None, pos + 1)
        }
    } else if 0 <= pos < toks.len() && toks[pos].kind == Kind::Ident {
        (Some(ast::NamedView { name: toks[pos].text, offset: toks[pos].offset }), pos + 1)
    } else {
        (None, pos)
    }
}

/// An expression that is being read: the part of it that is known, and the dotted name
/// that may still grow.
#[verifier::ext_equal]
pub struct ScanView {
    pub condition: ast::ConditionView,
    pub path: Seq<Seq<char>>,
    pub path_offset: nat,
    pub after_dot: bool,
}

/// An expression of which nothing has been read.
pub open spec fn empty_condition(offset: nat) -> ast::ConditionView {
    ast::ConditionView { offset, has_or: false, has_top_level_or: false, fields: seq![], is_empty: true }
}

/// The start of an expression at the byte `offset`.
pub open spec fn scan_start(offset: nat) -> ScanView {
    ScanView { condition: empty_condition(offset), path: seq![], path_offset: 0, after_dot: false }
}

impl ScanView {
    /// The dotted name is complete: it becomes a field of the expression.
    pub open spec fn flushed(self) -> ScanView {
        if self.path.len() == 0 {
            self
        } else {
            ScanView {
                condition: ast::ConditionView {
                    fields: self.condition.fields.push(
                        ast::FieldView { path: self.path, offset: self.path_offset },
                    ),
                    ..self.condition
                },
                path: seq![],
                ..self
            }
        }
    }

    /// The lexeme is a name here: a word, or a keyword that can be a name beside a dot.
    pub open spec fn reads_name(self, t: lexer::TokenView, next_is_dot: bool) -> bool {
        t.kind == Kind::Ident || (name_like(t) && (self.after_dot || next_is_dot))
    }

    /// A lexeme is read: a name starts or continues a dotted name, a dot behind a name
    /// keeps it open, anything else completes it.
    pub open spec fn collected(self, t: lexer::TokenView, next_is_dot: bool) -> ScanView {
        if self.reads_name(t, next_is_dot) {
            let s = if self.path.len() > 0 && !self.after_dot {
                self.flushed()
            } else {
                self
            };
            ScanView {
                path: s.path.push(t.text),
                path_offset: if s.path.len() == 0 {
                    t.offset
                } else {
                    s.path_offset
                },
                after_dot: false,
                ..s
            }
        } else if t.is_sign('.') && self.path.len() > 0 {
            ScanView { after_dot: true, ..self }
        } else {
            ScanView { after_dot: false, ..self.flushed() }
        }
    }

    /// A lexeme of the expression is read, `top` telling whether it stands outside brackets.
    pub open spec fn took(self, t: lexer::TokenView, top: bool, next_is_dot: bool) -> ScanView {
        let condition = ast::ConditionView {
            is_empty: false,
            has_or: self.condition.has_or || t.is_kw(Kw::Or),
            has_top_level_or: self.condition.has_top_level_or || (t.is_kw(Kw::Or) && top),
            ..self.condition
        };
        ScanView { condition, ..self }.collected(t, next_is_dot)
    }
}

/// An expression outside brackets ends before the lexeme at `pos`: a closing bracket that
/// is not its own, a semicolon, or a keyword that starts a section.
pub open spec fn expression_ends(t: lexer::TokenView) -> bool {
    ||| t.is_sign(')')
    ||| t.is_sign(';')
    ||| (t.kind matches Kind::Keyword(kw) && section_keyword(kw))
}

/// The depth of brackets behind a lexeme.
pub open spec fn depth_after(t: lexer::TokenView, depth: int) -> int {
    if t.is_sign('(') {
        depth + 1
    } else if t.is_sign(')') {
        depth - 1
    } else {
        depth
    }
}

/// The end of the expression that goes on at `pos` inside `depth` brackets.
pub open spec fn expression_end(toks: Seq<lexer::TokenView>, pos: int, depth: int) -> int
    decreases toks.len() - pos,
{
    if pos < 0 || pos >= toks.len() || (depth == 0 && expression_ends(toks[pos])) {
        pos
    } else {
        expression_end(toks, pos + 1, depth_after(toks[pos], depth))
    }
}

/// The expression that goes on at `pos` inside `depth` brackets, and its end.
pub open spec fn condition_from(
    toks: Seq<lexer::TokenView>,
    pos: int,
    depth: int,
    scan: ScanView,
) -> (ast::ConditionView, int)
    decreases toks.len() - pos,
{
    if pos < 0 || pos >= toks.len() || (depth == 0 && expression_ends(toks[pos])) {
        (scan.flushed().condition, pos)
    } else {
        let after = depth_after(toks[pos], depth);
        condition_from(
            toks,
            pos + 1,
            after,
            scan.took(toks[pos], after == 0, sign_at(toks, pos + 1, '.')),
        )
    }
}

/// The expression at `pos`, and its end.
pub open spec fn condition_at(toks: Seq<lexer::TokenView>, pos: int) -> (ast::ConditionView, int) {
    condition_from(toks, pos, 0, scan_start(offset_at(toks, pos)))
}

/// The parameters of a call that go on at `pos` inside `depth` brackets, `params` being
/// complete, and the position behind the closing bracket.
pub open spec fn params_from(
    toks: Seq<lexer::TokenView>,
    pos: int,
    depth: int,
    params: Seq<ast::ConditionView>,
    scan: ScanView,
) -> (Seq<ast::ConditionView>, int)
    decreases toks.len() - pos,
{
    if pos < 0 || pos >= toks.len() || (depth == 1 && toks[pos].is_sign(')')) {
        let last = scan.flushed().condition;
        let end = if 0 <= pos < toks.len() {
            pos + 1
        } else {
            pos
        };
        if !last.is_empty || params.len() > 0 {
            (params.push(last), end)
        } else {
            (params, end)
        }
    } else if depth == 1 && toks[pos].is_sign(',') {
        let s = scan.flushed();
        params_from(
            toks,
            pos + 1,
            depth,
            params.push(s.condition),
            ScanView { condition: empty_condition(toks[pos].offset), after_dot: false, ..s },
        )
    } else {
        let after = depth_after(toks[pos], depth);
        params_from(
            toks,
            pos + 1,
            after,
            params,
            scan.took(toks[pos], after == 1, sign_at(toks, pos + 1, '.')),
        )
    }
}

/// The parameters in brackets at `pos`, split at the commas outside inner brackets.
pub open spec fn params_at(toks: Seq<lexer::TokenView>, pos: int) -> (Seq<ast::ConditionView>, int) {
    if sign_at(toks, pos, '(') {
        params_from(toks, pos + 1, 1, seq![], scan_start(offset_at(toks, pos + 1)))
    } else {
        (seq![], pos)
    }
}

pub proof fn lemma_expression_end(toks: Seq<lexer::TokenView>, pos: int, depth: int)
    requires
        0 <= pos <= toks.len(),
    ensures
        pos <= expression_end(toks, pos, depth) <= toks.len(),
    decreases toks.len() - pos,
{
    if pos < toks.len() && !(depth == 0 && expression_ends(toks[pos])) {
        lemma_expression_end(toks, pos + 1, depth_after(toks[pos], depth));
    }
}

pub proof fn lemma_condition_from(toks: Seq<lexer::TokenView>, pos: int, depth: int, scan: ScanView)
    requires
        0 <= pos <= toks.len(),
    ensures
        pos <= condition_from(toks, pos, depth, scan).1 <= toks.len(),
    decreases toks.len() - pos,
{
    if pos < toks.len() && !(depth == 0 && expression_ends(toks[pos])) {
        let after = depth_after(toks[pos], depth);
        lemma_condition_from(
            toks,
            pos + 1,
            after,
            scan.took(toks[pos], after == 0, sign_at(toks, pos + 1, '.')),
        );
    }
}

pub proof fn lemma_parts_at(toks: Seq<lexer::TokenView>, pos: int, parts: Seq<Seq<char>>)
    requires
        0 <= pos <= toks.len(),
    ensures
        parts_at(toks, pos, parts) matches Ok((_, next)) ==> pos <= next <= toks.len(),
    decreases toks.len() - pos,
{
    if sign_at(toks, pos, '.') {
        match ident_at(toks, pos + 1) {
            Ok((part, next)) => {
                lemma_parts_at(toks, next, parts.push(part));
            },
            Err(_) => {},
        }
    }
}

/// What stands behind the word `SELECT` up to the end of the selected expressions.
pub open spec fn select_at(toks: Seq<lexer::TokenView>, pos: int) -> (ast::ConditionView, int) {
    let p = past_kw(toks, past_kw(toks, pos, Kw::Allowed), Kw::Distinct);
    let list = if kw_at(toks, p, Kw::Top) {
        // A number stands behind TOP, unless the text ends there.
        if p + 1 < toks.len() {
            p + 2
        } else {
            p + 1
        }
    } else {
        p
    };
    condition_at(toks, list)
}

/// The temporary table that a selection is put into.
pub open spec fn into_at(toks: Seq<lexer::TokenView>, pos: int) -> Result<
    (Option<ast::NamedView>, int),
    ErrorView,
> {
    if kw_at(toks, pos, Kw::Into) {
        match named_at(toks, pos + 1) {
            Ok((name, next)) => Ok((Some(name), next)),
            Err(e) => Err(e),
        }
    } else {
        Ok((None, pos))
    }
}

/// The condition of the section `WHERE`.
pub open spec fn where_at(toks: Seq<lexer::TokenView>, pos: int) -> (Option<ast::ConditionView>, int) {
    if kw_at(toks, pos, Kw::Where) {
        let (condition, next) = condition_at(toks, pos + 1);
        (Some(condition), next)
    } else {
        (None, pos)
    }
}

/// A section starts at `pos` of which no rule needs anything.
pub open spec fn ignored_section(toks: Seq<lexer::TokenView>, pos: int) -> bool {
    ||| kw_at(toks, pos, Kw::GroupBy)
    ||| kw_at(toks, pos, Kw::Having)
    ||| kw_at(toks, pos, Kw::OrderBy)
    ||| kw_at(toks, pos, Kw::Totals)
    ||| kw_at(toks, pos, Kw::ForUpdate)
    ||| kw_at(toks, pos, Kw::AutoOrder)
}

/// The position behind all sections of which no rule needs anything.
pub open spec fn past_ignored(toks: Seq<lexer::TokenView>, pos: int) -> int
    decreases toks.len() - pos,
{
    if ignored_section(toks, pos) {
        proof {
            lemma_expression_end(toks, pos + 1, 0);
        }
        past_ignored(toks, expression_end(toks, pos + 1, 0))
    } else {
        pos
    }
}

/// The fields that a list of parameters mentions, each as one dotted name.
pub open spec fn mentioned_names(params: Seq<ast::ConditionView>) -> Seq<ast::NamedView>
    decreases params.len(),
{
    if params.len() == 0 {
        seq![]
    } else {
        mentioned_names(params.drop_last()) + field_names(params.last().fields)
    }
}

/// The dotted names of a list of fields.
pub open spec fn field_names(fields: Seq<ast::FieldView>) -> Seq<ast::NamedView> {
    fields.map_values(
        |f: ast::FieldView| ast::NamedView { name: text::joined(f.path, "."@), offset: f.offset },
    )
}

/// The dotted names that go on at `pos` behind commas, `names` having been read.
pub open spec fn more_path_names(
    toks: Seq<lexer::TokenView>,
    pos: int,
    names: Seq<ast::NamedView>,
) -> Result<(Seq<ast::NamedView>, int), ErrorView>
    decreases toks.len() - pos,
{
    if sign_at(toks, pos, ',') {
        match path_name_at(toks, pos + 1) {
            Ok((name, next)) => {
                proof {
                    lemma_path_name_at(toks, pos + 1);
                }
                more_path_names(toks, next, names.push(name))
            },
            Err(e) => Err(e),
        }
    } else {
        Ok((names, pos))
    }
}

pub proof fn lemma_path_name_at(toks: Seq<lexer::TokenView>, pos: int)
    requires
        0 <= pos <= toks.len(),
    ensures
        path_name_at(toks, pos) matches Ok((_, next)) ==> pos < next <= toks.len(),
        path_at(toks, pos) matches Ok((parts, next)) ==> pos < next <= toks.len(),
{
    match ident_at(toks, pos) {
        Ok((part, next)) => {
            lemma_parts_at(toks, next, seq![part]);
        },
        Err(_) => {},
    }
}

/// The fields by which the result is indexed. Behind `SETS` stands a list of sets in
/// brackets, of which all fields are taken.
pub open spec fn index_at(toks: Seq<lexer::TokenView>, pos: int) -> Result<
    (Seq<ast::NamedView>, int),
    ErrorView,
> {
    if !kw_at(toks, pos, Kw::IndexBy) {
        Ok((seq![], pos))
    } else if by_sets(toks, pos + 1) {
        let (params, next) = params_at(toks, pos + 2);
        Ok((mentioned_names(params), next))
    } else {
        match path_name_at(toks, pos + 1) {
            Ok((name, next)) => more_path_names(toks, next, seq![name]),
            Err(e) => Err(e),
        }
    }
}

/// The word `SETS` stands at `pos`.
pub open spec fn by_sets(toks: Seq<lexer::TokenView>, pos: int) -> bool {
    0 <= pos < toks.len() && (text::uppercase(toks[pos].text) == "НАБОРАМ"@ || text::uppercase(
        toks[pos].text,
    ) == "SETS"@)
}

/// The position behind the word that joins this selection to the next one.
pub open spec fn past_union(toks: Seq<lexer::TokenView>, pos: int) -> int {
    if kw_at(toks, pos, Kw::Union) {
        past_kw(toks, pos + 1, Kw::All)
    } else {
        pos
    }
}

/// The kind of the join that starts at `pos`, and the position behind the word for it.
/// A join without such a word is an inner one.
pub open spec fn join_kind_at(toks: Seq<lexer::TokenView>, pos: int) -> Option<(JoinKind, int)> {
    if kw_at(toks, pos, Kw::Left) {
        Some((JoinKind::Left, pos + 1))
    } else if kw_at(toks, pos, Kw::Right) {
        Some((JoinKind::Right, pos + 1))
    } else if kw_at(toks, pos, Kw::Full) {
        Some((JoinKind::Full, pos + 1))
    } else if kw_at(toks, pos, Kw::Inner) {
        Some((JoinKind::Inner, pos + 1))
    } else if kw_at(toks, pos, Kw::Join) {
        Some((JoinKind::Inner, pos))
    } else {
        None
    }
}

/// A query of which nothing but the start is known.
pub open spec fn empty_query(offset: nat) -> ast::QueryView {
    ast::QueryView {
        offset,
        into: None,
        index_fields: seq![],
        sources: seq![],
        joins: seq![],
        select: None,
        filter: None,
        drop_table: None,
    }
}

/// A part of a query takes at least one lexeme.
pub open spec fn advances(toks: Seq<lexer::TokenView>, pos: int, next: int) -> bool {
    pos < next <= toks.len()
}

/// No lexeme was taken: this never comes out of a query text.
pub open spec fn stuck() -> ErrorView {
    ErrorView { message: seq![], offset: 0 }
}

/// A query at `pos`, inside `depth` subqueries.
pub open spec fn query_at(toks: Seq<lexer::TokenView>, pos: int, depth: int) -> Result<
    (ast::QueryView, int),
    ErrorView,
>
    decreases toks.len() - pos, 0int,
{
    if kw_at(toks, pos, Kw::Drop) {
        match named_at(toks, pos + 1) {
            Ok((name, next)) => Ok(
                (
                    ast::QueryView {
                        drop_table: Some(name),
                        ..empty_query(offset_at(toks, pos))
                    },
                    next,
                ),
            ),
            Err(e) => Err(e),
        }
    } else if !kw_at(toks, pos, Kw::Select) {
        Err(failure(toks, pos, "ожидалось ВЫБРАТЬ"@))
    } else {
        proof {
            lemma_select_at(toks, pos + 1);
        }
        let (select, p1) = select_at(toks, pos + 1);
        match into_at(toks, p1) {
            Err(e) => Err(e),
            Ok((into, p2)) => match from_at(toks, p2, depth) {
                Err(e) => Err(e),
                Ok((sources, joins, p3)) => {
                    let (filter, p4) = where_at(toks, p3);
                    match index_at(toks, past_ignored(toks, p4)) {
                        Err(e) => Err(e),
                        Ok((index_fields, p5)) => Ok(
                            (
                                ast::QueryView {
                                    into,
                                    index_fields,
                                    sources,
                                    joins,
                                    select: Some(select),
                                    filter,
                                    ..empty_query(offset_at(toks, pos))
                                },
                                past_union(toks, p5),
                            ),
                        ),
                    }
                },
            },
        }
    }
}

/// The section `FROM`: the sources and what is joined to them.
pub open spec fn from_at(toks: Seq<lexer::TokenView>, pos: int, depth: int) -> Result<
    (Seq<ast::SourceView>, Seq<ast::JoinView>, int),
    ErrorView,
>
    decreases toks.len() - pos, 0int,
{
    if !kw_at(toks, pos, Kw::From) {
        Ok((seq![], seq![], pos))
    } else {
        match source_at(toks, pos + 1, depth) {
            Err(e) => Err(e),
            Ok((source, next)) => if !advances(toks, pos, next) {
                Err(stuck())
            } else {
                match sources_at(toks, next, depth, seq![source]) {
                    Err(e) => Err(e),
                    Ok((sources, end)) => if !advances(toks, pos, end) {
                        Err(stuck())
                    } else {
                        match joins_at(toks, end, depth, seq![]) {
                            Err(e) => Err(e),
                            Ok((joins, last)) => Ok((sources, joins, last)),
                        }
                    },
                }
            },
        }
    }
}

/// The sources that go on at `pos` behind commas, `sources` having been read.
pub open spec fn sources_at(
    toks: Seq<lexer::TokenView>,
    pos: int,
    depth: int,
    sources: Seq<ast::SourceView>,
) -> Result<(Seq<ast::SourceView>, int), ErrorView>
    decreases toks.len() - pos, 0int,
{
    if !sign_at(toks, pos, ',') {
        Ok((sources, pos))
    } else {
        match source_at(toks, pos + 1, depth) {
            Err(e) => Err(e),
            Ok((source, next)) => if !advances(toks, pos, next) {
                Err(stuck())
            } else {
                sources_at(toks, next, depth, sources.push(source))
            },
        }
    }
}

/// The joins that go on at `pos`, `joins` having been read.
pub open spec fn joins_at(
    toks: Seq<lexer::TokenView>,
    pos: int,
    depth: int,
    joins: Seq<ast::JoinView>,
) -> Result<(Seq<ast::JoinView>, int), ErrorView>
    decreases toks.len() - pos, 0int,
{
    match join_kind_at(toks, pos) {
        None => Ok((joins, pos)),
        Some((kind, p)) => {
            let at = past_kw(toks, p, Kw::Outer);
            if !kw_at(toks, at, Kw::Join) {
                Err(failure(toks, at, "ожидалось СОЕДИНЕНИЕ"@))
            } else {
                match source_at(toks, at + 1, depth) {
                    Err(e) => Err(e),
                    Ok((source, next)) => {
                        let (on, end) = if kw_at(toks, next, Kw::On) {
                            let (condition, end) = condition_at(toks, next + 1);
                            (Some(condition), end)
                        } else {
                            (None, next)
                        };
                        if !advances(toks, pos, end) {
                            Err(stuck())
                        } else {
                            let joined = ast::JoinView {
                                kind,
                                source,
                                on,
                                offset: offset_at(toks, pos),
                            };
                            joins_at(toks, end, depth, joins.push(joined))
                        }
                    },
                }
            }
        },
    }
}

/// The selections of a union that go on at `pos`, `queries` having been read.
pub open spec fn selections_at(
    toks: Seq<lexer::TokenView>,
    pos: int,
    depth: int,
    queries: Seq<ast::QueryView>,
) -> Result<(Seq<ast::QueryView>, int), ErrorView>
    decreases toks.len() - pos, 1int,
{
    if !kw_at(toks, pos, Kw::Select) {
        Ok((queries, pos))
    } else {
        match query_at(toks, pos, depth) {
            Err(e) => Err(e),
            Ok((query, next)) => if !advances(toks, pos, next) {
                Err(stuck())
            } else {
                selections_at(toks, next, depth, queries.push(query))
            },
        }
    }
}

/// A source at `pos` without its alias.
pub open spec fn table_at(toks: Seq<lexer::TokenView>, pos: int, depth: int) -> Result<
    (ast::TableView, int),
    ErrorView,
>
    decreases toks.len() - pos, 0int,
{
    if sign_at(toks, pos, '(') {
        if depth >= MAX_DEPTH {
            Err(failure(toks, pos + 1, "слишком глубокая вложенность подзапросов"@))
        } else if !kw_at(toks, pos + 1, Kw::Select) {
            Err(failure(toks, pos + 1, "в источнике ожидался подзапрос"@))
        } else {
            match selections_at(toks, pos + 1, depth + 1, seq![]) {
                Err(e) => Err(e),
                Ok((queries, next)) => if !sign_at(toks, next, ')') {
                    Err(failure(toks, next, "не закрыта скобка подзапроса"@))
                } else {
                    Ok((ast::TableView::Subquery(Box::new(ast::PackageView { queries })), next + 1))
                },
            }
        }
    } else if 0 <= pos < toks.len() && toks[pos].kind == Kind::Param {
        Ok(
            (
                ast::TableView::Parameter(
                    ast::NamedView { name: toks[pos].text, offset: toks[pos].offset },
                ),
                pos + 1,
            ),
        )
    } else {
        match path_at(toks, pos) {
            Err(e) => Err(e),
            Ok((parts, next)) => if meta_kind(text::uppercase(parts[0])) && parts.len() >= 2 {
                let (params, end) = params_at(toks, next);
                Ok(
                    (
                        ast::TableView::Meta(
                            ast::MetaTableView {
                                kind: parts[0],
                                name: parts[1],
                                sub_table: if parts.len() > 2 {
                                    Some(parts[2])
                                } else {
                                    None
                                },
                                params,
                                has_parens: sign_at(toks, next, '('),
                                offset: offset_at(toks, pos),
                            },
                        ),
                        end,
                    ),
                )
            } else if sign_at(toks, next, '(') {
                Err(failure(toks, next, "непонятный источник со скобками"@))
            } else {
                Ok(
                    (
                        ast::TableView::Temp(
                            ast::NamedView {
                                name: text::joined(parts, "."@),
                                offset: offset_at(toks, pos),
                            },
                        ),
                        next,
                    ),
                )
            },
        }
    }
}

/// A source at `pos` with its alias.
pub open spec fn source_at(toks: Seq<lexer::TokenView>, pos: int, depth: int) -> Result<
    (ast::SourceView, int),
    ErrorView,
>
    decreases toks.len() - pos, 1int,
{
    match table_at(toks, pos, depth) {
        Err(e) => Err(e),
        Ok((table, next)) => {
            let (alias, end) = alias_at(toks, next);
            Ok((ast::SourceView { table, alias }, end))
        },
    }
}

pub proof fn lemma_select_at(toks: Seq<lexer::TokenView>, pos: int)
    requires
        0 <= pos <= toks.len(),
    ensures
        pos <= select_at(toks, pos).1 <= toks.len(),
{
    let p = past_kw(toks, past_kw(toks, pos, Kw::Allowed), Kw::Distinct);
    let list = if kw_at(toks, p, Kw::Top) {
        if p + 1 < toks.len() {
            p + 2
        } else {
            p + 1
        }
    } else {
        p
    };
    lemma_condition_from(toks, list, 0, scan_start(offset_at(toks, list)));
}

/// The queries of a package that go on at `pos`, `queries` having been read.
pub open spec fn queries_at(
    toks: Seq<lexer::TokenView>,
    pos: int,
    queries: Seq<ast::QueryView>,
) -> Result<ast::PackageView, ErrorView>
    decreases toks.len() - pos,
{
    if pos < 0 || pos >= toks.len() {
        if queries.len() == 0 {
            Err(failure(toks, pos, "пакет не содержит запросов"@))
        } else {
            Ok(ast::PackageView { queries })
        }
    } else if sign_at(toks, pos, ';') {
        queries_at(toks, pos + 1, queries)
    } else {
        match query_at(toks, pos, 0) {
            Err(e) => Err(e),
            Ok((query, next)) => if !advances(toks, pos, next) {
                Err(stuck())
            } else {
                queries_at(toks, next, queries.push(query))
            },
        }
    }
}

/// What a query text means: the package that it holds, or why it is not understood.
pub open spec fn package_of(src: Seq<char>) -> Result<ast::PackageView, ErrorView> {
    queries_at(lexer::lexemes(src), 0, seq![])
}

/// An expression that is being read.
struct FieldScan {
    condition: Condition,
    path: Vec<String>,
    path_offset: usize,
    after_dot: bool,
}

impl View for FieldScan {
    type V = ScanView;

    closed spec fn view(&self) -> ScanView {
        ScanView {
            condition: self.condition@,
            path: text::texts(self.path@),
            path_offset: self.path_offset as nat,
            after_dot: self.after_dot,
        }
    }
}

impl FieldScan {
    fn start(offset: usize) -> (r: FieldScan)
        ensures
            r@ == scan_start(offset as nat),
    {
        let r = FieldScan {
            condition: new_condition(offset),
            path: Vec::new(),
            path_offset: 0,
            after_dot: false,
        };
        assert(r@.path =~= Seq::<Seq<char>>::empty());
        r
    }

    /// The dotted name is complete.
    fn flush_path(&mut self)
        ensures
            final(self)@ == old(self)@.flushed(),
    {
        if self.path.len() == 0 {
            return;
        }
        let mut path: Vec<String> = Vec::new();
        std::mem::swap(&mut path, &mut self.path);
        let field = Field { path, offset: self.path_offset };
        proof {
            ast::lemma_field_push(self.condition.fields@, field);
            assert(text::texts(self.path@) =~= Seq::<Seq<char>>::empty());
        }
        self.condition.fields.push(field);
    }

    /// A lexeme is read.
    fn collect_field(&mut self, token: &Token, next_is_dot: bool)
        ensures
            final(self)@ == old(self)@.collected(token@, next_is_dot),
    {
        let is_name = token.kind == Kind::Ident || (is_name_like(token) && (self.after_dot || next_is_dot));
        if is_name {
            if self.path.len() > 0 && !self.after_dot {
                self.flush_path();
            }
            if self.path.len() == 0 {
                self.path_offset = token.offset;
            }
            let part = token.text.clone();
            proof {
                text::lemma_texts_push(self.path@, part);
            }
            self.path.push(part);
            self.after_dot = false;
            return;
        }
        if token.is_punct('.') && self.path.len() > 0 {
            self.after_dot = true;
            return;
        }
        self.flush_path();
        self.after_dot = false;
    }

    /// A lexeme of the expression is read, outside brackets where `top`.
    fn take_token(&mut self, token: &Token, top: bool, next_is_dot: bool)
        ensures
            final(self)@ == old(self)@.took(token@, top, next_is_dot),
    {
        self.condition.is_empty = false;
        if token.is(Kw::Or) {
            self.condition.has_or = true;
            if top {
                self.condition.has_top_level_or = true;
            }
        }
        self.collect_field(token, next_is_dot);
    }
}

fn new_condition(offset: usize) -> (r: Condition)
    ensures
        r@ == empty_condition(offset as nat),
{
    let r = Condition {
        offset,
        has_or: false,
        has_top_level_or: false,
        fields: Vec::new(),
        is_empty: true,
    };
    assert(r@.fields =~= Seq::<ast::FieldView>::empty());
    r
}

/// A parser over the lexemes of one text.
pub struct Parser {
    tokens: Vec<Token>,
    pos: usize,
    depth: usize,
}

impl Parser {
    /// The lexemes of the text.
    pub closed spec fn toks(&self) -> Seq<lexer::TokenView> {
        lexer::token_views(self.tokens@)
    }

    /// The position of the next lexeme.
    pub closed spec fn at(&self) -> int {
        self.pos as int
    }

    /// The number of subqueries around the next lexeme.
    pub closed spec fn nesting(&self) -> int {
        self.depth as int
    }

    /// The parser stands within its lexemes, inside no more subqueries than are allowed.
    pub closed spec fn wf(&self) -> bool {
        self.pos <= self.tokens.len() && self.depth <= MAX_DEPTH
    }

    /// The parser reads the same lexemes as before, at the same depth.
    spec fn follows(&self, before: &Parser) -> bool {
        self.wf() && self.toks() == before.toks() && self.nesting() == before.nesting()
    }

    fn offset(&self) -> (r: usize)
        requires
            self.wf(),
        ensures
            r == offset_at(self.toks(), self.at()),
    {
        if self.pos < self.tokens.len() {
            self.tokens[self.pos].offset
        } else {
            0
        }
    }

    fn at_kw(&self, kw: Kw) -> (r: bool)
        requires
            self.wf(),
        ensures
            r == kw_at(self.toks(), self.at(), kw),
    {
        self.pos < self.tokens.len() && self.tokens[self.pos].is(kw)
    }

    fn at_punct(&self, c: char) -> (r: bool)
        requires
            self.wf(),
        ensures
            r == sign_at(self.toks(), self.at(), c),
    {
        self.pos < self.tokens.len() && self.tokens[self.pos].is_punct(c)
    }

    fn eat_kw(&mut self, kw: Kw) -> (r: bool)
        requires
            old(self).wf(),
        ensures
            final(self).follows(old(self)),
            r == kw_at(old(self).toks(), old(self).at(), kw),
            final(self).at() == past_kw(old(self).toks(), old(self).at(), kw),
    {
        if self.at_kw(kw) {
            self.pos = self.pos + 1;
            return true;
        }
        false
    }

    fn eat_punct(&mut self, c: char) -> (r: bool)
        requires
            old(self).wf(),
        ensures
            final(self).follows(old(self)),
            r == sign_at(old(self).toks(), old(self).at(), c),
            final(self).at() == old(self).at() + if r { 1int } else { 0int },
    {
        if self.at_punct(c) {
            self.pos = self.pos + 1;
            return true;
        }
        false
    }

    fn err(&self, message: &str) -> (r: ParseError)
        requires
            self.wf(),
        ensures
            r@ == failure(self.toks(), self.at(), message@),
    {
        ParseError { message: message.to_owned(), offset: self.offset() }
    }

    fn parse_ident(&mut self) -> (r: Result<String, ParseError>)
        requires
            old(self).wf(),
        ensures
            final(self).follows(old(self)),
            match r {
                Ok(name) => ident_at(old(self).toks(), old(self).at()) == Ok::<(Seq<char>, int), ErrorView>(
                    (name@, final(self).at()),
                ) && final(self).at() > old(self).at(),
                Err(e) => ident_at(old(self).toks(), old(self).at()) == Err::<(Seq<char>, int), ErrorView>(e@),
            },
    {
        if self.at_punct('%') {
            if self.pos + 1 < self.tokens.len() && self.tokens[self.pos + 1].kind == Kind::Number {
                let mut name = "%".to_owned();
                name.append(self.tokens[self.pos + 1].text.as_str());
                self.pos = self.pos + 2;
                return Ok(name);
            }
        }
        if self.pos < self.tokens.len() && self.tokens[self.pos].kind == Kind::Ident {
            let name = self.tokens[self.pos].text.clone();
            self.pos = self.pos + 1;
            return Ok(name);
        }
        Err(self.err("ожидалось имя"))
    }

    fn parse_name(&mut self) -> (r: Result<Named, ParseError>)
        requires
            old(self).wf(),
        ensures
            final(self).follows(old(self)),
            match r {
                Ok(n) => named_at(old(self).toks(), old(self).at()) == Ok::<(ast::NamedView, int), ErrorView>(
                    (n@, final(self).at()),
                ) && final(self).at() > old(self).at(),
                Err(e) => named_at(old(self).toks(), old(self).at()) == Err::<(ast::NamedView, int), ErrorView>(e@),
            },
    {
        let offset = self.offset();
        match self.parse_ident() {
            Ok(name) => Ok(Named { name, offset }),
            Err(e) => Err(e),
        }
    }

    /// The parts of a dotted name.
    fn parse_path(&mut self) -> (r: Result<Vec<String>, ParseError>)
        requires
            old(self).wf(),
        ensures
            final(self).follows(old(self)),
            match r {
                Ok(parts) => path_at(old(self).toks(), old(self).at()) == Ok::<(Seq<Seq<char>>, int), ErrorView>(
                    (text::texts(parts@), final(self).at()),
                ) && final(self).at() > old(self).at() && parts.len() > 0,
                Err(e) => path_at(old(self).toks(), old(self).at()) == Err::<(Seq<Seq<char>>, int), ErrorView>(e@),
            },
    {
        let first = match self.parse_ident() {
            Ok(name) => name,
            Err(e) => return Err(e),
        };
        let mut parts: Vec<String> = Vec::new();
        parts.push(first);
        assert(text::texts(parts@) =~= seq![first@]);
        while self.at_punct('.')
            invariant
                self.follows(old(self)),
                self.at() > old(self).at(),
                parts.len() > 0,
                path_at(old(self).toks(), old(self).at()) == parts_at(
                    self.toks(),
                    self.at(),
                    text::texts(parts@),
                ),
            decreases self.toks().len() - self.at(),
        {
            self.pos = self.pos + 1;
            match self.parse_ident() {
                Ok(name) => {
                    proof {
                        text::lemma_texts_push(parts@, name);
                    }
                    parts.push(name);
                },
                Err(e) => return Err(e),
            }
        }
        Ok(parts)
    }

    /// A name, possibly of several parts.
    fn parse_path_name(&mut self) -> (r: Result<Named, ParseError>)
        requires
            old(self).wf(),
        ensures
            final(self).follows(old(self)),
            match r {
                Ok(n) => path_name_at(old(self).toks(), old(self).at()) == Ok::<(ast::NamedView, int), ErrorView>(
                    (n@, final(self).at()),
                ) && final(self).at() > old(self).at(),
                Err(e) => path_name_at(old(self).toks(), old(self).at()) == Err::<(ast::NamedView, int), ErrorView>(e@),
            },
    {
        let offset = self.offset();
        match self.parse_path() {
            Ok(parts) => Ok(Named { name: join(&parts, "."), offset }),
            Err(e) => Err(e),
        }
    }

    /// The alias of a source.
    fn parse_alias(&mut self) -> (r: Option<Named>)
        requires
            old(self).wf(),
        ensures
            final(self).follows(old(self)),
            alias_at(old(self).toks(), old(self).at()) == (ast::opt_named(r), final(self).at()),
            final(self).at() >= old(self).at(),
    {
        if self.eat_kw(Kw::As) {
            if self.pos < self.tokens.len() && is_name_like(&self.tokens[self.pos]) {
                let named = self.named_here();
                self.pos = self.pos + 1;
                return Some(named);
            }
            return None;
        }
        if self.pos < self.tokens.len() && self.tokens[self.pos].kind == Kind::Ident {
            let named = self.named_here();
            self.pos = self.pos + 1;
            return Some(named);
        }
        None
    }

    /// The next lexeme as a name.
    fn named_here(&self) -> (r: Named)
        requires
            self.wf(),
            self.at() < self.toks().len(),
        ensures
            r@ == (ast::NamedView {
                name: self.toks()[self.at()].text,
                offset: self.toks()[self.at()].offset,
            }),
    {
        let token = &self.tokens[self.pos];
        Named { name: token.text.clone(), offset: token.offset }
    }

    /// Skip an expression.
    fn skip_expression(&mut self)
        requires
            old(self).wf(),
        ensures
            final(self).follows(old(self)),
            final(self).at() == expression_end(old(self).toks(), old(self).at(), 0),
            final(self).at() >= old(self).at(),
    {
        let mut depth: usize = 0;
        while self.pos < self.tokens.len()
            invariant
                self.follows(old(self)),
                self.at() >= old(self).at(),
                depth <= self.pos,
                expression_end(old(self).toks(), old(self).at(), 0) == expression_end(
                    self.toks(),
                    self.at(),
                    depth as int,
                ),
            decreases self.toks().len() - self.at(),
        {
            let token = &self.tokens[self.pos];
            if token.is_punct('(') {
                depth = depth + 1;
            } else if token.is_punct(')') {
                if depth == 0 {
                    return;
                }
                depth = depth - 1;
            } else if token.is_punct(';') && depth == 0 {
                return;
            } else if depth == 0 {
                if let Kind::Keyword(kw) = token.kind {
                    if is_section(kw) {
                        return;
                    }
                }
            }
            self.pos = self.pos + 1;
        }
    }

    /// Read an expression: the fields that it mentions and the presence of `OR`.
    fn parse_condition(&mut self) -> (r: Condition)
        requires
            old(self).wf(),
        ensures
            final(self).follows(old(self)),
            condition_at(old(self).toks(), old(self).at()) == (r@, final(self).at()),
            final(self).at() >= old(self).at(),
    {
        let mut scan = FieldScan::start(self.offset());
        let mut depth: usize = 0;
        while self.pos < self.tokens.len()
            invariant_except_break
                self.follows(old(self)),
                self.at() >= old(self).at(),
                depth <= self.pos,
                condition_at(old(self).toks(), old(self).at()) == condition_from(
                    self.toks(),
                    self.at(),
                    depth as int,
                    scan@,
                ),
            ensures
                self.follows(old(self)),
                self.at() >= old(self).at(),
                condition_at(old(self).toks(), old(self).at()) == (scan@.flushed().condition, self.at()),
            decreases self.toks().len() - self.at(),
        {
            let token = copy_token(&self.tokens[self.pos]);
            if token.is_punct('(') {
                depth = depth + 1;
            } else if token.is_punct(')') {
                if depth == 0 {
                    break;
                }
                depth = depth - 1;
            } else if token.is_punct(';') && depth == 0 {
                break;
            } else if depth == 0 {
                if let Kind::Keyword(kw) = token.kind {
                    if is_section(kw) {
                        break;
                    }
                }
            }
            self.pos = self.pos + 1;
            let next_is_dot = self.at_punct('.');
            scan.take_token(&token, depth == 0, next_is_dot);
        }
        scan.flush_path();
        scan.condition
    }

    /// Read parameters in brackets, split at the commas outside inner brackets.
    fn parse_call_params(&mut self) -> (r: Vec<Condition>)
        requires
            old(self).wf(),
        ensures
            final(self).follows(old(self)),
            params_at(old(self).toks(), old(self).at()) == (
                ast::condition_views(r@),
                final(self).at(),
            ),
            final(self).at() >= old(self).at(),
    {
        let mut params: Vec<Condition> = Vec::new();
        assert(ast::condition_views(params@) =~= Seq::<ast::ConditionView>::empty());
        if !self.eat_punct('(') {
            return params;
        }
        let mut depth: usize = 1;
        let mut scan = FieldScan::start(self.offset());
        let ghost whole = params_at(old(self).toks(), old(self).at());
        while self.pos < self.tokens.len()
            invariant_except_break
                self.follows(old(self)),
                self.at() >= old(self).at(),
                1 <= depth <= self.pos,
                whole == params_from(
                    self.toks(),
                    self.at(),
                    depth as int,
                    ast::condition_views(params@),
                    scan@,
                ),
            ensures
                self.follows(old(self)),
                self.at() >= old(self).at(),
                ({
                    let last = scan@.flushed().condition;
                    let done = ast::condition_views(params@);
                    whole == (
                        if !last.is_empty || done.len() > 0 {
                            done.push(last)
                        } else {
                            done
                        },
                        self.at(),
                    )
                }),
            decreases self.toks().len() - self.at(),
        {
            let token = copy_token(&self.tokens[self.pos]);
            if token.is_punct('(') {
                depth = depth + 1;
            } else if token.is_punct(')') {
                depth = depth - 1;
                if depth == 0 {
                    self.pos = self.pos + 1;
                    break;
                }
            }
            self.pos = self.pos + 1;
            if depth == 1 && token.is_punct(',') {
                scan.flush_path();
                let mut complete = new_condition(token.offset);
                std::mem::swap(&mut complete, &mut scan.condition);
                scan.after_dot = false;
                proof {
                    ast::lemma_condition_push(params@, complete);
                }
                params.push(complete);
                continue;
            }
            let next_is_dot = self.at_punct('.');
            scan.take_token(&token, depth == 1, next_is_dot);
        }
        scan.flush_path();
        let last = scan.condition;
        if !last.is_empty || params.len() > 0 {
            proof {
                ast::lemma_condition_push(params@, last);
            }
            params.push(last);
        }
        params
    }

    /// The fields behind `INDEX BY`.
    fn parse_index(&mut self) -> (r: Result<Vec<Named>, ParseError>)
        requires
            old(self).wf(),
        ensures
            final(self).follows(old(self)),
            match r {
                Ok(names) => index_at(old(self).toks(), old(self).at()) == Ok::<
                    (Seq<ast::NamedView>, int),
                    ErrorView,
                >((ast::named_views(names@), final(self).at())) && final(self).at() >= old(self).at(),
                Err(e) => index_at(old(self).toks(), old(self).at()) == Err::<
                    (Seq<ast::NamedView>, int),
                    ErrorView,
                >(e@),
            },
    {
        let mut names: Vec<Named> = Vec::new();
        assert(ast::named_views(names@) =~= Seq::<ast::NamedView>::empty());
        if !self.eat_kw(Kw::IndexBy) {
            return Ok(names);
        }
        let mut sets = false;
        if self.pos < self.tokens.len() {
            let word = to_upper(self.tokens[self.pos].text.as_str());
            sets = same_text(word.as_str(), "НАБОРАМ") || same_text(word.as_str(), "SETS");
        }
        if sets {
            self.pos = self.pos + 1;
            let params = self.parse_call_params();
            let names = names_in_params(&params);
            return Ok(names);
        }
        match self.parse_path_name() {
            Ok(name) => {
                names.push(name);
                assert(ast::named_views(names@) =~= seq![name@]);
            },
            Err(e) => return Err(e),
        }
        while self.at_punct(',')
            invariant
                self.follows(old(self)),
                self.at() >= old(self).at(),
                index_at(old(self).toks(), old(self).at()) == more_path_names(
                    self.toks(),
                    self.at(),
                    ast::named_views(names@),
                ),
            decreases self.toks().len() - self.at(),
        {
            self.pos = self.pos + 1;
            match self.parse_path_name() {
                Ok(name) => {
                    proof {
                        ast::lemma_named_push(names@, name);
                    }
                    names.push(name);
                },
                Err(e) => return Err(e),
            }
        }
        Ok(names)
    }

    /// The table of a source.
    fn parse_table(&mut self) -> (r: Result<Table, ParseError>)
        requires
            old(self).wf(),
        ensures
            final(self).wf(),
            final(self).toks() == old(self).toks(),
            match r {
                Ok(t) => table_at(old(self).toks(), old(self).at(), old(self).nesting()) == Ok::<
                    (ast::TableView, int),
                    ErrorView,
                >((ast::table_view(t), final(self).at())) && final(self).at() > old(self).at()
                    && final(self).nesting() == old(self).nesting(),
                Err(e) => table_at(old(self).toks(), old(self).at(), old(self).nesting()) == Err::<
                    (ast::TableView, int),
                    ErrorView,
                >(e@),
            },
        decreases old(self).toks().len() - old(self).at(), 0int,
    {
        if self.at_punct('(') {
            self.pos = self.pos + 1;
            if self.depth >= MAX_DEPTH {
                return Err(self.err("слишком глубокая вложенность подзапросов"));
            }
            if !self.at_kw(Kw::Select) {
                return Err(self.err("в источнике ожидался подзапрос"));
            }
            self.depth = self.depth + 1;
            let queries = match self.parse_selections() {
                Ok(queries) => queries,
                Err(e) => return Err(e),
            };
            self.depth = self.depth - 1;
            if !self.eat_punct(')') {
                return Err(self.err("не закрыта скобка подзапроса"));
            }
            return Ok(Table::Subquery(Box::new(Package { queries })));
        }
        if self.pos < self.tokens.len() && self.tokens[self.pos].kind == Kind::Param {
            let named = self.named_here();
            self.pos = self.pos + 1;
            return Ok(Table::Parameter(named));
        }
        let offset = self.offset();
        let parts = match self.parse_path() {
            Ok(parts) => parts,
            Err(e) => return Err(e),
        };
        if is_meta_kind(parts[0].as_str()) && parts.len() >= 2 {
            let has_parens = self.at_punct('(');
            let params = self.parse_call_params();
            let sub_table = if parts.len() > 2 {
                Some(parts[2].clone())
            } else {
                None
            };
            return Ok(
                Table::Meta(
                    MetaTable {
                        kind: parts[0].clone(),
                        name: parts[1].clone(),
                        sub_table,
                        params,
                        has_parens,
                        offset,
                    },
                ),
            );
        }
        if self.at_punct('(') {
            return Err(self.err("непонятный источник со скобками"));
        }
        Ok(Table::Temp(Named { name: join(&parts, "."), offset }))
    }

    /// A source with its alias.
    fn parse_source(&mut self) -> (r: Result<Source, ParseError>)
        requires
            old(self).wf(),
        ensures
            final(self).wf(),
            final(self).toks() == old(self).toks(),
            match r {
                Ok(s) => source_at(old(self).toks(), old(self).at(), old(self).nesting()) == Ok::<
                    (ast::SourceView, int),
                    ErrorView,
                >((ast::source_view(s), final(self).at())) && final(self).at() > old(self).at()
                    && final(self).nesting() == old(self).nesting(),
                Err(e) => source_at(old(self).toks(), old(self).at(), old(self).nesting()) == Err::<
                    (ast::SourceView, int),
                    ErrorView,
                >(e@),
            },
        decreases old(self).toks().len() - old(self).at(), 1int,
    {
        match self.parse_table() {
            Ok(table) => {
                let alias = self.parse_alias();
                Ok(Source { table, alias })
            },
            Err(e) => Err(e),
        }
    }

    /// The selections of a union.
    fn parse_selections(&mut self) -> (r: Result<Vec<Query>, ParseError>)
        requires
            old(self).wf(),
        ensures
            final(self).wf(),
            final(self).toks() == old(self).toks(),
            match r {
                Ok(qs) => selections_at(old(self).toks(), old(self).at(), old(self).nesting(), seq![])
                    == Ok::<(Seq<ast::QueryView>, int), ErrorView>(
                    (ast::query_views(qs@), final(self).at()),
                ) && final(self).at() >= old(self).at() && final(self).nesting() == old(self).nesting(),
                Err(e) => selections_at(old(self).toks(), old(self).at(), old(self).nesting(), seq![])
                    == Err::<(Seq<ast::QueryView>, int), ErrorView>(e@),
            },
        decreases old(self).toks().len() - old(self).at(), 1int,
    {
        let mut queries: Vec<Query> = Vec::new();
        assert(ast::query_views(queries@) =~= Seq::<ast::QueryView>::empty());
        while self.at_kw(Kw::Select)
            invariant
                self.follows(old(self)),
                self.at() >= old(self).at(),
                selections_at(old(self).toks(), old(self).at(), old(self).nesting(), seq![])
                    == selections_at(
                    self.toks(),
                    self.at(),
                    self.nesting(),
                    ast::query_views(queries@),
                ),
            decreases self.toks().len() - self.at(),
        {
            match self.parse_query() {
                Ok(query) => {
                    proof {
                        ast::lemma_query_push(queries@, query);
                    }
                    queries.push(query);
                },
                Err(e) => return Err(e),
            }
        }
        Ok(queries)
    }

    /// The section `FROM`.
    fn parse_from(&mut self) -> (r: Result<(Vec<Source>, Vec<Join>), ParseError>)
        requires
            old(self).wf(),
        ensures
            final(self).wf(),
            final(self).toks() == old(self).toks(),
            match r {
                Ok((ss, js)) => from_at(old(self).toks(), old(self).at(), old(self).nesting()) == Ok::<
                    (Seq<ast::SourceView>, Seq<ast::JoinView>, int),
                    ErrorView,
                >((ast::source_views(ss@), ast::join_views(js@), final(self).at())) && final(self).at()
                    >= old(self).at() && final(self).nesting() == old(self).nesting(),
                Err(e) => from_at(old(self).toks(), old(self).at(), old(self).nesting()) == Err::<
                    (Seq<ast::SourceView>, Seq<ast::JoinView>, int),
                    ErrorView,
                >(e@),
            },
        decreases old(self).toks().len() - old(self).at(), 0int,
    {
        let mut sources: Vec<Source> = Vec::new();
        if !self.eat_kw(Kw::From) {
            let joins: Vec<Join> = Vec::new();
            assert(ast::source_views(sources@) =~= Seq::<ast::SourceView>::empty());
            assert(ast::join_views(joins@) =~= Seq::<ast::JoinView>::empty());
            return Ok((sources, joins));
        }
        match self.parse_source() {
            Ok(source) => {
                sources.push(source);
                assert(ast::source_views(sources@) =~= seq![ast::source_view(source)]);
            },
            Err(e) => return Err(e),
        }
        let ghost first = self.at();
        let ghost listed = sources_at(self.toks(), first, self.nesting(), ast::source_views(sources@));
        while self.at_punct(',')
            invariant
                self.follows(old(self)),
                self.at() >= first > old(self).at(),
                listed == sources_at(self.toks(), self.at(), self.nesting(), ast::source_views(sources@)),
                listed is Err ==> from_at(old(self).toks(), old(self).at(), old(self).nesting())
                    == Err::<(Seq<ast::SourceView>, Seq<ast::JoinView>, int), ErrorView>(listed->Err_0),
            decreases self.toks().len() - self.at(),
        {
            self.pos = self.pos + 1;
            match self.parse_source() {
                Ok(source) => {
                    proof {
                        ast::lemma_source_push(sources@, source);
                    }
                    sources.push(source);
                },
                Err(e) => return Err(e),
            }
        }
        match self.parse_joins() {
            Ok(joins) => Ok((sources, joins)),
            Err(e) => Err(e),
        }
    }

    /// What is joined to the sources.
    fn parse_joins(&mut self) -> (r: Result<Vec<Join>, ParseError>)
        requires
            old(self).wf(),
        ensures
            final(self).wf(),
            final(self).toks() == old(self).toks(),
            match r {
                Ok(js) => joins_at(old(self).toks(), old(self).at(), old(self).nesting(), seq![]) == Ok::<
                    (Seq<ast::JoinView>, int),
                    ErrorView,
                >((ast::join_views(js@), final(self).at())) && final(self).at() >= old(self).at()
                    && final(self).nesting() == old(self).nesting(),
                Err(e) => joins_at(old(self).toks(), old(self).at(), old(self).nesting(), seq![]) == Err::<
                    (Seq<ast::JoinView>, int),
                    ErrorView,
                >(e@),
            },
        decreases old(self).toks().len() - old(self).at(), 0int,
    {
        let mut joins: Vec<Join> = Vec::new();
        assert(ast::join_views(joins@) =~= Seq::<ast::JoinView>::empty());
        loop
            invariant
                self.follows(old(self)),
                self.at() >= old(self).at(),
                joins_at(old(self).toks(), old(self).at(), old(self).nesting(), seq![]) == joins_at(
                    self.toks(),
                    self.at(),
                    self.nesting(),
                    ast::join_views(joins@),
                ),
            decreases self.toks().len() - self.at(),
        {
            let offset = self.offset();
            let kind = if self.eat_kw(Kw::Left) {
                JoinKind::Left
            } else if self.eat_kw(Kw::Right) {
                JoinKind::Right
            } else if self.eat_kw(Kw::Full) {
                JoinKind::Full
            } else if self.eat_kw(Kw::Inner) {
                JoinKind::Inner
            } else if self.at_kw(Kw::Join) {
                JoinKind::Inner
            } else {
                return Ok(joins);
            };
            self.eat_kw(Kw::Outer);
            if !self.eat_kw(Kw::Join) {
                return Err(self.err("ожидалось СОЕДИНЕНИЕ"));
            }
            let source = match self.parse_source() {
                Ok(source) => source,
                Err(e) => return Err(e),
            };
            let on = if self.eat_kw(Kw::On) {
                Some(self.parse_condition())
            } else {
                None
            };
            let found = Join { kind, source, on, offset };
            proof {
                ast::lemma_join_push(joins@, found);
            }
            joins.push(found);
        }
    }

    /// One query of a package.
    fn parse_query(&mut self) -> (r: Result<Query, ParseError>)
        requires
            old(self).wf(),
        ensures
            final(self).wf(),
            final(self).toks() == old(self).toks(),
            match r {
                Ok(q) => query_at(old(self).toks(), old(self).at(), old(self).nesting()) == Ok::<
                    (ast::QueryView, int),
                    ErrorView,
                >((ast::query_view(q), final(self).at())) && final(self).at() > old(self).at()
                    && final(self).nesting() == old(self).nesting(),
                Err(e) => query_at(old(self).toks(), old(self).at(), old(self).nesting()) == Err::<
                    (ast::QueryView, int),
                    ErrorView,
                >(e@),
            },
        decreases old(self).toks().len() - old(self).at(), 0int,
    {
        let offset = self.offset();
        if self.eat_kw(Kw::Drop) {
            return match self.parse_name() {
                Ok(name) => {
                    let mut query = new_query(offset);
                    query.drop_table = Some(name);
                    Ok(query)
                },
                Err(e) => Err(e),
            };
        }
        if !self.eat_kw(Kw::Select) {
            return Err(self.err("ожидалось ВЫБРАТЬ"));
        }
        let select = self.parse_select();
        let into = match self.parse_into() {
            Ok(into) => into,
            Err(e) => return Err(e),
        };
        let (sources, joins) = match self.parse_from() {
            Ok(from) => from,
            Err(e) => return Err(e),
        };
        let filter = self.parse_where();
        self.skip_sections();
        let index_fields = match self.parse_index() {
            Ok(names) => names,
            Err(e) => return Err(e),
        };
        self.skip_union();
        Ok(
            Query {
                offset,
                into,
                index_fields,
                sources,
                joins,
                select: Some(select),
                filter,
                drop_table: None,
            },
        )
    }

    /// What stands behind `SELECT`, up to the end of the selected expressions.
    fn parse_select(&mut self) -> (r: Condition)
        requires
            old(self).wf(),
        ensures
            final(self).follows(old(self)),
            select_at(old(self).toks(), old(self).at()) == (r@, final(self).at()),
            final(self).at() >= old(self).at(),
    {
        self.eat_kw(Kw::Allowed);
        self.eat_kw(Kw::Distinct);
        if self.eat_kw(Kw::Top) {
            if self.pos < self.tokens.len() {
                self.pos = self.pos + 1;
            }
        }
        self.parse_condition()
    }

    /// The temporary table that a selection is put into.
    fn parse_into(&mut self) -> (r: Result<Option<Named>, ParseError>)
        requires
            old(self).wf(),
        ensures
            final(self).follows(old(self)),
            match r {
                Ok(into) => into_at(old(self).toks(), old(self).at()) == Ok::<
                    (Option<ast::NamedView>, int),
                    ErrorView,
                >((ast::opt_named(into), final(self).at())) && final(self).at() >= old(self).at(),
                Err(e) => into_at(old(self).toks(), old(self).at()) == Err::<
                    (Option<ast::NamedView>, int),
                    ErrorView,
                >(e@),
            },
    {
        if self.eat_kw(Kw::Into) {
            match self.parse_name() {
                Ok(name) => Ok(Some(name)),
                Err(e) => Err(e),
            }
        } else {
            Ok(None)
        }
    }

    /// The condition of the section `WHERE`.
    fn parse_where(&mut self) -> (r: Option<Condition>)
        requires
            old(self).wf(),
        ensures
            final(self).follows(old(self)),
            where_at(old(self).toks(), old(self).at()) == (ast::opt_condition(r), final(self).at()),
            final(self).at() >= old(self).at(),
    {
        if self.eat_kw(Kw::Where) {
            Some(self.parse_condition())
        } else {
            None
        }
    }

    /// Skip the word that joins this selection to the next one.
    fn skip_union(&mut self)
        requires
            old(self).wf(),
        ensures
            final(self).follows(old(self)),
            final(self).at() == past_union(old(self).toks(), old(self).at()),
            final(self).at() >= old(self).at(),
    {
        if self.eat_kw(Kw::Union) {
            self.eat_kw(Kw::All);
        }
    }

    /// Skip the sections of which no rule needs anything.
    fn skip_sections(&mut self)
        requires
            old(self).wf(),
        ensures
            final(self).follows(old(self)),
            final(self).at() == past_ignored(old(self).toks(), old(self).at()),
            final(self).at() >= old(self).at(),
    {
        loop
            invariant
                self.follows(old(self)),
                self.at() >= old(self).at(),
                past_ignored(old(self).toks(), old(self).at()) == past_ignored(self.toks(), self.at()),
            decreases self.toks().len() - self.at(),
        {
            if self.eat_kw(Kw::GroupBy) || self.eat_kw(Kw::Having) || self.eat_kw(Kw::OrderBy)
                || self.eat_kw(Kw::Totals) || self.eat_kw(Kw::ForUpdate) || self.eat_kw(Kw::AutoOrder) {
                self.skip_expression();
            } else {
                return;
            }
        }
    }

    /// The queries of a whole text.
    fn parse_package(&mut self) -> (r: Result<Package, ParseError>)
        requires
            old(self).wf(),
            old(self).at() == 0,
            old(self).nesting() == 0,
        ensures
            match r {
                Ok(p) => queries_at(old(self).toks(), 0, seq![]) == Ok::<ast::PackageView, ErrorView>(p@),
                Err(e) => queries_at(old(self).toks(), 0, seq![]) == Err::<ast::PackageView, ErrorView>(e@),
            },
    {
        let mut queries: Vec<Query> = Vec::new();
        assert(ast::query_views(queries@) =~= Seq::<ast::QueryView>::empty());
        while self.pos < self.tokens.len()
            invariant
                self.follows(old(self)),
                self.nesting() == 0,
                queries_at(old(self).toks(), 0, seq![]) == queries_at(
                    self.toks(),
                    self.at(),
                    ast::query_views(queries@),
                ),
            decreases self.toks().len() - self.at(),
        {
            if self.eat_punct(';') {
                continue;
            }
            match self.parse_query() {
                Ok(query) => {
                    proof {
                        ast::lemma_query_push(queries@, query);
                    }
                    queries.push(query);
                },
                Err(e) => return Err(e),
            }
        }
        if queries.len() == 0 {
            return Err(self.err("пакет не содержит запросов"));
        }
        Ok(Package { queries })
    }
}

fn new_query(offset: usize) -> (r: Query)
    ensures
        ast::query_view(r) == empty_query(offset as nat),
{
    let r = Query {
        offset,
        into: None,
        index_fields: Vec::new(),
        sources: Vec::new(),
        joins: Vec::new(),
        select: None,
        filter: None,
        drop_table: None,
    };
    assert(ast::named_views(r.index_fields@) =~= Seq::<ast::NamedView>::empty());
    assert(ast::source_views(r.sources@) =~= Seq::<ast::SourceView>::empty());
    assert(ast::join_views(r.joins@) =~= Seq::<ast::JoinView>::empty());
    r
}

/// The dotted names of all fields that a list of parameters mentions.
fn names_in_params(params: &Vec<Condition>) -> (r: Vec<Named>)
    ensures
        ast::named_views(r@) == mentioned_names(ast::condition_views(params@)),
{
    let ghost views = ast::condition_views(params@);
    let mut names: Vec<Named> = Vec::new();
    assert(ast::named_views(names@) =~= Seq::<ast::NamedView>::empty());
    assert(views.take(0) =~= Seq::<ast::ConditionView>::empty());
    let mut i: usize = 0;
    while i < params.len()
        invariant
            views == ast::condition_views(params@),
            i <= params.len(),
            ast::named_views(names@) == mentioned_names(views.take(i as int)),
        decreases params.len() - i,
    {
        let fields = &params[i].fields;
        let ghost before = ast::named_views(names@);
        let ghost all = field_names(views[i as int].fields);
        let mut j: usize = 0;
        assert(before + all.take(0) =~= before);
        while j < fields.len()
            invariant
                fields == params[i as int].fields,
                i < params.len(),
                views == ast::condition_views(params@),
                all == field_names(views[i as int].fields),
                j <= fields.len(),
                ast::named_views(names@) == before + all.take(j as int),
            decreases fields.len() - j,
        {
            let name = Named { name: join(&fields[j].path, "."), offset: fields[j].offset };
            proof {
                ast::lemma_named_push(names@, name);
                assert(all[j as int] == name@);
                assert(before + all.take(j + 1) =~= (before + all.take(j as int)).push(name@));
            }
            names.push(name);
            j += 1;
        }
        proof {
            assert(all.take(fields.len() as int) =~= all);
            assert(views.take(i + 1).drop_last() =~= views.take(i as int));
        }
        i += 1;
    }
    assert(views.take(i as int) =~= views);
    names
}

/// Parse a query text. An error means that the text was not understood.
pub fn parse(src: &str) -> (r: Result<Package, ParseError>)
    ensures
        match r {
            Ok(p) => package_of(src@) == Ok::<ast::PackageView, ErrorView>(p@),
            Err(e) => package_of(src@) == Err::<ast::PackageView, ErrorView>(e@),
        },
{
    let tokens = tokenize(src);
    let mut parser = Parser { tokens, pos: 0, depth: 0 };
    parser.parse_package()
}

/// What holds of an expression however it was written: `OR` outside brackets is an `OR`,
/// an expression without lexemes mentions nothing, and a field has a name.
pub open spec fn consistent(c: ast::ConditionView) -> bool {
    &&& c.has_top_level_or ==> c.has_or
    &&& c.is_empty ==> !c.has_or && c.fields.len() == 0
    &&& forall|i: int| 0 <= i < c.fields.len() ==> (#[trigger] c.fields[i]).path.len() > 0
}

spec fn scan_consistent(s: ScanView) -> bool {
    consistent(s.condition) && (s.condition.is_empty ==> s.path.len() == 0)
}

proof fn lemma_condition_consistent(toks: Seq<lexer::TokenView>, pos: int, depth: int, scan: ScanView)
    requires
        0 <= pos <= toks.len(),
        scan_consistent(scan),
    ensures
        consistent(condition_from(toks, pos, depth, scan).0),
        condition_from(toks, pos, depth, scan).0.is_empty <==> scan.condition.is_empty
            && condition_from(toks, pos, depth, scan).1 == pos,
    decreases toks.len() - pos,
{
    if pos < toks.len() && !(depth == 0 && expression_ends(toks[pos])) {
        let after = depth_after(toks[pos], depth);
        let next = scan.took(toks[pos], after == 0, sign_at(toks, pos + 1, '.'));
        lemma_condition_consistent(toks, pos + 1, after, next);
        lemma_condition_from(toks, pos + 1, after, next);
    }
}

/// An expression read from lexemes is consistent, and it is empty exactly where it takes
/// no lexeme.
pub proof fn law_conditions_are_consistent(toks: Seq<lexer::TokenView>, pos: int)
    requires
        0 <= pos <= toks.len(),
    ensures
        consistent(condition_at(toks, pos).0),
        condition_at(toks, pos).0.is_empty <==> condition_at(toks, pos).1 == pos,
{
    lemma_condition_consistent(toks, pos, 0, scan_start(offset_at(toks, pos)));
}

/// Subqueries stand in the table at most `d` deep.
pub open spec fn table_within(t: ast::TableView, d: nat) -> bool
    decreases d, 0int,
{
    match t {
        ast::TableView::Subquery(p) => d > 0 && forall|k: int|
            0 <= k < p.queries.len() ==> query_within(#[trigger] p.queries[k], (d - 1) as nat),
        _ => true,
    }
}

/// Subqueries stand in the query at most `d` deep.
pub open spec fn query_within(q: ast::QueryView, d: nat) -> bool
    decreases d, 1int,
{
    &&& forall|i: int| 0 <= i < q.sources.len() ==> table_within((#[trigger] q.sources[i]).table, d)
    &&& forall|i: int| 0 <= i < q.joins.len() ==> table_within((#[trigger] q.joins[i]).source.table, d)
}

spec fn room(depth: int) -> nat {
    (MAX_DEPTH - depth) as nat
}

spec fn sources_within(v: Seq<ast::SourceView>, d: nat) -> bool {
    forall|i: int| 0 <= i < v.len() ==> table_within((#[trigger] v[i]).table, d)
}

spec fn joins_within(v: Seq<ast::JoinView>, d: nat) -> bool {
    forall|i: int| 0 <= i < v.len() ==> table_within((#[trigger] v[i]).source.table, d)
}

spec fn queries_within(v: Seq<ast::QueryView>, d: nat) -> bool {
    forall|i: int| 0 <= i < v.len() ==> query_within(#[trigger] v[i], d)
}

proof fn lemma_messages()
    ensures
        "ожидалось имя"@.len() > 0,
        "ожидалось ВЫБРАТЬ"@.len() > 0,
        "ожидалось СОЕДИНЕНИЕ"@.len() > 0,
        "слишком глубокая вложенность подзапросов"@.len() > 0,
        "в источнике ожидался подзапрос"@.len() > 0,
        "не закрыта скобка подзапроса"@.len() > 0,
        "непонятный источник со скобками"@.len() > 0,
        "пакет не содержит запросов"@.len() > 0,
{
    reveal_strlit("ожидалось имя");
    reveal_strlit("ожидалось ВЫБРАТЬ");
    reveal_strlit("ожидалось СОЕДИНЕНИЕ");
    reveal_strlit("слишком глубокая вложенность подзапросов");
    reveal_strlit("в источнике ожидался подзапрос");
    reveal_strlit("не закрыта скобка подзапроса");
    reveal_strlit("непонятный источник со скобками");
    reveal_strlit("пакет не содержит запросов");
}

proof fn lemma_params_from(
    toks: Seq<lexer::TokenView>,
    pos: int,
    depth: int,
    params: Seq<ast::ConditionView>,
    scan: ScanView,
)
    requires
        0 <= pos <= toks.len(),
    ensures
        pos <= params_from(toks, pos, depth, params, scan).1 <= toks.len(),
    decreases toks.len() - pos,
{
    if pos < toks.len() && !(depth == 1 && toks[pos].is_sign(')')) {
        if depth == 1 && toks[pos].is_sign(',') {
            let s = scan.flushed();
            lemma_params_from(
                toks,
                pos + 1,
                depth,
                params.push(s.condition),
                ScanView { condition: empty_condition(toks[pos].offset), after_dot: false, ..s },
            );
        } else {
            let after = depth_after(toks[pos], depth);
            lemma_params_from(
                toks,
                pos + 1,
                after,
                params,
                scan.took(toks[pos], after == 1, sign_at(toks, pos + 1, '.')),
            );
        }
    }
}

proof fn lemma_parts_error(toks: Seq<lexer::TokenView>, pos: int, parts: Seq<Seq<char>>)
    requires
        0 <= pos <= toks.len(),
    ensures
        parts_at(toks, pos, parts) matches Err(e) ==> e.message.len() > 0,
    decreases toks.len() - pos,
{
    lemma_messages();
    if sign_at(toks, pos, '.') {
        match ident_at(toks, pos + 1) {
            Ok((part, next)) => {
                lemma_parts_error(toks, next, parts.push(part));
            },
            Err(_) => {},
        }
    }
}

proof fn lemma_path_error(toks: Seq<lexer::TokenView>, pos: int)
    requires
        0 <= pos <= toks.len(),
    ensures
        path_at(toks, pos) matches Err(e) ==> e.message.len() > 0,
{
    lemma_messages();
    match ident_at(toks, pos) {
        Ok((part, next)) => {
            lemma_parts_error(toks, next, seq![part]);
        },
        Err(_) => {},
    }
}

proof fn lemma_more_path_names(toks: Seq<lexer::TokenView>, pos: int, names: Seq<ast::NamedView>)
    requires
        0 <= pos <= toks.len(),
    ensures
        match more_path_names(toks, pos, names) {
            Ok((_, next)) => pos <= next <= toks.len(),
            Err(e) => e.message.len() > 0,
        },
    decreases toks.len() - pos,
{
    if sign_at(toks, pos, ',') {
        lemma_path_name_at(toks, pos + 1);
        lemma_path_error(toks, pos + 1);
        match path_name_at(toks, pos + 1) {
            Ok((name, next)) => {
                lemma_more_path_names(toks, next, names.push(name));
            },
            Err(_) => {},
        }
    }
}

proof fn lemma_index_at(toks: Seq<lexer::TokenView>, pos: int)
    requires
        0 <= pos <= toks.len(),
    ensures
        match index_at(toks, pos) {
            Ok((_, next)) => pos <= next <= toks.len(),
            Err(e) => e.message.len() > 0,
        },
{
    if kw_at(toks, pos, Kw::IndexBy) {
        if by_sets(toks, pos + 1) {
            if sign_at(toks, pos + 2, '(') {
                lemma_params_from(toks, pos + 3, 1, seq![], scan_start(offset_at(toks, pos + 3)));
            }
        } else {
            lemma_path_name_at(toks, pos + 1);
            lemma_path_error(toks, pos + 1);
            match path_name_at(toks, pos + 1) {
                Ok((name, next)) => {
                    lemma_more_path_names(toks, next, seq![name]);
                },
                Err(_) => {},
            }
        }
    }
}

proof fn lemma_past_ignored(toks: Seq<lexer::TokenView>, pos: int)
    requires
        0 <= pos <= toks.len(),
    ensures
        pos <= past_ignored(toks, pos) <= toks.len(),
    decreases toks.len() - pos,
{
    if ignored_section(toks, pos) {
        lemma_expression_end(toks, pos + 1, 0);
        lemma_past_ignored(toks, expression_end(toks, pos + 1, 0));
    }
}

proof fn lemma_table(toks: Seq<lexer::TokenView>, pos: int, depth: int)
    requires
        0 <= pos <= toks.len(),
        0 <= depth <= MAX_DEPTH,
    ensures
        match table_at(toks, pos, depth) {
            Ok((t, next)) => advances(toks, pos, next) && table_within(t, room(depth)),
            Err(e) => e.message.len() > 0,
        },
    decreases toks.len() - pos, 0int,
{
    lemma_messages();
    if sign_at(toks, pos, '(') {
        if depth < MAX_DEPTH && kw_at(toks, pos + 1, Kw::Select) {
            lemma_selections(toks, pos + 1, depth + 1, seq![]);
        }
    } else if !(0 <= pos < toks.len() && toks[pos].kind == Kind::Param) {
        lemma_path_name_at(toks, pos);
        lemma_path_error(toks, pos);
        match path_at(toks, pos) {
            Ok((parts, next)) => {
                if sign_at(toks, next, '(') {
                    lemma_params_from(toks, next + 1, 1, seq![], scan_start(offset_at(toks, next + 1)));
                }
            },
            Err(_) => {},
        }
    }
}

proof fn lemma_source(toks: Seq<lexer::TokenView>, pos: int, depth: int)
    requires
        0 <= pos <= toks.len(),
        0 <= depth <= MAX_DEPTH,
    ensures
        match source_at(toks, pos, depth) {
            Ok((s, next)) => advances(toks, pos, next) && table_within(s.table, room(depth)),
            Err(e) => e.message.len() > 0,
        },
    decreases toks.len() - pos, 1int,
{
    lemma_table(toks, pos, depth);
}

proof fn lemma_sources(
    toks: Seq<lexer::TokenView>,
    pos: int,
    depth: int,
    sources: Seq<ast::SourceView>,
)
    requires
        0 <= pos <= toks.len(),
        0 <= depth <= MAX_DEPTH,
        sources_within(sources, room(depth)),
    ensures
        match sources_at(toks, pos, depth, sources) {
            Ok((v, next)) => pos <= next <= toks.len() && sources_within(v, room(depth)),
            Err(e) => e.message.len() > 0,
        },
    decreases toks.len() - pos, 0int,
{
    if sign_at(toks, pos, ',') {
        lemma_source(toks, pos + 1, depth);
        match source_at(toks, pos + 1, depth) {
            Ok((source, next)) => {
                lemma_sources(toks, next, depth, sources.push(source));
            },
            Err(_) => {},
        }
    }
}

proof fn lemma_joins(toks: Seq<lexer::TokenView>, pos: int, depth: int, joins: Seq<ast::JoinView>)
    requires
        0 <= pos <= toks.len(),
        0 <= depth <= MAX_DEPTH,
        joins_within(joins, room(depth)),
    ensures
        match joins_at(toks, pos, depth, joins) {
            Ok((v, next)) => pos <= next <= toks.len() && joins_within(v, room(depth)),
            Err(e) => e.message.len() > 0,
        },
    decreases toks.len() - pos, 0int,
{
    lemma_messages();
    match join_kind_at(toks, pos) {
        None => {},
        Some((kind, p)) => {
            let at = past_kw(toks, p, Kw::Outer);
            if kw_at(toks, at, Kw::Join) {
                lemma_source(toks, at + 1, depth);
                match source_at(toks, at + 1, depth) {
                    Err(_) => {},
                    Ok((source, next)) => {
                        let (on, end) = if kw_at(toks, next, Kw::On) {
                            let (condition, end) = condition_at(toks, next + 1);
                            (Some(condition), end)
                        } else {
                            (None, next)
                        };
                        if kw_at(toks, next, Kw::On) {
                            lemma_condition_from(
                                toks,
                                next + 1,
                                0,
                                scan_start(offset_at(toks, next + 1)),
                            );
                        }
                        let joined = ast::JoinView { kind, source, on, offset: offset_at(toks, pos) };
                        lemma_joins(toks, end, depth, joins.push(joined));
                    },
                }
            }
        },
    }
}

proof fn lemma_selections(
    toks: Seq<lexer::TokenView>,
    pos: int,
    depth: int,
    queries: Seq<ast::QueryView>,
)
    requires
        0 <= pos <= toks.len(),
        0 <= depth <= MAX_DEPTH,
        queries_within(queries, room(depth)),
    ensures
        match selections_at(toks, pos, depth, queries) {
            Ok((v, next)) => pos <= next <= toks.len() && queries_within(v, room(depth)),
            Err(e) => e.message.len() > 0,
        },
    decreases toks.len() - pos, 1int,
{
    if kw_at(toks, pos, Kw::Select) {
        lemma_query(toks, pos, depth);
        match query_at(toks, pos, depth) {
            Ok((query, next)) => {
                lemma_selections(toks, next, depth, queries.push(query));
            },
            Err(_) => {},
        }
    }
}

proof fn lemma_from(toks: Seq<lexer::TokenView>, pos: int, depth: int)
    requires
        0 <= pos <= toks.len(),
        0 <= depth <= MAX_DEPTH,
    ensures
        match from_at(toks, pos, depth) {
            Ok((s, j, next)) => pos <= next <= toks.len() && sources_within(s, room(depth))
                && joins_within(j, room(depth)),
            Err(e) => e.message.len() > 0,
        },
    decreases toks.len() - pos, 0int,
{
    if kw_at(toks, pos, Kw::From) {
        lemma_source(toks, pos + 1, depth);
        match source_at(toks, pos + 1, depth) {
            Err(_) => {},
            Ok((source, next)) => {
                lemma_sources(toks, next, depth, seq![source]);
                match sources_at(toks, next, depth, seq![source]) {
                    Err(_) => {},
                    Ok((sources, end)) => {
                        lemma_joins(toks, end, depth, seq![]);
                    },
                }
            },
        }
    }
}

proof fn lemma_query(toks: Seq<lexer::TokenView>, pos: int, depth: int)
    requires
        0 <= pos <= toks.len(),
        0 <= depth <= MAX_DEPTH,
    ensures
        match query_at(toks, pos, depth) {
            Ok((q, next)) => advances(toks, pos, next) && query_within(q, room(depth)),
            Err(e) => e.message.len() > 0,
        },
    decreases toks.len() - pos, 0int,
{
    lemma_messages();
    if !kw_at(toks, pos, Kw::Drop) && kw_at(toks, pos, Kw::Select) {
        lemma_select_at(toks, pos + 1);
        let (select, p1) = select_at(toks, pos + 1);
        match into_at(toks, p1) {
            Err(_) => {},
            Ok((into, p2)) => {
                lemma_from(toks, p2, depth);
                match from_at(toks, p2, depth) {
                    Err(_) => {},
                    Ok((sources, joins, p3)) => {
                        if kw_at(toks, p3, Kw::Where) {
                            lemma_condition_from(toks, p3 + 1, 0, scan_start(offset_at(toks, p3 + 1)));
                        }
                        let (filter, p4) = where_at(toks, p3);
                        lemma_past_ignored(toks, p4);
                        lemma_index_at(toks, past_ignored(toks, p4));
                    },
                }
            },
        }
    }
}

proof fn lemma_queries(toks: Seq<lexer::TokenView>, pos: int, queries: Seq<ast::QueryView>)
    requires
        0 <= pos <= toks.len(),
        queries_within(queries, MAX_DEPTH as nat),
    ensures
        match queries_at(toks, pos, queries) {
            Ok(p) => p.queries.len() > 0 && queries_within(p.queries, MAX_DEPTH as nat),
            Err(e) => e.message.len() > 0,
        },
    decreases toks.len() - pos,
{
    lemma_messages();
    if pos < toks.len() {
        if sign_at(toks, pos, ';') {
            lemma_queries(toks, pos + 1, queries);
        } else {
            lemma_query(toks, pos, 0);
            match query_at(toks, pos, 0) {
                Ok((query, next)) => {
                    lemma_queries(toks, next, queries.push(query));
                },
                Err(_) => {},
            }
        }
    }
}

/// A text that is understood holds at least one query, in which subqueries stand at most
/// [`MAX_DEPTH`] deep; of a text that is not, the reason is given in words.
pub proof fn law_parse_outcome(src: Seq<char>)
    ensures
        match package_of(src) {
            Ok(p) => p.queries.len() > 0 && forall|k: int|
                0 <= k < p.queries.len() ==> query_within(#[trigger] p.queries[k], MAX_DEPTH as nat),
            Err(e) => e.message.len() > 0,
        },
{
    lemma_queries(lexer::lexemes(src), 0, seq![]);
}

} // verus!
