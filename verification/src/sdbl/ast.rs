//! The query tree: the part of a query that the rules on queries look at.
//!
//! Sources, joins, temporary tables and conditions are kept. Expressions are not:
//! of each one only the fields that it mentions and the presence of `OR` remain.
use crate::text;
use vstd::prelude::*;

verus! {

/// A name with the byte at which it stands in the query text.
#[derive(Debug, Clone, PartialEq, Eq)]
pub struct Named {
    pub name: String,
    pub offset: usize,
}

/// A field that an expression mentions: `Goods.Ref` is the path `["Goods", "Ref"]`.
#[derive(Debug, Clone, PartialEq, Eq)]
pub struct Field {
    pub path: Vec<String>,
    pub offset: usize,
}

/// An expression, reduced to the fields it mentions and the presence of `OR`.
#[derive(Debug, Clone, PartialEq, Eq)]
pub struct Condition {
    pub offset: usize,
    /// `OR` stands somewhere in the expression, at any depth of brackets.
    pub has_or: bool,
    /// `OR` stands outside all brackets, so that it splits the condition itself.
    pub has_top_level_or: bool,
    pub fields: Vec<Field>,
    /// The expression holds no lexeme at all.
    pub is_empty: bool,
}

/// A table of the configuration: `Catalog.Goods`, `AccumulationRegister.X.Balance(...)`.
#[derive(Debug, Clone, PartialEq, Eq)]
pub struct MetaTable {
    /// The kind of object as the query writes it.
    pub kind: String,
    pub name: String,
    /// The third segment: a virtual table of a register or a tabular section.
    pub sub_table: Option<String>,
    /// The parameters of the virtual table, one for each comma outside inner brackets.
    pub params: Vec<Condition>,
    /// Brackets stood behind the name, possibly empty ones.
    pub has_parens: bool,
    pub offset: usize,
}

/// What a source reads.
#[derive(Debug, PartialEq, Eq)]
pub enum Table {
    Meta(MetaTable),
    /// A temporary table: a name whose first part is no kind of object.
    Temp(Named),
    /// The name of the table is a parameter: what is read cannot be known from the text.
    Parameter(Named),
    /// A subquery in brackets, possibly several selections in a union.
    Subquery(Box<Package>),
}

/// A source of a query with its alias.
#[derive(Debug, PartialEq, Eq)]
pub struct Source {
    pub table: Table,
    pub alias: Option<Named>,
}

/// The kind of a join.
#[derive(Debug, Clone, Copy, PartialEq, Eq, Structural)]
pub enum JoinKind {
    Left,
    Right,
    Full,
    Inner,
}

/// A join: what is joined, and on what condition.
#[derive(Debug, PartialEq, Eq)]
pub struct Join {
    pub kind: JoinKind,
    pub source: Source,
    pub on: Option<Condition>,
    pub offset: usize,
}

/// One query of a package.
#[derive(Debug, PartialEq, Eq)]
pub struct Query {
    pub offset: usize,
    /// The temporary table that the query puts its result into.
    pub into: Option<Named>,
    /// The fields by which that table is indexed.
    pub index_fields: Vec<Named>,
    /// The sources of the section `FROM`: the first and those behind commas.
    pub sources: Vec<Source>,
    pub joins: Vec<Join>,
    /// The list of selected expressions.
    pub select: Option<Condition>,
    /// The condition of the section `WHERE`.
    pub filter: Option<Condition>,
    /// The temporary table that the query drops, where it is no selection.
    pub drop_table: Option<Named>,
}

/// The queries of one text.
#[derive(Debug, PartialEq, Eq)]
pub struct Package {
    pub queries: Vec<Query>,
}

impl Field {
    /// The part before the first dot: mostly the alias of a source.
    pub fn qualifier(&self) -> (r: Option<&str>)
        ensures
            match r {
                Some(q) => self.path.len() > 1 && q@ == self.path[0]@,
                None => self.path.len() <= 1,
            },
    {
        if self.path.len() > 1 {
            Some(self.path[0].as_str())
        } else {
            None
        }
    }

    /// The last part: the field itself. Empty where the path is.
    pub fn name(&self) -> (r: &str)
        ensures
            r@ == self@.field_name(),
    {
        if self.path.len() > 0 {
            self.path[self.path.len() - 1].as_str()
        } else {
            proof {
                reveal_strlit("");
            }
            let none = "";
            assert(none@ =~= Seq::<char>::empty());
            none
        }
    }
}

impl FieldView {
    /// The last part of the path; empty where the path is.
    pub open spec fn field_name(self) -> Seq<char> {
        if self.path.len() > 0 {
            self.path.last()
        } else {
            seq![]
        }
    }
}

impl Query {
    /// All sources of the query: those of the section `FROM`, then the joined ones.
    pub fn all_sources(&self) -> (r: Vec<&Source>)
        ensures
            r.len() == self.sources.len() + self.joins.len(),
            forall|i: int| 0 <= i < self.sources.len() ==> *(#[trigger] r[i]) == self.sources[i],
            forall|i: int|
                self.sources.len() <= i < r.len() ==> *(#[trigger] r[i]) == self.joins[i
                    - self.sources.len()].source,
            source_views(r@.map_values(|s: &Source| *s)) == query_view(*self).all_sources(),
    {
        let mut out: Vec<&Source> = Vec::new();
        let mut i: usize = 0;
        while i < self.sources.len()
            invariant
                i <= self.sources.len(),
                out.len() == i,
                forall|k: int| 0 <= k < i ==> *(#[trigger] out[k]) == self.sources[k],
            decreases self.sources.len() - i,
        {
            out.push(&self.sources[i]);
            i += 1;
        }
        let mut j: usize = 0;
        while j < self.joins.len()
            invariant
                j <= self.joins.len(),
                i == self.sources.len(),
                out.len() == i + j,
                forall|k: int| 0 <= k < i ==> *(#[trigger] out[k]) == self.sources[k],
                forall|k: int| i <= k < i + j ==> *(#[trigger] out[k]) == self.joins[k - i].source,
            decreases self.joins.len() - j,
        {
            out.push(&self.joins[j].source);
            j += 1;
        }
        assert(source_views(out@.map_values(|s: &Source| *s)) =~= query_view(*self).all_sources());
        out
    }
}

impl QueryView {
    /// All sources of the query: those of the section `FROM`, then the joined ones.
    pub open spec fn all_sources(self) -> Seq<SourceView> {
        self.sources + self.joins.map_values(|j: JoinView| j.source)
    }
}

/// The contents of a [`Named`].
#[verifier::ext_equal]
pub struct NamedView {
    pub name: Seq<char>,
    pub offset: nat,
}

/// The contents of a [`Field`].
#[verifier::ext_equal]
pub struct FieldView {
    pub path: Seq<Seq<char>>,
    pub offset: nat,
}

/// The contents of a [`Condition`].
#[verifier::ext_equal]
pub struct ConditionView {
    pub offset: nat,
    pub has_or: bool,
    pub has_top_level_or: bool,
    pub fields: Seq<FieldView>,
    pub is_empty: bool,
}

/// The contents of a [`MetaTable`].
#[verifier::ext_equal]
pub struct MetaTableView {
    pub kind: Seq<char>,
    pub name: Seq<char>,
    pub sub_table: Option<Seq<char>>,
    pub params: Seq<ConditionView>,
    pub has_parens: bool,
    pub offset: nat,
}

/// The contents of a [`Table`].
#[verifier::ext_equal]
pub enum TableView {
    Meta(MetaTableView),
    Temp(NamedView),
    Parameter(NamedView),
    Subquery(Box<PackageView>),
}

/// The contents of a [`Source`].
#[verifier::ext_equal]
pub struct SourceView {
    pub table: TableView,
    pub alias: Option<NamedView>,
}

/// The contents of a [`Join`].
#[verifier::ext_equal]
pub struct JoinView {
    pub kind: JoinKind,
    pub source: SourceView,
    pub on: Option<ConditionView>,
    pub offset: nat,
}

/// The contents of a [`Query`].
#[verifier::ext_equal]
pub struct QueryView {
    pub offset: nat,
    pub into: Option<NamedView>,
    pub index_fields: Seq<NamedView>,
    pub sources: Seq<SourceView>,
    pub joins: Seq<JoinView>,
    pub select: Option<ConditionView>,
    pub filter: Option<ConditionView>,
    pub drop_table: Option<NamedView>,
}

/// The contents of a [`Package`].
#[verifier::ext_equal]
pub struct PackageView {
    pub queries: Seq<QueryView>,
}

impl View for Named {
    type V = NamedView;

    open spec fn view(&self) -> NamedView {
        NamedView { name: self.name@, offset: self.offset as nat }
    }
}

impl View for Field {
    type V = FieldView;

    open spec fn view(&self) -> FieldView {
        FieldView { path: text::texts(self.path@), offset: self.offset as nat }
    }
}

/// The contents of a list of names.
pub open spec fn named_views(v: Seq<Named>) -> Seq<NamedView> {
    v.map_values(|n: Named| n@)
}

/// The contents of a list of fields.
pub open spec fn field_views(v: Seq<Field>) -> Seq<FieldView> {
    v.map_values(|f: Field| f@)
}

impl View for Condition {
    type V = ConditionView;

    open spec fn view(&self) -> ConditionView {
        ConditionView {
            offset: self.offset as nat,
            has_or: self.has_or,
            has_top_level_or: self.has_top_level_or,
            fields: field_views(self.fields@),
            is_empty: self.is_empty,
        }
    }
}

/// The contents of a list of conditions.
pub open spec fn condition_views(v: Seq<Condition>) -> Seq<ConditionView> {
    v.map_values(|c: Condition| c@)
}

/// The contents of an optional name.
pub open spec fn opt_named(o: Option<Named>) -> Option<NamedView> {
    match o {
        Some(n) => Some(n@),
        None => None,
    }
}

/// The contents of an optional condition.
pub open spec fn opt_condition(o: Option<Condition>) -> Option<ConditionView> {
    match o {
        Some(c) => Some(c@),
        None => None,
    }
}

impl View for MetaTable {
    type V = MetaTableView;

    open spec fn view(&self) -> MetaTableView {
        MetaTableView {
            kind: self.kind@,
            name: self.name@,
            sub_table: text::opt_text(self.sub_table),
            params: condition_views(self.params@),
            has_parens: self.has_parens,
            offset: self.offset as nat,
        }
    }
}

/// The contents of a table.
pub open spec fn table_view(t: Table) -> TableView
    decreases t,
{
    match t {
        Table::Meta(m) => TableView::Meta(m@),
        Table::Temp(n) => TableView::Temp(n@),
        Table::Parameter(n) => TableView::Parameter(n@),
        Table::Subquery(p) => TableView::Subquery(Box::new(package_view(*p))),
    }
}

/// The contents of a source.
pub open spec fn source_view(s: Source) -> SourceView
    decreases s,
{
    SourceView { table: table_view(s.table), alias: opt_named(s.alias) }
}

/// The contents of a join.
pub open spec fn join_view(j: Join) -> JoinView
    decreases j,
{
    JoinView {
        kind: j.kind,
        source: source_view(j.source),
        on: opt_condition(j.on),
        offset: j.offset as nat,
    }
}

/// The contents of a list of sources.
pub open spec fn source_views(v: Seq<Source>) -> Seq<SourceView>
    decreases v,
{
    Seq::new(
        v.len(),
        |i: int|
            if 0 <= i < v.len() {
                source_view(v[i])
            } else {
                arbitrary()
            },
    )
}

/// The contents of a list of joins.
pub open spec fn join_views(v: Seq<Join>) -> Seq<JoinView>
    decreases v,
{
    Seq::new(
        v.len(),
        |i: int|
            if 0 <= i < v.len() {
                join_view(v[i])
            } else {
                arbitrary()
            },
    )
}

/// The contents of a list of queries.
pub open spec fn query_views(v: Seq<Query>) -> Seq<QueryView>
    decreases v,
{
    Seq::new(
        v.len(),
        |i: int|
            if 0 <= i < v.len() {
                query_view(v[i])
            } else {
                arbitrary()
            },
    )
}

/// The contents of a query.
pub open spec fn query_view(q: Query) -> QueryView
    decreases q,
{
    QueryView {
        offset: q.offset as nat,
        into: opt_named(q.into),
        index_fields: named_views(q.index_fields@),
        sources: source_views(q.sources@),
        joins: join_views(q.joins@),
        select: opt_condition(q.select),
        filter: opt_condition(q.filter),
        drop_table: opt_named(q.drop_table),
    }
}

/// The contents of a package.
pub open spec fn package_view(p: Package) -> PackageView
    decreases p,
{
    PackageView { queries: query_views(p.queries@) }
}

impl View for Package {
    type V = PackageView;

    open spec fn view(&self) -> PackageView {
        package_view(*self)
    }
}

pub proof fn lemma_named_push(v: Seq<Named>, x: Named)
    ensures
        named_views(v.push(x)) == named_views(v).push(x@),
{
    assert(named_views(v.push(x)) =~= named_views(v).push(x@));
}

pub proof fn lemma_field_push(v: Seq<Field>, x: Field)
    ensures
        field_views(v.push(x)) == field_views(v).push(x@),
{
    assert(field_views(v.push(x)) =~= field_views(v).push(x@));
}

pub proof fn lemma_condition_push(v: Seq<Condition>, x: Condition)
    ensures
        condition_views(v.push(x)) == condition_views(v).push(x@),
{
    assert(condition_views(v.push(x)) =~= condition_views(v).push(x@));
}

pub proof fn lemma_source_push(v: Seq<Source>, x: Source)
    ensures
        source_views(v.push(x)) == source_views(v).push(source_view(x)),
{
    assert(source_views(v.push(x)) =~= source_views(v).push(source_view(x)));
}

pub proof fn lemma_join_push(v: Seq<Join>, x: Join)
    ensures
        join_views(v.push(x)) == join_views(v).push(join_view(x)),
{
    assert(join_views(v.push(x)) =~= join_views(v).push(join_view(x)));
}

pub proof fn lemma_query_push(v: Seq<Query>, x: Query)
    ensures
        query_views(v.push(x)) == query_views(v).push(query_view(x)),
{
    assert(query_views(v.push(x)) =~= query_views(v).push(query_view(x)));
}

} // verus!
