//! How well the queries of a module can be run.
//!
//! Such a query works and is correct; it is only slow. Of a query that is not understood
//! nothing is reported, and a rule on fields keeps silent where the fields are not known.
use crate::facts;
use crate::facts::QueryText;
use crate::findings;
use crate::findings::{add_finding, ExprError, ExprErrorKind};
use crate::lite_index::layout;
use crate::sdbl::ast;
use crate::sdbl::ast::{Condition, Join, MetaTable, Package, Query, Source, Table};
use crate::sdbl::parser;
use crate::sdbl::parser::parse;
use crate::symbols;
use crate::symbols::{find_field, ObjectSchema, SymbolSource};
use crate::text;
use crate::text::{chars_of, same_text, to_lower, to_upper};
use vstd::prelude::*;

verus! {

/// The collection of the objects of a kind, its name being in upper case.
pub open spec fn kind_collection(up: Seq<char>) -> Option<Seq<char>> {
    if up == "СПРАВОЧНИК"@ || up == "CATALOG"@ {
        Some("Catalogs"@)
    } else if up == "ДОКУМЕНТ"@ || up == "DOCUMENT"@ {
        Some("Documents"@)
    } else if up == "РЕГИСТРСВЕДЕНИЙ"@ || up == "INFORMATIONREGISTER"@ {
        Some("InformationRegisters"@)
    } else if up == "РЕГИСТРНАКОПЛЕНИЯ"@ || up == "ACCUMULATIONREGISTER"@ {
        Some("AccumulationRegisters"@)
    } else if up == "РЕГИСТРБУХГАЛТЕРИИ"@ || up == "ACCOUNTINGREGISTER"@ {
        Some("AccountingRegisters"@)
    } else if up == "РЕГИСТРРАСЧЕТА"@ || up == "CALCULATIONREGISTER"@ {
        Some("CalculationRegisters"@)
    } else if up == "ПЛАНВИДОВХАРАКТЕРИСТИК"@ || up == "CHARTOFCHARACTERISTICTYPES"@ {
        Some("ChartsOfCharacteristicTypes"@)
    } else if up == "ПЛАНСЧЕТОВ"@ || up == "CHARTOFACCOUNTS"@ {
        Some("ChartsOfAccounts"@)
    } else if up == "ПЛАНВИДОВРАСЧЕТА"@ || up == "CHARTOFCALCULATIONTYPES"@ {
        Some("ChartsOfCalculationTypes"@)
    } else if up == "БИЗНЕСПРОЦЕСС"@ || up == "BUSINESSPROCESS"@ {
        Some("BusinessProcesses"@)
    } else if up == "ЗАДАЧА"@ || up == "TASK"@ {
        Some("Tasks"@)
    } else if up == "ПЛАНОБМЕНА"@ || up == "EXCHANGEPLAN"@ {
        Some("ExchangePlans"@)
    } else if up == "ЖУРНАЛДОКУМЕНТОВ"@ || up == "DOCUMENTJOURNAL"@ {
        Some("DocumentJournals"@)
    } else {
        None
    }
}

fn collection_for_kind(kind: &str) -> (r: Option<&'static str>)
    ensures
        match r {
            Some(c) => kind_collection(text::uppercase(kind@)) == Some(c@),
            None => kind_collection(text::uppercase(kind@)) is None,
        },
{
    let up = to_upper(kind);
    let w = up.as_str();
    if same_text(w, "СПРАВОЧНИК") || same_text(w, "CATALOG") {
        Some("Catalogs")
    } else if same_text(w, "ДОКУМЕНТ") || same_text(w, "DOCUMENT") {
        Some("Documents")
    } else if same_text(w, "РЕГИСТРСВЕДЕНИЙ") || same_text(w, "INFORMATIONREGISTER") {
        Some("InformationRegisters")
    } else if same_text(w, "РЕГИСТРНАКОПЛЕНИЯ") || same_text(w, "ACCUMULATIONREGISTER") {
        Some("AccumulationRegisters")
    } else if same_text(w, "РЕГИСТРБУХГАЛТЕРИИ") || same_text(w, "ACCOUNTINGREGISTER") {
        Some("AccountingRegisters")
    } else if same_text(w, "РЕГИСТРРАСЧЕТА") || same_text(w, "CALCULATIONREGISTER") {
        Some("CalculationRegisters")
    } else if same_text(w, "ПЛАНВИДОВХАРАКТЕРИСТИК") || same_text(w, "CHARTOFCHARACTERISTICTYPES") {
        Some("ChartsOfCharacteristicTypes")
    } else if same_text(w, "ПЛАНСЧЕТОВ") || same_text(w, "CHARTOFACCOUNTS") {
        Some("ChartsOfAccounts")
    } else if same_text(w, "ПЛАНВИДОВРАСЧЕТА") || same_text(w, "CHARTOFCALCULATIONTYPES") {
        Some("ChartsOfCalculationTypes")
    } else if same_text(w, "БИЗНЕСПРОЦЕСС") || same_text(w, "BUSINESSPROCESS") {
        Some("BusinessProcesses")
    } else if same_text(w, "ЗАДАЧА") || same_text(w, "TASK") {
        Some("Tasks")
    } else if same_text(w, "ПЛАНОБМЕНА") || same_text(w, "EXCHANGEPLAN") {
        Some("ExchangePlans")
    } else if same_text(w, "ЖУРНАЛДОКУМЕНТОВ") || same_text(w, "DOCUMENTJOURNAL") {
        Some("DocumentJournals")
    } else {
        None
    }
}

/// The kinds of registers, in upper case.
pub open spec fn register_kind(up: Seq<char>) -> bool {
    ||| up == "РЕГИСТРСВЕДЕНИЙ"@
    ||| up == "INFORMATIONREGISTER"@
    ||| up == "РЕГИСТРНАКОПЛЕНИЯ"@
    ||| up == "ACCUMULATIONREGISTER"@
    ||| up == "РЕГИСТРБУХГАЛТЕРИИ"@
    ||| up == "ACCOUNTINGREGISTER"@
    ||| up == "РЕГИСТРРАСЧЕТА"@
    ||| up == "CALCULATIONREGISTER"@
}

/// Whether a kind of object is a register.
pub fn is_register(kind: &str) -> (r: bool)
    ensures
        r == register_kind(text::uppercase(kind@)),
{
    let up = to_upper(kind);
    let w = up.as_str();
    same_text(w, "РЕГИСТРСВЕДЕНИЙ")
        || same_text(w, "INFORMATIONREGISTER")
        || same_text(w, "РЕГИСТРНАКОПЛЕНИЯ")
        || same_text(w, "ACCUMULATIONREGISTER")
        || same_text(w, "РЕГИСТРБУХГАЛТЕРИИ")
        || same_text(w, "ACCOUNTINGREGISTER")
        || same_text(w, "РЕГИСТРРАСЧЕТА")
        || same_text(w, "CALCULATIONREGISTER")
}

/// The number of the parameter that is the condition of a virtual table, its name being in
/// upper case. Other names are no virtual tables.
pub open spec fn condition_parameter(up: Seq<char>) -> Option<int> {
    if up == "ОСТАТКИ"@ || up == "BALANCE"@ || up == "СРЕЗПОСЛЕДНИХ"@ || up == "SLICELAST"@ || up
        == "СРЕЗПЕРВЫХ"@ || up == "SLICEFIRST"@ {
        Some(1)
    } else if up == "ОБОРОТЫ"@ || up == "TURNOVERS"@ {
        Some(3)
    } else if up == "ОСТАТКИИОБОРОТЫ"@ || up == "BALANCEANDTURNOVERS"@ {
        Some(4)
    } else {
        None
    }
}

/// Whether a name is that of a virtual table of a register.
pub fn is_virtual_table(name: &str) -> (r: bool)
    ensures
        r == (condition_parameter(text::uppercase(name@)) is Some),
{
    filter_param_index(name).is_some()
}

fn filter_param_index(virtual_table: &str) -> (r: Option<usize>)
    ensures
        match r {
            Some(i) => condition_parameter(text::uppercase(virtual_table@)) == Some(i as int),
            None => condition_parameter(text::uppercase(virtual_table@)) is None,
        },
{
    let up = to_upper(virtual_table);
    let w = up.as_str();
    if same_text(w, "ОСТАТКИ") || same_text(w, "BALANCE") || same_text(w, "СРЕЗПОСЛЕДНИХ") || same_text(
        w,
        "SLICELAST",
    ) || same_text(w, "СРЕЗПЕРВЫХ") || same_text(w, "SLICEFIRST") {
        Some(1)
    } else if same_text(w, "ОБОРОТЫ") || same_text(w, "TURNOVERS") {
        Some(3)
    } else if same_text(w, "ОСТАТКИИОБОРОТЫ") || same_text(w, "BALANCEANDTURNOVERS") {
        Some(4)
    } else {
        None
    }
}

/// Fields, in lower case, by which the platform always keeps an index.
pub open spec fn standard_indexed(lower: Seq<char>) -> bool {
    ||| lower == "ссылка"@
    ||| lower == "ref"@
    ||| lower == "код"@
    ||| lower == "code"@
    ||| lower == "наименование"@
    ||| lower == "description"@
    ||| lower == "владелец"@
    ||| lower == "owner"@
    ||| lower == "родитель"@
    ||| lower == "parent"@
    ||| lower == "дата"@
    ||| lower == "date"@
    ||| lower == "номер"@
    ||| lower == "number"@
    ||| lower == "период"@
    ||| lower == "period"@
    ||| lower == "регистратор"@
    ||| lower == "recorder"@
    ||| lower == "номерстроки"@
    ||| lower == "linenumber"@
    ||| lower == "счетдт"@
    ||| lower == "счеткт"@
}

fn is_standard_indexed_field(lower: &str) -> (r: bool)
    ensures
        r == standard_indexed(lower@),
{
    same_text(lower, "ссылка")
        || same_text(lower, "ref")
        || same_text(lower, "код")
        || same_text(lower, "code")
        || same_text(lower, "наименование")
        || same_text(lower, "description")
        || same_text(lower, "владелец")
        || same_text(lower, "owner")
        || same_text(lower, "родитель")
        || same_text(lower, "parent")
        || same_text(lower, "дата")
        || same_text(lower, "date")
        || same_text(lower, "номер")
        || same_text(lower, "number")
        || same_text(lower, "период")
        || same_text(lower, "period")
        || same_text(lower, "регистратор")
        || same_text(lower, "recorder")
        || same_text(lower, "номерстроки")
        || same_text(lower, "linenumber")
        || same_text(lower, "счетдт")
        || same_text(lower, "счеткт")
}

/// Fields, in lower case, that only the movements of a register have.
pub open spec fn movement_field(lower: Seq<char>) -> bool {
    ||| lower == "регистратор"@
    ||| lower == "recorder"@
    ||| lower == "период"@
    ||| lower == "period"@
    ||| lower == "номерстроки"@
    ||| lower == "linenumber"@
    ||| lower == "активность"@
    ||| lower == "active"@
    ||| lower == "виддвижения"@
    ||| lower == "recordtype"@
}

fn is_movement_field(lower: &str) -> (r: bool)
    ensures
        r == movement_field(lower@),
{
    same_text(lower, "регистратор")
        || same_text(lower, "recorder")
        || same_text(lower, "период")
        || same_text(lower, "period")
        || same_text(lower, "номерстроки")
        || same_text(lower, "linenumber")
        || same_text(lower, "активность")
        || same_text(lower, "active")
        || same_text(lower, "виддвижения")
        || same_text(lower, "recordtype")
}

/// A name that is filled in when the query runs.
pub open spec fn template_name(name: Seq<char>) -> bool {
    name.contains('%') || name.contains('#')
}

fn is_template_name(name: &str) -> (r: bool)
    ensures
        r == template_name(name@),
{
    let chars = chars_of(name);
    let mut i: usize = 0;
    while i < chars.len()
        invariant
            chars@ == name@,
            i <= chars.len(),
            forall|k: int| 0 <= k < i ==> #[trigger] name@[k] != '%' && name@[k] != '#',
        decreases chars.len() - i,
    {
        if chars[i] == '%' || chars[i] == '#' {
            assert(name@[i as int] == chars[i as int]);
            return true;
        }
        i += 1;
    }
    false
}

/// What the rules on a query look at beside the query itself.
pub struct QueryContext {
    /// The text of the module.
    pub src: Seq<char>,
    /// Where the pieces of the query text stand in it.
    pub spans: Seq<facts::TextSpan>,
    /// All queries of the package.
    pub package: Seq<ast::QueryView>,
    /// What the source of names answers.
    pub answers: Option<symbols::Answers>,
}

impl QueryContext {
    /// A finding at a byte of the query text.
    pub open spec fn finding(self, offset: nat, kind: ExprErrorKind, message: Seq<char>) -> findings::FindingView {
        findings::finding_at(
            self.src,
            facts::module_byte(self.spans, offset),
            kind,
            message,
            findings::kind_confidence(kind),
            None,
        )
    }

    /// The fields of the object that a table reads, where they are known.
    pub open spec fn schema(self, meta: ast::MetaTableView) -> Option<symbols::SchemaView> {
        match self.answers {
            None => None,
            Some(a) => if template_name(meta.name) {
                None
            } else {
                match kind_collection(text::uppercase(meta.kind)) {
                    None => None,
                    Some(c) => (a.schema)(c, text::lowercase(meta.name)),
                }
            },
        }
    }
}

/// The module and the query text that the rules work on.
struct RuleInput<'a, S: SymbolSource> {
    src: &'a str,
    text: &'a QueryText,
    package: &'a Package,
    symbols: Option<&'a S>,
}

impl<'a, S: SymbolSource> RuleInput<'a, S> {
    spec fn context(&self) -> QueryContext {
        QueryContext {
            src: self.src@,
            spans: self.text.spans@,
            package: ast::query_views(self.package.queries@),
            answers: symbols::answers_of(self.symbols),
        }
    }

    fn emit(&self, offset: usize, kind: ExprErrorKind, message: String) -> (r: ExprError)
        requires
            findings::countable(self.src@),
        ensures
            r@ == self.context().finding(offset as nat, kind, message@),
    {
        let byte = self.text.map_offset(offset);
        ExprError::at(self.src, byte, kind, message, kind.confidence(), None)
    }

    fn schema_of(&self, meta: &MetaTable) -> (r: Option<ObjectSchema>)
        ensures
            match r {
                Some(s) => self.context().schema(meta@) == Some(s@),
                None => self.context().schema(meta@) is None,
            },
    {
        let source = match self.symbols {
            Some(s) => s,
            None => return None,
        };
        if is_template_name(meta.name.as_str()) {
            return None;
        }
        match collection_for_kind(meta.kind.as_str()) {
            Some(c) => source.object_schema(c, to_lower(meta.name.as_str()).as_str()),
            None => None,
        }
    }
}

/// The join puts a temporary table with a lower-case name to the query.
pub open spec fn joins_table(j: ast::JoinView, key: Seq<char>) -> bool {
    j.source.table matches ast::TableView::Temp(n) && text::lowercase(n.name) == key
}

/// A temporary table with a lower-case name is joined in the query or in a subquery of it.
pub open spec fn joined_in_query(q: ast::QueryView, key: Seq<char>) -> bool
    decreases q, 0int,
{
    joined_in_joins(q.joins, key, q.joins.len() as int) || joined_in_sources(
        q.sources,
        key,
        q.sources.len() as int,
    )
}

/// A temporary table with a lower-case name is joined by the first `n` joins, or in subqueries
/// among them.
pub open spec fn joined_in_joins(v: Seq<ast::JoinView>, key: Seq<char>, n: int) -> bool
    decreases v, n,
{
    0 < n <= v.len() && (joined_in_joins(v, key, n - 1) || joins_table(v[n - 1], key) || joined_in_table(
        v[n - 1].source.table,
        key,
    ))
}

/// A temporary table with a lower-case name is joined in subqueries among the first `n` sources.
pub open spec fn joined_in_sources(v: Seq<ast::SourceView>, key: Seq<char>, n: int) -> bool
    decreases v, n,
{
    0 < n <= v.len() && (joined_in_sources(v, key, n - 1) || joined_in_table(v[n - 1].table, key))
}

/// A temporary table with a lower-case name is joined in a subquery.
pub open spec fn joined_in_table(t: ast::TableView, key: Seq<char>) -> bool
    decreases t, 0int,
{
    match t {
        ast::TableView::Subquery(p) => joined_in_queries(p.queries, key, p.queries.len() as int),
        _ => false,
    }
}

/// A temporary table with a lower-case name is joined in the first `n` queries.
pub open spec fn joined_in_queries(v: Seq<ast::QueryView>, key: Seq<char>, n: int) -> bool
    decreases v, n,
{
    0 < n <= v.len() && (joined_in_queries(v, key, n - 1) || joined_in_query(v[n - 1], key))
}

/// A temporary table with a lower-case name is joined somewhere in the package.
pub open spec fn joined_somewhere(queries: Seq<ast::QueryView>, key: Seq<char>) -> bool {
    joined_in_queries(queries, key, queries.len() as int)
}

fn is_joined_in_table(t: &Table, key: &str) -> (r: bool)
    ensures
        r == joined_in_table(ast::table_view(*t), key@),
    decreases t, 0int,
{
    match t {
        Table::Subquery(p) => is_joined_in_queries(&p.queries, key),
        _ => false,
    }
}

fn is_joined_in_queries(queries: &Vec<Query>, key: &str) -> (r: bool)
    ensures
        r == joined_in_queries(ast::query_views(queries@), key@, queries.len() as int),
    decreases queries, 1int,
{
    let ghost views = ast::query_views(queries@);
    let mut found = false;
    let mut k: usize = 0;
    while k < queries.len()
        invariant
            views == ast::query_views(queries@),
            k <= queries.len(),
            found == joined_in_queries(views, key@, k as int),
        decreases queries.len() - k,
    {
        assert(views[k as int] == ast::query_view(queries@[k as int]));
        found = is_joined_in_query(&queries[k], key) || found;
        k += 1;
    }
    found
}

fn is_joined_in_query(q: &Query, key: &str) -> (r: bool)
    ensures
        r == joined_in_query(ast::query_view(*q), key@),
    decreases q, 0int,
{
    let ghost v = ast::query_view(*q);
    let mut found = false;
    let mut i: usize = 0;
    while i < q.joins.len()
        invariant
            v == ast::query_view(*q),
            i <= q.joins.len(),
            found == joined_in_joins(v.joins, key@, i as int),
        decreases q.joins.len() - i,
    {
        assert(v.joins[i as int] == ast::join_view(q.joins@[i as int]));
        if let Table::Temp(n) = &q.joins[i].source.table {
            if same_text(to_lower(n.name.as_str()).as_str(), key) {
                found = true;
            }
        }
        found = is_joined_in_table(&q.joins[i].source.table, key) || found;
        i += 1;
    }
    let mut nested = false;
    let mut k: usize = 0;
    while k < q.sources.len()
        invariant
            v == ast::query_view(*q),
            k <= q.sources.len(),
            nested == joined_in_sources(v.sources, key@, k as int),
        decreases q.sources.len() - k,
    {
        assert(v.sources[k as int] == ast::source_view(q.sources@[k as int]));
        nested = is_joined_in_table(&q.sources[k].table, key) || nested;
        k += 1;
    }
    found || nested
}

/// What is said of a temporary table that is joined without an index.
pub open spec fn temp_table_message(name: Seq<char>) -> Seq<char> {
    "Временная таблица «"@ + name
        + "» участвует в соединении, но не индексирована. Платформа выполнит соединение перебором. Добавьте ИНДЕКСИРОВАТЬ ПО полям, по которым идёт соединение."@
}

/// The query makes a temporary table without an index, and it is joined in the package.
pub open spec fn temp_table_finding(c: QueryContext, q: ast::QueryView) -> Option<findings::FindingView> {
    match q.into {
        Some(into) => if q.index_fields.len() == 0 && !template_name(into.name) && joined_somewhere(
            c.package,
            text::lowercase(into.name),
        ) {
            Some(
                c.finding(
                    into.offset,
                    ExprErrorKind::TempTableWithoutIndex,
                    temp_table_message(into.name),
                ),
            )
        } else {
            None
        },
        None => None,
    }
}

/// The field belongs to the source with a lower-case alias, or to no source by name.
pub open spec fn belongs(f: ast::FieldView, alias: Seq<char>) -> bool {
    f.path.len() > 1 ==> text::lowercase(f.path[0]) == alias
}

/// The field can only be read from the movements of the register.
pub open spec fn only_in_movements(f: ast::FieldView, alias: Seq<char>, schema: symbols::SchemaView) -> bool {
    let name = text::lowercase(f.field_name());
    belongs(f, alias) && (movement_field(name) || symbols::some_field(schema.attributes, name))
}

/// The expression mentions a field that can only be read from the movements.
pub open spec fn mentions_movements(
    c: ast::ConditionView,
    alias: Seq<char>,
    schema: symbols::SchemaView,
) -> bool {
    exists|i: int| 0 <= i < c.fields.len() && only_in_movements(#[trigger] c.fields[i], alias, schema)
}

/// The query needs fields that only the movements of the register have. Without an alias that
/// cannot be told, and counts as a need.
pub open spec fn needs_movements(
    q: ast::QueryView,
    source: ast::SourceView,
    schema: symbols::SchemaView,
) -> bool {
    match source.alias {
        None => true,
        Some(n) => {
            let alias = text::lowercase(n.name);
            ||| (q.select matches Some(c) && mentions_movements(c, alias, schema))
            ||| (q.filter matches Some(c) && mentions_movements(c, alias, schema))
            ||| exists|i: int|
                0 <= i < q.joins.len() && ((#[trigger] q.joins[i]).on matches Some(c)
                    && mentions_movements(c, alias, schema))
        },
    }
}

/// What is said of the physical table of a register of balances.
pub open spec fn physical_message(meta: ast::MetaTableView) -> Seq<char> {
    "Чтение физической таблицы движений регистра остатков «"@ + meta.name
        + "». Измерения в её кластерный индекс не входят, поэтому отбор идёт полным просмотром. Используйте виртуальную таблицу "@
        + meta.kind + "."@ + meta.name
        + ".Остатки (или .ОстаткиИОбороты) — она читает таблицу итогов, где измерения проиндексированы."@
}

/// What is said of a virtual table without a condition on a dimension.
pub open spec fn unfiltered_message(meta: ast::MetaTableView, sub: Seq<char>) -> Seq<char> {
    "Виртуальная таблица "@ + meta.kind + "."@ + meta.name + "."@ + sub
        + " вызвана без отбора по измерениям. Платформа рассчитает итоги по всему регистру, а лишние строки отсеются уже после. Перенесите условие в параметры виртуальной таблицы."@
}

/// The condition filters by a dimension.
pub open spec fn by_dimension(c: ast::ConditionView, schema: symbols::SchemaView) -> bool {
    exists|i: int|
        0 <= i < c.fields.len() && symbols::some_field(
            schema.dimensions,
            text::lowercase((#[trigger] c.fields[i]).field_name()),
        )
}

/// The virtual table is read without a condition on a dimension. A condition that mentions no
/// field may come in as a parameter, and one whose fields are not known may filter well: then
/// nothing is reported.
pub open spec fn virtual_finding(
    c: QueryContext,
    meta: ast::MetaTableView,
    sub: Seq<char>,
) -> Option<findings::FindingView> {
    match condition_parameter(text::uppercase(sub)) {
        None => None,
        Some(i) => {
            let report = Some(
                c.finding(
                    meta.offset,
                    ExprErrorKind::VirtualTableWithoutFilter,
                    unfiltered_message(meta, sub),
                ),
            );
            if i < meta.params.len() && !meta.params[i].is_empty {
                if meta.params[i].fields.len() == 0 {
                    None
                } else {
                    match c.schema(meta) {
                        None => None,
                        Some(schema) => if by_dimension(meta.params[i], schema) {
                            None
                        } else {
                            report
                        },
                    }
                }
            } else {
                report
            }
        },
    }
}

/// The finding that a source makes which reads a register: a virtual table without a condition
/// on a dimension, or the movements of a register of balances where the balances would do.
pub open spec fn register_finding(
    c: QueryContext,
    q: ast::QueryView,
    source: ast::SourceView,
) -> Option<findings::FindingView> {
    match source.table {
        ast::TableView::Meta(meta) => if !register_kind(text::uppercase(meta.kind)) {
            None
        } else {
            match meta.sub_table {
                Some(sub) => virtual_finding(c, meta, sub),
                None => match c.schema(meta) {
                    Some(schema) => if schema.balance() && !needs_movements(q, source, schema) {
                        Some(
                            c.finding(
                                meta.offset,
                                ExprErrorKind::PhysicalRegisterTable,
                                physical_message(meta),
                            ),
                        )
                    } else {
                        None
                    },
                    None => None,
                },
            }
        },
        _ => None,
    }
}

/// The findings of the first `n` sources that read registers.
pub open spec fn register_findings(c: QueryContext, q: ast::QueryView, n: int) -> Seq<findings::FindingView>
    decreases n,
{
    if n <= 0 {
        seq![]
    } else {
        register_findings(c, q, n - 1) + findings::some_finding(
            register_finding(c, q, q.all_sources()[n - 1]),
        )
    }
}

/// A field of the joined table, its alias being in lower case.
pub open spec fn field_of_alias(f: ast::FieldView, alias: Seq<char>) -> bool {
    f.path.len() == 2 && text::lowercase(f.path[0]) == alias
}

/// The platform keeps an index by the field of the joined table.
pub open spec fn indexed_field(f: ast::FieldView, schema: symbols::SchemaView) -> bool {
    let name = text::lowercase(f.field_name());
    standard_indexed(name) || (schema.field(name) matches Some(info) && info.indexing is Some)
}

/// The field by which the joined table is searched without an index: the first known one from
/// `i` on (or `first`, found before it), unless some field has an index.
pub open spec fn unindexed_from(
    fields: Seq<ast::FieldView>,
    i: int,
    alias: Seq<char>,
    schema: symbols::SchemaView,
    first: Option<ast::FieldView>,
) -> Option<ast::FieldView>
    decreases fields.len() - i,
{
    if i < 0 || i >= fields.len() {
        first
    } else if !field_of_alias(fields[i], alias) {
        unindexed_from(fields, i + 1, alias, schema, first)
    } else if indexed_field(fields[i], schema) {
        None
    } else if first is None && schema.field(text::lowercase(fields[i].field_name())) is Some {
        unindexed_from(fields, i + 1, alias, schema, Some(fields[i]))
    } else {
        unindexed_from(fields, i + 1, alias, schema, first)
    }
}

/// What is said of a join by a field without an index.
pub open spec fn unindexed_message(meta: ast::MetaTableView, field: ast::FieldView) -> Seq<char> {
    "Соединение с «"@ + meta.kind + "."@ + meta.name + "» идёт по полю «"@ + field.field_name()
        + "», у которого нет ни стандартного индекса, ни свойства «Индексировать». Поиск в присоединяемой таблице пойдёт полным просмотром. Установите «Индексировать» либо соединяйте по ссылке."@
}

/// The finding that a join makes whose table is searched without an index. Registers are left
/// out.
pub open spec fn join_field_finding(c: QueryContext, j: ast::JoinView) -> Option<findings::FindingView> {
    match (j.on, j.source.table, j.source.alias) {
        (Some(on), ast::TableView::Meta(meta), Some(alias)) => if register_kind(
            text::uppercase(meta.kind),
        ) {
            None
        } else {
            match c.schema(meta) {
                None => None,
                Some(schema) => match unindexed_from(
                    on.fields,
                    0,
                    text::lowercase(alias.name),
                    schema,
                    None,
                ) {
                    None => None,
                    Some(field) => Some(
                        c.finding(
                            field.offset,
                            ExprErrorKind::JoinOnUnindexedField,
                            unindexed_message(meta, field),
                        ),
                    ),
                },
            }
        },
        _ => None,
    }
}

/// The findings of the first `n` joins by fields without an index.
pub open spec fn join_field_findings(c: QueryContext, q: ast::QueryView, n: int) -> Seq<
    findings::FindingView,
>
    decreases n,
{
    if n <= 0 {
        seq![]
    } else {
        join_field_findings(c, q, n - 1) + findings::some_finding(join_field_finding(c, q.joins[n - 1]))
    }
}

/// What is said of `OR` in the condition of a join.
pub open spec fn or_message() -> Seq<char> {
    "В условии соединения (ПО) используется ИЛИ. Оптимизатор не сможет применить индекс и будет перебирать соединяемые наборы целиком. Разделите условие на несколько соединений либо объедините выборки через ОБЪЕДИНИТЬ ВСЕ."@
}

/// What is said of a join with a subquery.
pub open spec fn subquery_message() -> Seq<char> {
    "Соединение с подзапросом: подзапрос не индексируется и будет вычислен заново при соединении. Вынесите его во временную таблицу (ПОМЕСТИТЬ) с ИНДЕКСИРОВАТЬ ПО полю соединения."@
}

/// `OR` outside brackets splits the condition of the join.
pub open spec fn or_finding(c: QueryContext, j: ast::JoinView) -> Option<findings::FindingView> {
    if j.on matches Some(on) && on.has_top_level_or {
        Some(c.finding(j.offset, ExprErrorKind::OrInJoinCondition, or_message()))
    } else {
        None
    }
}

/// A subquery is joined.
pub open spec fn subquery_finding(c: QueryContext, j: ast::JoinView) -> Option<findings::FindingView> {
    if j.source.table is Subquery {
        Some(c.finding(j.offset, ExprErrorKind::JoinWithSubquery, subquery_message()))
    } else {
        None
    }
}

/// The findings of the shape of the first `n` joins.
pub open spec fn join_findings(c: QueryContext, q: ast::QueryView, n: int) -> Seq<findings::FindingView>
    decreases n,
{
    if n <= 0 {
        seq![]
    } else {
        join_findings(c, q, n - 1) + findings::some_finding(or_finding(c, q.joins[n - 1]))
            + findings::some_finding(subquery_finding(c, q.joins[n - 1]))
    }
}

/// The findings of a query without those of its subqueries.
pub open spec fn own_findings(c: QueryContext, q: ast::QueryView) -> Seq<findings::FindingView> {
    findings::some_finding(temp_table_finding(c, q)) + register_findings(
        c,
        q,
        q.all_sources().len() as int,
    ) + join_field_findings(c, q, q.joins.len() as int) + join_findings(c, q, q.joins.len() as int)
}

/// The findings of a query and of its subqueries.
pub open spec fn query_findings(c: QueryContext, q: ast::QueryView) -> Seq<findings::FindingView>
    decreases q, 0int,
{
    own_findings(c, q) + source_table_findings(c, q.sources, q.sources.len() as int)
        + join_table_findings(c, q.joins, q.joins.len() as int)
}

/// The findings of the subqueries among the first `n` sources.
pub open spec fn source_table_findings(c: QueryContext, v: Seq<ast::SourceView>, n: int) -> Seq<
    findings::FindingView,
>
    decreases v, n,
{
    if n <= 0 || n > v.len() {
        seq![]
    } else {
        source_table_findings(c, v, n - 1) + table_findings(c, v[n - 1].table)
    }
}

/// The findings of the subqueries among the first `n` joins.
pub open spec fn join_table_findings(c: QueryContext, v: Seq<ast::JoinView>, n: int) -> Seq<
    findings::FindingView,
>
    decreases v, n,
{
    if n <= 0 || n > v.len() {
        seq![]
    } else {
        join_table_findings(c, v, n - 1) + table_findings(c, v[n - 1].source.table)
    }
}

/// The findings of a table, where it is a subquery.
pub open spec fn table_findings(c: QueryContext, t: ast::TableView) -> Seq<findings::FindingView>
    decreases t, 0int,
{
    match t {
        ast::TableView::Subquery(p) => queries_findings(c, p.queries, p.queries.len() as int),
        _ => seq![],
    }
}

/// The findings of the first `n` queries.
pub open spec fn queries_findings(c: QueryContext, v: Seq<ast::QueryView>, n: int) -> Seq<
    findings::FindingView,
>
    decreases v, n,
{
    if n <= 0 || n > v.len() {
        seq![]
    } else {
        queries_findings(c, v, n - 1) + query_findings(c, v[n - 1])
    }
}

/// The findings of a query text of a module. A text that is not understood makes none.
pub open spec fn text_findings(
    src: Seq<char>,
    query: QueryText,
    answers: Option<symbols::Answers>,
) -> Seq<findings::FindingView> {
    match parser::package_of(query.text@) {
        Ok(p) => queries_findings(
            QueryContext { src, spans: query.spans@, package: p.queries, answers },
            p.queries,
            p.queries.len() as int,
        ),
        Err(_) => seq![],
    }
}

/// The findings of the first `n` query texts of a module.
pub open spec fn all_text_findings(
    src: Seq<char>,
    queries: Seq<QueryText>,
    answers: Option<symbols::Answers>,
    n: int,
) -> Seq<findings::FindingView>
    decreases n,
{
    if n <= 0 {
        seq![]
    } else {
        all_text_findings(src, queries, answers, n - 1) + text_findings(src, queries[n - 1], answers)
    }
}

impl<'a, S: SymbolSource> RuleInput<'a, S> {
    spec fn wf(&self) -> bool {
        findings::countable(self.src@)
    }

    fn check_temp_table_index(&self, query: &Query) -> (r: Option<ExprError>)
        requires
            self.wf(),
        ensures
            findings::opt_finding(r) == temp_table_finding(self.context(), ast::query_view(*query)),
    {
        let into = match &query.into {
            Some(into) => into,
            None => return None,
        };
        if query.index_fields.len() > 0 || is_template_name(into.name.as_str()) {
            return None;
        }
        if !is_joined_in_queries(&self.package.queries, to_lower(into.name.as_str()).as_str()) {
            return None;
        }
        let mut message = "Временная таблица «".to_owned();
        message.append(into.name.as_str());
        message.append(
            "» участвует в соединении, но не индексирована. Платформа выполнит соединение перебором. Добавьте ИНДЕКСИРОВАТЬ ПО полям, по которым идёт соединение.",
        );
        Some(self.emit(into.offset, ExprErrorKind::TempTableWithoutIndex, message))
    }

    fn check_virtual_table_filter(&self, meta: &MetaTable, sub: &str) -> (r: Option<ExprError>)
        requires
            self.wf(),
        ensures
            findings::opt_finding(r) == virtual_finding(self.context(), meta@, sub@),
    {
        let index = match filter_param_index(sub) {
            Some(i) => i,
            None => return None,
        };
        if index < meta.params.len() && !meta.params[index].is_empty {
            let filter = &meta.params[index];
            assert(meta@.params[index as int] == filter@);
            if filter.fields.len() == 0 {
                return None;
            }
            match self.schema_of(meta) {
                None => return None,
                Some(schema) => {
                    if filters_by_dimension(filter, &schema) {
                        return None;
                    }
                },
            }
        }
        let mut message = "Виртуальная таблица ".to_owned();
        message.append(meta.kind.as_str());
        message.append(".");
        message.append(meta.name.as_str());
        message.append(".");
        message.append(sub);
        message.append(
            " вызвана без отбора по измерениям. Платформа рассчитает итоги по всему регистру, а лишние строки отсеются уже после. Перенесите условие в параметры виртуальной таблицы.",
        );
        Some(self.emit(meta.offset, ExprErrorKind::VirtualTableWithoutFilter, message))
    }

    fn check_register_table(&self, query: &Query, source: &Source) -> (r: Option<ExprError>)
        requires
            self.wf(),
        ensures
            findings::opt_finding(r) == register_finding(
                self.context(),
                ast::query_view(*query),
                ast::source_view(*source),
            ),
    {
        let meta = match &source.table {
            Table::Meta(meta) => meta,
            _ => return None,
        };
        if !is_register(meta.kind.as_str()) {
            return None;
        }
        match &meta.sub_table {
            Some(sub) => self.check_virtual_table_filter(meta, sub.as_str()),
            None => {
                let schema = match self.schema_of(meta) {
                    Some(s) => s,
                    None => return None,
                };
                if !schema.is_balance_register() || needs_movement_fields(query, source, &schema) {
                    return None;
                }
                let mut message = "Чтение физической таблицы движений регистра остатков «".to_owned();
                message.append(meta.name.as_str());
                message.append(
                    "». Измерения в её кластерный индекс не входят, поэтому отбор идёт полным просмотром. Используйте виртуальную таблицу ",
                );
                message.append(meta.kind.as_str());
                message.append(".");
                message.append(meta.name.as_str());
                message.append(
                    ".Остатки (или .ОстаткиИОбороты) — она читает таблицу итогов, где измерения проиндексированы.",
                );
                Some(self.emit(meta.offset, ExprErrorKind::PhysicalRegisterTable, message))
            },
        }
    }

    fn check_register_tables(&self, query: &Query, errors: &mut Vec<ExprError>)
        requires
            self.wf(),
        ensures
            findings::finding_views(final(errors)@) == findings::finding_views(old(errors)@)
                + register_findings(
                self.context(),
                ast::query_view(*query),
                ast::query_view(*query).all_sources().len() as int,
            ),
    {
        let ghost c = self.context();
        let ghost q = ast::query_view(*query);
        let ghost start = findings::finding_views(errors@);
        assert(start + Seq::<findings::FindingView>::empty() =~= start);
        let sources = query.all_sources();
        let mut i: usize = 0;
        while i < sources.len()
            invariant
                self.wf(),
                c == self.context(),
                q == ast::query_view(*query),
                ast::source_views(sources@.map_values(|s: &Source| *s)) == q.all_sources(),
                sources.len() == q.all_sources().len(),
                i <= sources.len(),
                findings::finding_views(errors@) == start + register_findings(c, q, i as int),
            decreases sources.len() - i,
        {
            let ghost before = register_findings(c, q, i as int);
            assert(q.all_sources()[i as int] == ast::source_view(*sources@[i as int]));
            let found = self.check_register_table(query, sources[i]);
            let ghost one = findings::some_finding(findings::opt_finding(found));
            add_finding(errors, found);
            assert((start + before) + one =~= start + (before + one));
            i += 1;
        }
    }

    fn check_join_field(&self, join: &Join) -> (r: Option<ExprError>)
        requires
            self.wf(),
        ensures
            findings::opt_finding(r) == join_field_finding(self.context(), ast::join_view(*join)),
    {
        let on = match &join.on {
            Some(on) => on,
            None => return None,
        };
        let meta = match &join.source.table {
            Table::Meta(meta) => meta,
            _ => return None,
        };
        let alias = match &join.source.alias {
            Some(alias) => alias,
            None => return None,
        };
        if is_register(meta.kind.as_str()) {
            return None;
        }
        let schema = match self.schema_of(meta) {
            Some(s) => s,
            None => return None,
        };
        let field = match find_unindexed(on, to_lower(alias.name.as_str()).as_str(), &schema) {
            Some(i) => &on.fields[i],
            None => return None,
        };
        let mut message = "Соединение с «".to_owned();
        message.append(meta.kind.as_str());
        message.append(".");
        message.append(meta.name.as_str());
        message.append("» идёт по полю «");
        message.append(field.name());
        message.append(
            "», у которого нет ни стандартного индекса, ни свойства «Индексировать». Поиск в присоединяемой таблице пойдёт полным просмотром. Установите «Индексировать» либо соединяйте по ссылке.",
        );
        Some(self.emit(field.offset, ExprErrorKind::JoinOnUnindexedField, message))
    }

    fn check_join_fields(&self, query: &Query, errors: &mut Vec<ExprError>)
        requires
            self.wf(),
        ensures
            findings::finding_views(final(errors)@) == findings::finding_views(old(errors)@)
                + join_field_findings(
                self.context(),
                ast::query_view(*query),
                query.joins.len() as int,
            ),
    {
        let ghost c = self.context();
        let ghost q = ast::query_view(*query);
        let ghost start = findings::finding_views(errors@);
        assert(start + Seq::<findings::FindingView>::empty() =~= start);
        let mut i: usize = 0;
        while i < query.joins.len()
            invariant
                self.wf(),
                c == self.context(),
                q == ast::query_view(*query),
                i <= query.joins.len(),
                findings::finding_views(errors@) == start + join_field_findings(c, q, i as int),
            decreases query.joins.len() - i,
        {
            let ghost before = join_field_findings(c, q, i as int);
            assert(q.joins[i as int] == ast::join_view(query.joins@[i as int]));
            let found = self.check_join_field(&query.joins[i]);
            let ghost one = findings::some_finding(findings::opt_finding(found));
            add_finding(errors, found);
            assert((start + before) + one =~= start + (before + one));
            i += 1;
        }
    }

    fn check_join_shape(&self, query: &Query, errors: &mut Vec<ExprError>)
        requires
            self.wf(),
        ensures
            findings::finding_views(final(errors)@) == findings::finding_views(old(errors)@)
                + join_findings(self.context(), ast::query_view(*query), query.joins.len() as int),
    {
        let ghost c = self.context();
        let ghost q = ast::query_view(*query);
        let ghost start = findings::finding_views(errors@);
        assert(start + Seq::<findings::FindingView>::empty() =~= start);
        let mut i: usize = 0;
        while i < query.joins.len()
            invariant
                self.wf(),
                c == self.context(),
                q == ast::query_view(*query),
                i <= query.joins.len(),
                findings::finding_views(errors@) == start + join_findings(c, q, i as int),
            decreases query.joins.len() - i,
        {
            let ghost before = join_findings(c, q, i as int);
            let join = &query.joins[i];
            assert(q.joins[i as int] == ast::join_view(query.joins@[i as int]));
            let splits = match &join.on {
                Some(on) => on.has_top_level_or,
                None => false,
            };
            let found = if splits {
                Some(
                    self.emit(
                        join.offset,
                        ExprErrorKind::OrInJoinCondition,
                        "В условии соединения (ПО) используется ИЛИ. Оптимизатор не сможет применить индекс и будет перебирать соединяемые наборы целиком. Разделите условие на несколько соединений либо объедините выборки через ОБЪЕДИНИТЬ ВСЕ.".to_owned(),
                    ),
                )
            } else {
                None
            };
            let nested = match &join.source.table {
                Table::Subquery(_) => Some(
                    self.emit(
                        join.offset,
                        ExprErrorKind::JoinWithSubquery,
                        "Соединение с подзапросом: подзапрос не индексируется и будет вычислен заново при соединении. Вынесите его во временную таблицу (ПОМЕСТИТЬ) с ИНДЕКСИРОВАТЬ ПО полю соединения.".to_owned(),
                    ),
                ),
                _ => None,
            };
            let ghost one = findings::some_finding(findings::opt_finding(found));
            let ghost two = findings::some_finding(findings::opt_finding(nested));
            add_finding(errors, found);
            add_finding(errors, nested);
            assert(((start + before) + one) + two =~= start + ((before + one) + two));
            i += 1;
        }
    }

    fn check_query(&self, query: &Query, errors: &mut Vec<ExprError>)
        requires
            self.wf(),
        ensures
            findings::finding_views(final(errors)@) == findings::finding_views(old(errors)@)
                + query_findings(self.context(), ast::query_view(*query)),
        decreases query, 0int,
    {
        let ghost c = self.context();
        let ghost q = ast::query_view(*query);
        let ghost start = findings::finding_views(errors@);
        let found = self.check_temp_table_index(query);
        let ghost temp = findings::some_finding(findings::opt_finding(found));
        add_finding(errors, found);
        self.check_register_tables(query, errors);
        self.check_join_fields(query, errors);
        self.check_join_shape(query, errors);
        let ghost own = own_findings(c, q);
        proof {
            let registers = register_findings(c, q, q.all_sources().len() as int);
            let fields = join_field_findings(c, q, q.joins.len() as int);
            let shape = join_findings(c, q, q.joins.len() as int);
            assert((((start + temp) + registers) + fields) + shape =~= start + (((temp + registers) + fields)
                + shape));
        }
        let ghost one = findings::finding_views(errors@);
        assert(one + Seq::<findings::FindingView>::empty() =~= one);
        let mut i: usize = 0;
        while i < query.sources.len()
            invariant
                self.wf(),
                c == self.context(),
                q == ast::query_view(*query),
                i <= query.sources.len(),
                findings::finding_views(errors@) == one + source_table_findings(c, q.sources, i as int),
            decreases query.sources.len() - i,
        {
            let ghost before = source_table_findings(c, q.sources, i as int);
            assert(q.sources[i as int] == ast::source_view(query.sources@[i as int]));
            self.check_table(&query.sources[i].table, errors);
            let ghost more = table_findings(c, q.sources[i as int].table);
            assert((one + before) + more =~= one + (before + more));
            i += 1;
        }
        let ghost two = findings::finding_views(errors@);
        assert(two + Seq::<findings::FindingView>::empty() =~= two);
        let mut j: usize = 0;
        while j < query.joins.len()
            invariant
                self.wf(),
                c == self.context(),
                q == ast::query_view(*query),
                j <= query.joins.len(),
                findings::finding_views(errors@) == two + join_table_findings(c, q.joins, j as int),
            decreases query.joins.len() - j,
        {
            let ghost before = join_table_findings(c, q.joins, j as int);
            assert(q.joins[j as int] == ast::join_view(query.joins@[j as int]));
            self.check_table(&query.joins[j].source.table, errors);
            let ghost more = table_findings(c, q.joins[j as int].source.table);
            assert((two + before) + more =~= two + (before + more));
            j += 1;
        }
        proof {
            let nested = source_table_findings(c, q.sources, q.sources.len() as int);
            let joined = join_table_findings(c, q.joins, q.joins.len() as int);
            assert(((start + own) + nested) + joined =~= start + ((own + nested) + joined));
        }
    }

    fn check_table(&self, table: &Table, errors: &mut Vec<ExprError>)
        requires
            self.wf(),
        ensures
            findings::finding_views(final(errors)@) == findings::finding_views(old(errors)@)
                + table_findings(self.context(), ast::table_view(*table)),
        decreases table, 0int,
    {
        match table {
            Table::Subquery(p) => self.check_queries(&p.queries, errors),
            _ => {
                assert(findings::finding_views(errors@) + Seq::<findings::FindingView>::empty()
                    =~= findings::finding_views(errors@));
            },
        }
    }

    fn check_queries(&self, queries: &Vec<Query>, errors: &mut Vec<ExprError>)
        requires
            self.wf(),
        ensures
            findings::finding_views(final(errors)@) == findings::finding_views(old(errors)@)
                + queries_findings(
                self.context(),
                ast::query_views(queries@),
                queries.len() as int,
            ),
        decreases queries, 1int,
    {
        let ghost c = self.context();
        let ghost views = ast::query_views(queries@);
        let ghost start = findings::finding_views(errors@);
        assert(start + Seq::<findings::FindingView>::empty() =~= start);
        let mut i: usize = 0;
        while i < queries.len()
            invariant
                self.wf(),
                c == self.context(),
                views == ast::query_views(queries@),
                i <= queries.len(),
                findings::finding_views(errors@) == start + queries_findings(c, views, i as int),
            decreases queries.len() - i,
        {
            let ghost before = queries_findings(c, views, i as int);
            assert(views[i as int] == ast::query_view(queries@[i as int]));
            self.check_query(&queries[i], errors);
            let ghost more = query_findings(c, views[i as int]);
            assert((start + before) + more =~= start + (before + more));
            i += 1;
        }
    }
}

fn filters_by_dimension(filter: &Condition, schema: &ObjectSchema) -> (r: bool)
    ensures
        r == by_dimension(filter@, schema@),
{
    let mut i: usize = 0;
    while i < filter.fields.len()
        invariant
            i <= filter.fields.len(),
            forall|k: int|
                0 <= k < i ==> !symbols::some_field(
                    schema@.dimensions,
                    text::lowercase((#[trigger] filter@.fields[k]).field_name()),
                ),
        decreases filter.fields.len() - i,
    {
        assert(filter@.fields[i as int] == filter.fields@[i as int]@);
        let name = to_lower(filter.fields[i].name());
        if find_field(&schema.dimensions, name.as_str()).is_some() {
            return true;
        }
        i += 1;
    }
    false
}

fn condition_needs_movements(condition: &Condition, alias: &str, schema: &ObjectSchema) -> (r: bool)
    ensures
        r == mentions_movements(condition@, alias@, schema@),
{
    let mut i: usize = 0;
    while i < condition.fields.len()
        invariant
            i <= condition.fields.len(),
            forall|k: int|
                0 <= k < i ==> !only_in_movements(#[trigger] condition@.fields[k], alias@, schema@),
        decreases condition.fields.len() - i,
    {
        let field = &condition.fields[i];
        assert(condition@.fields[i as int] == field@);
        let belongs_here = match field.qualifier() {
            Some(q) => same_text(to_lower(q).as_str(), alias),
            None => true,
        };
        let name = to_lower(field.name());
        if belongs_here && (is_movement_field(name.as_str()) || find_field(
            &schema.attributes,
            name.as_str(),
        ).is_some()) {
            assert(only_in_movements(condition@.fields[i as int], alias@, schema@));
            return true;
        }
        i += 1;
    }
    false
}

fn needs_movement_fields(query: &Query, source: &Source, schema: &ObjectSchema) -> (r: bool)
    ensures
        r == needs_movements(ast::query_view(*query), ast::source_view(*source), schema@),
{
    let alias = match &source.alias {
        Some(n) => to_lower(n.name.as_str()),
        None => return true,
    };
    let ghost q = ast::query_view(*query);
    if let Some(c) = &query.select {
        if condition_needs_movements(c, alias.as_str(), schema) {
            return true;
        }
    }
    if let Some(c) = &query.filter {
        if condition_needs_movements(c, alias.as_str(), schema) {
            return true;
        }
    }
    let mut i: usize = 0;
    let mut found = false;
    while i < query.joins.len() && !found
        invariant
            q == ast::query_view(*query),
            i <= query.joins.len(),
            found == exists|k: int|
                0 <= k < i && ((#[trigger] q.joins[k]).on matches Some(c) && mentions_movements(
                    c,
                    alias@,
                    schema@,
                )),
        decreases query.joins.len() - i,
    {
        assert(q.joins[i as int] == ast::join_view(query.joins@[i as int]));
        if let Some(c) = &query.joins[i].on {
            found = condition_needs_movements(c, alias.as_str(), schema);
        }
        i += 1;
    }
    found
}

/// The number of the field by which the joined table is searched without an index.
fn find_unindexed(on: &Condition, alias: &str, schema: &ObjectSchema) -> (r: Option<usize>)
    ensures
        match r {
            Some(i) => i < on.fields.len() && unindexed_from(on@.fields, 0, alias@, schema@, None) == Some(
                on@.fields[i as int],
            ),
            None => unindexed_from(on@.fields, 0, alias@, schema@, None) is None,
        },
{
    let mut first: Option<usize> = None;
    let mut i: usize = 0;
    while i < on.fields.len()
        invariant
            i <= on.fields.len(),
            first matches Some(k) ==> k < i,
            unindexed_from(on@.fields, 0, alias@, schema@, None) == unindexed_from(
                on@.fields,
                i as int,
                alias@,
                schema@,
                (match first {
                    Some(k) => Some(on@.fields[k as int]),
                    None => None,
                }),
            ),
        decreases on.fields.len() - i,
    {
        let field = &on.fields[i];
        assert(on@.fields[i as int] == field@);
        if field.path.len() == 2 && same_text(to_lower(field.path[0].as_str()).as_str(), alias) {
            let name = to_lower(field.name());
            if is_standard_indexed_field(name.as_str()) {
                return None;
            }
            match schema.field(name.as_str()) {
                Some(info) => {
                    if info.is_indexed() {
                        return None;
                    }
                    if first.is_none() {
                        first = Some(i);
                    }
                },
                None => {},
            }
        }
        i += 1;
    }
    first
}

/// Check the queries of a module.
pub(crate) fn check_query_rules<S: SymbolSource>(
    src: &str,
    queries: &Vec<QueryText>,
    symbols: Option<&S>,
    errors: &mut Vec<ExprError>,
)
    requires
        findings::countable(src@),
    ensures
        findings::finding_views(final(errors)@) == findings::finding_views(old(errors)@)
            + all_text_findings(
            src@,
            queries@,
            symbols::answers_of(symbols),
            queries.len() as int,
        ),
{
    let ghost start = findings::finding_views(errors@);
    let ghost answers = symbols::answers_of(symbols);
    assert(start + Seq::<findings::FindingView>::empty() =~= start);
    let mut i: usize = 0;
    while i < queries.len()
        invariant
            findings::countable(src@),
            answers == symbols::answers_of(symbols),
            i <= queries.len(),
            findings::finding_views(errors@) == start + all_text_findings(
                src@,
                queries@,
                answers,
                i as int,
            ),
        decreases queries.len() - i,
    {
        let ghost before = all_text_findings(src@, queries@, answers, i as int);
        let text = &queries[i];
        let ghost more = text_findings(src@, *text, answers);
        match parse(text.text.as_str()) {
            Ok(package) => {
                let input = RuleInput { src, text, package: &package, symbols };
                input.check_queries(&package.queries, errors);
            },
            Err(_) => {
                assert(findings::finding_views(errors@) + Seq::<findings::FindingView>::empty()
                    =~= findings::finding_views(errors@));
            },
        }
        assert((start + before) + more =~= start + (before + more));
        i += 1;
    }
}

/// A query text that is not understood makes no finding.
pub proof fn law_not_understood_is_silent(
    src: Seq<char>,
    query: QueryText,
    answers: Option<symbols::Answers>,
)
    requires
        parser::package_of(query.text@) is Err,
    ensures
        text_findings(src, query, answers).len() == 0,
{
}

/// Without a source of names neither the physical table of a register nor a join by a field
/// without an index is reported.
pub proof fn law_unknown_fields_are_silent(
    c: QueryContext,
    q: ast::QueryView,
    source: ast::SourceView,
    j: ast::JoinView,
)
    requires
        c.answers is None,
    ensures
        register_finding(c, q, source) matches Some(f) ==> f.kind == ExprErrorKind::VirtualTableWithoutFilter,
        join_field_finding(c, j) is None,
{
}

proof fn lemma_indexed_field_ends_the_search(
    fields: Seq<ast::FieldView>,
    i: int,
    alias: Seq<char>,
    schema: symbols::SchemaView,
    first: Option<ast::FieldView>,
    k: int,
)
    requires
        0 <= i <= k < fields.len(),
        field_of_alias(fields[k], alias),
        indexed_field(fields[k], schema),
    ensures
        unindexed_from(fields, i, alias, schema, first) is None,
    decreases fields.len() - i,
{
    if i < k {
        lemma_indexed_field_ends_the_search(fields, i + 1, alias, schema, first, k);
        lemma_indexed_field_ends_the_search(fields, i + 1, alias, schema, Some(fields[i]), k);
    }
}

proof fn lemma_unindexed(
    fields: Seq<ast::FieldView>,
    i: int,
    alias: Seq<char>,
    schema: symbols::SchemaView,
    first: Option<ast::FieldView>,
    at: int,
)
    requires
        0 <= i <= at <= fields.len(),
        forall|k: int|
            i <= k < fields.len() && field_of_alias(#[trigger] fields[k], alias) ==> !indexed_field(
                fields[k],
                schema,
            ),
        forall|k: int|
            i <= k < at && field_of_alias(#[trigger] fields[k], alias) ==> schema.field(
                text::lowercase(fields[k].field_name()),
            ) is None,
        at < fields.len() ==> field_of_alias(fields[at], alias) && schema.field(
            text::lowercase(fields[at].field_name()),
        ) is Some,
    ensures
        first is Some ==> unindexed_from(fields, i, alias, schema, first) == first,
        first is None ==> unindexed_from(fields, i, alias, schema, first) == (if at < fields.len() {
            Some(fields[at])
        } else {
            None
        }),
    decreases fields.len() - i,
{
    if i < fields.len() {
        if i < at {
            lemma_unindexed(fields, i + 1, alias, schema, first, at);
        } else {
            lemma_keeps_the_first(fields, i + 1, alias, schema, Some(fields[i]));
            if first is Some {
                lemma_keeps_the_first(fields, i + 1, alias, schema, first);
            }
        }
    }
}

proof fn lemma_keeps_the_first(
    fields: Seq<ast::FieldView>,
    i: int,
    alias: Seq<char>,
    schema: symbols::SchemaView,
    first: Option<ast::FieldView>,
)
    requires
        0 <= i <= fields.len(),
        first is Some,
        forall|k: int|
            i <= k < fields.len() && field_of_alias(#[trigger] fields[k], alias) ==> !indexed_field(
                fields[k],
                schema,
            ),
    ensures
        unindexed_from(fields, i, alias, schema, first) == first,
    decreases fields.len() - i,
{
    if i < fields.len() {
        lemma_keeps_the_first(fields, i + 1, alias, schema, first);
    }
}

/// A join that goes by an indexed field of the joined table is silent, wherever in the condition
/// that field stands and whatever stands beside it: one field `alias.name` whose name has a
/// standard index, or is marked as indexed in the object, is enough.
pub proof fn law_one_indexed_field_is_enough(
    c: QueryContext,
    j: ast::JoinView,
    on: ast::ConditionView,
    alias: ast::NamedView,
    i: int,
)
    requires
        j.on == Some(on),
        j.source.alias == Some(alias),
        0 <= i < on.fields.len(),
        on.fields[i].path.len() == 2,
        text::lowercase(on.fields[i].path[0]) == text::lowercase(alias.name),
    ensures
        standard_indexed(text::lowercase(on.fields[i].path[1])) ==> join_field_finding(c, j) is None,
        (j.source.table matches ast::TableView::Meta(meta) && (c.schema(meta) matches Some(schema) && (
        schema.field(text::lowercase(on.fields[i].path[1])) matches Some(info) && info.indexing is Some)))
            ==> join_field_finding(c, j) is None,
{
    let key = text::lowercase(alias.name);
    assert(on.fields[i].field_name() == on.fields[i].path[1]);
    if let ast::TableView::Meta(meta) = j.source.table {
        if let Some(schema) = c.schema(meta) {
            if indexed_field(on.fields[i], schema) {
                lemma_indexed_field_ends_the_search(on.fields, 0, key, schema, None, i);
            }
        }
    }
}

/// A join that goes by no indexed field of the joined table is reported where one of the fields
/// is known to belong to the object: at the first such field of the condition. It is reported for
/// no other reason.
#[verifier::rlimit(40)]
pub proof fn law_join_by_unindexed_fields_is_reported(
    c: QueryContext,
    j: ast::JoinView,
    on: ast::ConditionView,
    alias: ast::NamedView,
    meta: ast::MetaTableView,
    schema: symbols::SchemaView,
    i: int,
)
    requires
        j.on == Some(on),
        j.source.alias == Some(alias),
        j.source.table == ast::TableView::Meta(meta),
        !register_kind(text::uppercase(meta.kind)),
        c.schema(meta) == Some(schema),
        forall|k: int|
            0 <= k < on.fields.len() && (#[trigger] on.fields[k]).path.len() == 2 && text::lowercase(
                on.fields[k].path[0],
            ) == text::lowercase(alias.name) ==> !standard_indexed(
                text::lowercase(on.fields[k].path[1]),
            ) && (schema.field(text::lowercase(on.fields[k].path[1])) matches Some(info)
                ==> info.indexing is None),
    ensures
        0 <= i < on.fields.len() && on.fields[i].path.len() == 2 && text::lowercase(on.fields[i].path[0])
            == text::lowercase(alias.name) && schema.field(text::lowercase(on.fields[i].path[1])) is Some && (
        forall|k: int|
            0 <= k < i && (#[trigger] on.fields[k]).path.len() == 2 && text::lowercase(on.fields[k].path[0])
                == text::lowercase(alias.name) ==> schema.field(text::lowercase(on.fields[k].path[1])) is None)
            ==> join_field_finding(c, j) == Some(
            c.finding(
                on.fields[i].offset,
                ExprErrorKind::JoinOnUnindexedField,
                unindexed_message(meta, on.fields[i]),
            ),
        ),
        (forall|k: int|
            0 <= k < on.fields.len() && (#[trigger] on.fields[k]).path.len() == 2 && text::lowercase(
                on.fields[k].path[0],
            ) == text::lowercase(alias.name) ==> schema.field(text::lowercase(on.fields[k].path[1])) is None)
            ==> join_field_finding(c, j) is None,
{
    let key = text::lowercase(alias.name);
    assert forall|k: int|
        0 <= k < on.fields.len() && field_of_alias(#[trigger] on.fields[k], key) implies !indexed_field(
        on.fields[k],
        schema,
    ) && on.fields[k].field_name() == on.fields[k].path[1] by {}
    if 0 <= i < on.fields.len() && on.fields[i].path.len() == 2 && text::lowercase(on.fields[i].path[0])
        == key && schema.field(text::lowercase(on.fields[i].path[1])) is Some && (forall|k: int|
        0 <= k < i && (#[trigger] on.fields[k]).path.len() == 2 && text::lowercase(on.fields[k].path[0])
            == key ==> schema.field(text::lowercase(on.fields[k].path[1])) is None) {
        lemma_unindexed(on.fields, 0, key, schema, None, i);
    }
    if forall|k: int|
        0 <= k < on.fields.len() && (#[trigger] on.fields[k]).path.len() == 2 && text::lowercase(
            on.fields[k].path[0],
        ) == key ==> schema.field(text::lowercase(on.fields[k].path[1])) is None {
        lemma_unindexed(on.fields, 0, key, schema, None, on.fields.len() as int);
    }
}

/// A join is silent on its fields where it joins a register, a temporary table, a parameter or a
/// subquery, where the joined table has no alias, and where the join has no condition.
pub proof fn law_joins_without_known_fields_are_silent(c: QueryContext, j: ast::JoinView)
    ensures
        j.on is None ==> join_field_finding(c, j) is None,
        j.source.alias is None ==> join_field_finding(c, j) is None,
        !(j.source.table is Meta) ==> join_field_finding(c, j) is None,
        (j.source.table matches ast::TableView::Meta(meta) && (register_kind(text::uppercase(meta.kind))
            || c.schema(meta) is None)) ==> join_field_finding(c, j) is None,
{
}

/// The field that a search for an unindexed field ends with, if any, in terms of what holds of
/// some field of the condition: no field of the alias is indexed, and one is known.
proof fn lemma_unindexed_iff(fields: Seq<ast::FieldView>, alias: Seq<char>, schema: symbols::SchemaView)
    ensures
        unindexed_from(fields, 0, alias, schema, None) is Some <==> {
            &&& forall|f: ast::FieldView| #[trigger]
                fields.contains(f) && field_of_alias(f, alias) ==> !indexed_field(f, schema)
            &&& exists|f: ast::FieldView| #[trigger]
                fields.contains(f) && field_of_alias(f, alias) && schema.field(
                    text::lowercase(f.field_name()),
                ) is Some
        },
{
    if exists|k: int|
        0 <= k < fields.len() && field_of_alias(#[trigger] fields[k], alias) && indexed_field(
            fields[k],
            schema,
        ) {
        let k = choose|k: int|
            0 <= k < fields.len() && field_of_alias(#[trigger] fields[k], alias) && indexed_field(
                fields[k],
                schema,
            );
        lemma_indexed_field_ends_the_search(fields, 0, alias, schema, None, k);
        assert(fields.contains(fields[k]));
    } else {
        let at = lemma_first_known(fields, 0, alias, schema);
        lemma_unindexed(fields, 0, alias, schema, None, at);
        if at < fields.len() {
            assert(fields.contains(fields[at]));
        }
    }
}

proof fn lemma_first_known(
    fields: Seq<ast::FieldView>,
    i: int,
    alias: Seq<char>,
    schema: symbols::SchemaView,
) -> (at: int)
    requires
        0 <= i <= fields.len(),
    ensures
        i <= at <= fields.len(),
        forall|k: int|
            i <= k < at && field_of_alias(#[trigger] fields[k], alias) ==> schema.field(
                text::lowercase(fields[k].field_name()),
            ) is None,
        at < fields.len() ==> field_of_alias(fields[at], alias) && schema.field(
            text::lowercase(fields[at].field_name()),
        ) is Some,
    decreases fields.len() - i,
{
    if i >= fields.len() || (field_of_alias(fields[i], alias) && schema.field(
        text::lowercase(fields[i].field_name()),
    ) is Some) {
        i
    } else {
        lemma_first_known(fields, i + 1, alias, schema)
    }
}

/// Whether a join is reported does not depend on the order of the fields of its condition, nor on
/// how often each is named.
pub proof fn law_order_of_fields_does_not_matter(
    c: QueryContext,
    j: ast::JoinView,
    other: ast::JoinView,
    on: ast::ConditionView,
    turned: ast::ConditionView,
)
    requires
        j.on == Some(on),
        other.on == Some(turned),
        other.source == j.source,
        forall|f: ast::FieldView| #[trigger] on.fields.contains(f) <==> turned.fields.contains(f),
    ensures
        join_field_finding(c, j) is Some <==> join_field_finding(c, other) is Some,
{
    if let (ast::TableView::Meta(meta), Some(alias)) = (j.source.table, j.source.alias) {
        if let Some(schema) = c.schema(meta) {
            let key = text::lowercase(alias.name);
            lemma_unindexed_iff(on.fields, key, schema);
            lemma_unindexed_iff(turned.fields, key, schema);
            assert forall|f: ast::FieldView| #[trigger] turned.fields.contains(f) implies on.fields.contains(
                f,
            ) by {}
        }
    }
}

/// The fields of an object are known only through the source of names: under the collection that
/// the kind of the table stands for, in lower case, and not where the name is a template.
pub proof fn law_fields_come_from_the_source(c: QueryContext, meta: ast::MetaTableView, a: symbols::Answers)
    requires
        c.answers == Some(a),
    ensures
        meta.name.contains('%') || meta.name.contains('#') ==> c.schema(meta) is None,
        !meta.name.contains('%') && !meta.name.contains('#') ==> (kind_collection(
            text::uppercase(meta.kind),
        ) matches Some(collection) ==> c.schema(meta) == (a.schema)(collection, text::lowercase(meta.name))),
{
}

proof fn lemma_joined_in_joins(v: Seq<ast::JoinView>, key: Seq<char>, n: int)
    requires
        0 <= n <= v.len(),
    ensures
        joined_in_joins(v, key, n) <==> exists|k: int|
            0 <= k < n && (joins_table(#[trigger] v[k], key) || joined_in_table(v[k].source.table, key)),
    decreases n,
{
    if n > 0 {
        lemma_joined_in_joins(v, key, n - 1);
    }
}

proof fn lemma_joined_in_sources(v: Seq<ast::SourceView>, key: Seq<char>, n: int)
    requires
        0 <= n <= v.len(),
    ensures
        joined_in_sources(v, key, n) <==> exists|k: int|
            0 <= k < n && joined_in_table((#[trigger] v[k]).table, key),
    decreases n,
{
    if n > 0 {
        lemma_joined_in_sources(v, key, n - 1);
    }
}

proof fn lemma_joined_in_queries(v: Seq<ast::QueryView>, key: Seq<char>, n: int)
    requires
        0 <= n <= v.len(),
    ensures
        joined_in_queries(v, key, n) <==> exists|k: int| 0 <= k < n && joined_in_query(#[trigger] v[k], key),
    decreases n,
{
    if n > 0 {
        lemma_joined_in_queries(v, key, n - 1);
    }
}

/// A temporary table is joined in a package where some query of it joins it, by its name in any
/// letter case, or holds a subquery that does: among its sources or behind one of its joins.
pub proof fn law_joined_tables_are_seen_at_any_depth(
    queries: Seq<ast::QueryView>,
    key: Seq<char>,
    i: int,
    k: int,
)
    requires
        0 <= i < queries.len(),
    ensures
        0 <= k < queries[i].joins.len() && (queries[i].joins[k].source.table matches ast::TableView::Temp(n)
            && text::lowercase(n.name) == key) ==> joined_somewhere(queries, key),
        0 <= k < queries[i].joins.len() && (queries[i].joins[k].source.table matches ast::TableView::Subquery(
            p,
        ) && joined_somewhere(p.queries, key)) ==> joined_somewhere(queries, key),
        0 <= k < queries[i].sources.len() && (queries[i].sources[k].table matches ast::TableView::Subquery(p)
            && joined_somewhere(p.queries, key)) ==> joined_somewhere(queries, key),
{
    let q = queries[i];
    lemma_joined_in_queries(queries, key, queries.len() as int);
    lemma_joined_in_joins(q.joins, key, q.joins.len() as int);
    lemma_joined_in_sources(q.sources, key, q.sources.len() as int);
    if 0 <= k < q.joins.len() && (joins_table(q.joins[k], key) || joined_in_table(
        q.joins[k].source.table,
        key,
    )) {
        assert(joined_in_query(queries[i], key));
    }
    if 0 <= k < q.sources.len() && joined_in_table(q.sources[k].table, key) {
        assert(joined_in_query(queries[i], key));
    }
}

/// No join of a package names a temporary table where no join of its queries does and no subquery
/// of theirs holds one that does. A table that is only read is not joined.
pub proof fn law_tables_that_are_only_read_are_not_joined(queries: Seq<ast::QueryView>, key: Seq<char>)
    requires
        forall|i: int, k: int|
            0 <= i < queries.len() && 0 <= k < queries[i].joins.len() ==> match (
                #[trigger] queries[i].joins[k]).source.table {
                ast::TableView::Temp(n) => text::lowercase(n.name) != key,
                ast::TableView::Subquery(p) => !joined_somewhere(p.queries, key),
                _ => true,
            },
        forall|i: int, k: int|
            0 <= i < queries.len() && 0 <= k < queries[i].sources.len() ==> match (
                #[trigger] queries[i].sources[k]).table {
                ast::TableView::Subquery(p) => !joined_somewhere(p.queries, key),
                _ => true,
            },
    ensures
        !joined_somewhere(queries, key),
{
    lemma_joined_in_queries(queries, key, queries.len() as int);
    assert forall|i: int| 0 <= i < queries.len() implies !joined_in_query(#[trigger] queries[i], key) by {
        let q = queries[i];
        lemma_joined_in_joins(q.joins, key, q.joins.len() as int);
        lemma_joined_in_sources(q.sources, key, q.sources.len() as int);
        assert forall|k: int| 0 <= k < q.joins.len() implies !joins_table(#[trigger] q.joins[k], key)
            && !joined_in_table(q.joins[k].source.table, key) by {
            assert(queries[i].joins[k] == q.joins[k]);
        }
        assert forall|k: int| 0 <= k < q.sources.len() implies !joined_in_table(
            (#[trigger] q.sources[k]).table,
            key,
        ) by {
            assert(queries[i].sources[k] == q.sources[k]);
        }
    }
}

/// A query that makes a temporary table is reported, at the name of the table, exactly where the
/// table is joined somewhere in the package and has no index; one field of an index is enough. A
/// name that is a template is not looked for.
pub proof fn law_joined_table_needs_an_index(c: QueryContext, q: ast::QueryView)
    ensures
        temp_table_finding(c, q) is Some <==> (q.into matches Some(into) && q.index_fields.len() == 0
            && !into.name.contains('%') && !into.name.contains('#') && joined_somewhere(
            c.package,
            text::lowercase(into.name),
        )),
        temp_table_finding(c, q) matches Some(f) ==> q.into is Some && f == c.finding(
            q.into->0.offset,
            ExprErrorKind::TempTableWithoutIndex,
            temp_table_message(q.into->0.name),
        ),
{
}

/// Reading the movements of a balance register is silent where the query needs them: where one of
/// its sections names a field that only the movements have. Such a field is named by its bare name
/// or behind the alias of the source, and is a field of movements or an attribute of the register.
pub proof fn law_movements_may_be_read_where_needed(
    c: QueryContext,
    q: ast::QueryView,
    source: ast::SourceView,
    meta: ast::MetaTableView,
    schema: symbols::SchemaView,
    alias: ast::NamedView,
    section: ast::ConditionView,
    i: int,
)
    requires
        source.table == ast::TableView::Meta(meta),
        meta.sub_table is None,
        c.schema(meta) == Some(schema),
        source.alias == Some(alias),
        q.select == Some(section) || q.filter == Some(section) || exists|k: int|
            0 <= k < q.joins.len() && (#[trigger] q.joins[k]).on == Some(section),
        0 <= i < section.fields.len(),
        section.fields[i].path.len() == 1 || (section.fields[i].path.len() > 1 && text::lowercase(
            section.fields[i].path[0],
        ) == text::lowercase(alias.name)),
        movement_field(text::lowercase(section.fields[i].path.last())) || exists|k: int|
            0 <= k < schema.attributes.len() && text::lowercase((#[trigger] schema.attributes[k]).name)
                == text::lowercase(section.fields[i].path.last()),
    ensures
        register_finding(c, q, source) is None,
{
    let key = text::lowercase(alias.name);
    symbols::law_some_field_bears_the_name(
        schema.attributes,
        text::lowercase(section.fields[i].field_name()),
    );
    assert(only_in_movements(section.fields[i], key, schema));
    assert(mentions_movements(section, key, schema));
    assert(needs_movements(q, source, schema));
}

/// Reading the movements of a balance register is reported where no section of the query names a
/// field that only they have: a field behind another alias says nothing of them. A register of
/// turnovers, a source without an alias and a register whose fields are not known are silent.
#[verifier::rlimit(40)]
pub proof fn law_balances_are_read_from_the_virtual_table(
    c: QueryContext,
    q: ast::QueryView,
    source: ast::SourceView,
    meta: ast::MetaTableView,
)
    requires
        source.table == ast::TableView::Meta(meta),
        meta.sub_table is None,
    ensures
        !register_kind(text::uppercase(meta.kind)) ==> register_finding(c, q, source) is None,
        c.schema(meta) is None ==> register_finding(c, q, source) is None,
        source.alias is None ==> register_finding(c, q, source) is None,
        (c.schema(meta) matches Some(schema) && schema.register_type != Some("Balance"@))
            ==> register_finding(c, q, source) is None,
        register_kind(text::uppercase(meta.kind)) && (c.schema(meta) matches Some(schema)
            && schema.register_type == Some("Balance"@) && (source.alias matches Some(alias) && (forall|
            section: ast::ConditionView,
            i: int,
        |
            (q.select == Some(section) || q.filter == Some(section) || exists|k: int|
                0 <= k < q.joins.len() && (#[trigger] q.joins[k]).on == Some(section)) && 0 <= i
                < section.fields.len() ==> ((#[trigger] section.fields[i]).path.len() > 1 && text::lowercase(
                section.fields[i].path[0],
            ) != text::lowercase(alias.name)) || (!movement_field(
                text::lowercase(section.fields[i].field_name()),
            ) && forall|k: int|
                0 <= k < schema.attributes.len() ==> text::lowercase((#[trigger] schema.attributes[k]).name)
                    != text::lowercase(section.fields[i].field_name()))))) ==> register_finding(c, q, source)
            == Some(c.finding(meta.offset, ExprErrorKind::PhysicalRegisterTable, physical_message(meta))),
{
    if let (Some(schema), Some(alias)) = (c.schema(meta), source.alias) {
        let key = text::lowercase(alias.name);
        if forall|section: ast::ConditionView, i: int|
            (q.select == Some(section) || q.filter == Some(section) || exists|k: int|
                0 <= k < q.joins.len() && (#[trigger] q.joins[k]).on == Some(section)) && 0 <= i
                < section.fields.len() ==> ((#[trigger] section.fields[i]).path.len() > 1 && text::lowercase(
                section.fields[i].path[0],
            ) != key) || (!movement_field(text::lowercase(section.fields[i].field_name())) && forall|k: int|
                0 <= k < schema.attributes.len() ==> text::lowercase((#[trigger] schema.attributes[k]).name)
                    != text::lowercase(section.fields[i].field_name())) {
            assert forall|section: ast::ConditionView|
                (q.select == Some(section) || q.filter == Some(section) || exists|k: int|
                    0 <= k < q.joins.len() && (#[trigger] q.joins[k]).on == Some(section)) implies !(
            #[trigger] mentions_movements(section, key, schema)) by {
                assert forall|i: int| 0 <= i < section.fields.len() implies !only_in_movements(
                    #[trigger] section.fields[i],
                    key,
                    schema,
                ) by {
                    symbols::law_some_field_bears_the_name(
                        schema.attributes,
                        text::lowercase(section.fields[i].field_name()),
                    );
                }
            }
            assert(!needs_movements(q, source, schema));
        }
    }
}

/// A virtual table of a register has to be restricted by a dimension. Without the parameter that
/// takes its condition, or with an empty one, it is reported. With one it is silent where the
/// condition names no field or the fields of the register are not known; where they are known, it
/// is silent exactly where one of the fields of the condition is a dimension.
#[verifier::rlimit(40)]
pub proof fn law_virtual_table_is_restricted_by_a_dimension(
    c: QueryContext,
    q: ast::QueryView,
    source: ast::SourceView,
    meta: ast::MetaTableView,
    sub: Seq<char>,
    at: int,
)
    requires
        source.table == ast::TableView::Meta(meta),
        register_kind(text::uppercase(meta.kind)),
        meta.sub_table == Some(sub),
        condition_parameter(text::uppercase(sub)) == Some(at),
    ensures
        register_finding(c, q, source) matches Some(f) ==> f == c.finding(
            meta.offset,
            ExprErrorKind::VirtualTableWithoutFilter,
            unfiltered_message(meta, sub),
        ),
        at >= meta.params.len() || meta.params[at].is_empty ==> register_finding(c, q, source) is Some,
        0 <= at < meta.params.len() && !meta.params[at].is_empty ==> {
            &&& meta.params[at].fields.len() == 0 ==> register_finding(c, q, source) is None
            &&& c.schema(meta) is None ==> register_finding(c, q, source) is None
            &&& meta.params[at].fields.len() > 0 && c.schema(meta) is Some ==> (register_finding(
                c,
                q,
                source,
            ) is None <==> exists|i: int, d: int|
                0 <= i < meta.params[at].fields.len() && 0 <= d < c.schema(meta)->0.dimensions.len()
                    && text::lowercase((#[trigger] meta.params[at].fields[i]).field_name())
                    == text::lowercase((#[trigger] c.schema(meta)->0.dimensions[d]).name))
        },
{
    if 0 <= at < meta.params.len() {
        if let Some(schema) = c.schema(meta) {
            let fields = meta.params[at].fields;
            assert forall|i: int| 0 <= i < fields.len() implies (symbols::some_field(
                schema.dimensions,
                text::lowercase((#[trigger] fields[i]).field_name()),
            ) <==> exists|d: int|
                0 <= d < schema.dimensions.len() && text::lowercase((#[trigger] schema.dimensions[d]).name)
                    == text::lowercase(fields[i].field_name())) by {
                symbols::law_some_field_bears_the_name(
                    schema.dimensions,
                    text::lowercase(fields[i].field_name()),
                );
            }
            if by_dimension(meta.params[at], schema) {
                let i = choose|i: int|
                    0 <= i < fields.len() && symbols::some_field(
                        schema.dimensions,
                        text::lowercase((#[trigger] fields[i]).field_name()),
                    );
                let d = choose|d: int|
                    0 <= d < schema.dimensions.len() && text::lowercase(
                        (#[trigger] schema.dimensions[d]).name,
                    ) == text::lowercase(fields[i].field_name());
                assert(text::lowercase(meta.params[at].fields[i].field_name()) == text::lowercase(
                    c.schema(meta)->0.dimensions[d].name,
                ));
            }
            if exists|i: int, d: int|
                0 <= i < fields.len() && 0 <= d < schema.dimensions.len() && text::lowercase(
                    (#[trigger] fields[i]).field_name(),
                ) == text::lowercase((#[trigger] schema.dimensions[d]).name) {
                let (i, d) = choose|i: int, d: int|
                    0 <= i < fields.len() && 0 <= d < schema.dimensions.len() && text::lowercase(
                        (#[trigger] fields[i]).field_name(),
                    ) == text::lowercase((#[trigger] schema.dimensions[d]).name);
                assert(symbols::some_field(schema.dimensions, text::lowercase(fields[i].field_name())));
                assert(by_dimension(meta.params[at], schema));
            }
        }
    }
}

/// Only a table of a register is held to the rules on registers, and of its virtual tables only
/// those that take a condition.
pub proof fn law_other_tables_are_no_registers(c: QueryContext, q: ast::QueryView, source: ast::SourceView)
    ensures
        !(source.table is Meta) ==> register_finding(c, q, source) is None,
        (source.table matches ast::TableView::Meta(meta) && !register_kind(text::uppercase(meta.kind)))
            ==> register_finding(c, q, source) is None,
        (source.table matches ast::TableView::Meta(meta) && (meta.sub_table matches Some(sub)
            && condition_parameter(text::uppercase(sub)) is None)) ==> register_finding(c, q, source) is None,
{
}

/// A join is reported for an OR at the top of its condition, and for a subquery behind it; each at
/// the join, and neither keeps the other silent.
pub proof fn law_or_and_subqueries_are_reported_at_the_join(c: QueryContext, q: ast::QueryView, i: int)
    requires
        0 <= i < q.joins.len(),
    ensures
        (q.joins[i].on matches Some(on) && on.has_top_level_or) ==> join_findings(
            c,
            q,
            q.joins.len() as int,
        ).contains(c.finding(q.joins[i].offset, ExprErrorKind::OrInJoinCondition, or_message())),
        q.joins[i].source.table is Subquery ==> join_findings(c, q, q.joins.len() as int).contains(
            c.finding(q.joins[i].offset, ExprErrorKind::JoinWithSubquery, subquery_message()),
        ),
        (forall|k: int|
            0 <= k < q.joins.len() ==> !((#[trigger] q.joins[k]).source.table is Subquery) && (
            q.joins[k].on matches Some(on) ==> !on.has_top_level_or)) ==> join_findings(
            c,
            q,
            q.joins.len() as int,
        ).len() == 0,
{
    lemma_join_findings(c, q, q.joins.len() as int, i);
}

proof fn lemma_join_findings(c: QueryContext, q: ast::QueryView, n: int, i: int)
    requires
        0 <= n <= q.joins.len(),
    ensures
        0 <= i < n && or_finding(c, q.joins[i]) is Some ==> join_findings(c, q, n).contains(
            or_finding(c, q.joins[i])->0,
        ),
        0 <= i < n && subquery_finding(c, q.joins[i]) is Some ==> join_findings(c, q, n).contains(
            subquery_finding(c, q.joins[i])->0,
        ),
        (forall|k: int|
            0 <= k < n ==> or_finding(c, #[trigger] q.joins[k]) is None && subquery_finding(c, q.joins[k]) is None)
            ==> join_findings(c, q, n).len() == 0,
    decreases n,
{
    if n > 0 {
        lemma_join_findings(c, q, n - 1, i);
        let before = join_findings(c, q, n - 1);
        findings::lemma_one_more(before, or_finding(c, q.joins[n - 1]));
        findings::lemma_one_more(
            before + findings::some_finding(or_finding(c, q.joins[n - 1])),
            subquery_finding(c, q.joins[n - 1]),
        );
        if 0 <= i < n && or_finding(c, q.joins[i]) is Some {
            let f = or_finding(c, q.joins[i])->0;
            assert((before + findings::some_finding(or_finding(c, q.joins[n - 1]))).contains(f));
        }
        if 0 <= i < n && subquery_finding(c, q.joins[i]) is Some {
            let f = subquery_finding(c, q.joins[i])->0;
            if i < n - 1 {
                assert((before + findings::some_finding(or_finding(c, q.joins[n - 1]))).contains(f));
            }
            assert(join_findings(c, q, n).contains(f));
        }
    }
}

/// Each source of a query is held to the rules on registers, those that are joined behind those
/// of the section FROM.
pub proof fn law_sources_are_checked_one_by_one(
    c: QueryContext,
    q: ast::QueryView,
    n: int,
)
    requires
        0 <= n <= q.all_sources().len(),
    ensures
        register_findings(c, q, n).len() <= n,
        forall|k: int|
            0 <= k <= n ==> (#[trigger] register_findings(c, q, k)).is_prefix_of(
                register_findings(c, q, n),
            ),
        forall|f: findings::FindingView| #[trigger]
            register_findings(c, q, n).contains(f) <==> exists|i: int|
            0 <= i < n && register_finding(c, q, #[trigger] q.all_sources()[i]) == Some(f),
    decreases n,
{
    if n > 0 {
        law_sources_are_checked_one_by_one(c, q, n - 1);
        let before = register_findings(c, q, n - 1);
        let all = register_findings(c, q, n);
        findings::lemma_one_more(before, register_finding(c, q, q.all_sources()[n - 1]));
        assert forall|f: findings::FindingView| #[trigger] all.contains(f) <==> exists|i: int|
            0 <= i < n && register_finding(c, q, #[trigger] q.all_sources()[i]) == Some(f) by {
            if before.contains(f) {
                let i = choose|i: int| 0 <= i < n - 1 && register_finding(c, q, #[trigger] q.all_sources()[i]) == Some(f);
                assert(register_finding(c, q, q.all_sources()[i]) == Some(f));
            }
        }
        assert forall|k: int| 0 <= k <= n implies (#[trigger] register_findings(c, q, k)).is_prefix_of(all) by {
            if k < n {
                findings::lemma_prefix(register_findings(c, q, k), before, all);
            } else {
                assert(all =~= all.subrange(0, all.len() as int));
            }
        }
    }
}

/// Each join of a query is held to the rule on its fields, one by one.
pub proof fn law_join_fields_are_checked_one_by_one(
    c: QueryContext,
    q: ast::QueryView,
    n: int,
)
    requires
        0 <= n <= q.joins.len(),
    ensures
        join_field_findings(c, q, n).len() <= n,
        forall|k: int|
            0 <= k <= n ==> (#[trigger] join_field_findings(c, q, k)).is_prefix_of(
                join_field_findings(c, q, n),
            ),
        forall|f: findings::FindingView| #[trigger]
            join_field_findings(c, q, n).contains(f) <==> exists|i: int|
            0 <= i < n && join_field_finding(c, #[trigger] q.joins[i]) == Some(f),
    decreases n,
{
    if n > 0 {
        law_join_fields_are_checked_one_by_one(c, q, n - 1);
        let before = join_field_findings(c, q, n - 1);
        let all = join_field_findings(c, q, n);
        findings::lemma_one_more(before, join_field_finding(c, q.joins[n - 1]));
        assert forall|f: findings::FindingView| #[trigger] all.contains(f) <==> exists|i: int|
            0 <= i < n && join_field_finding(c, #[trigger] q.joins[i]) == Some(f) by {
            if before.contains(f) {
                let i = choose|i: int| 0 <= i < n - 1 && join_field_finding(c, #[trigger] q.joins[i]) == Some(f);
                assert(join_field_finding(c, q.joins[i]) == Some(f));
            }
        }
        assert forall|k: int| 0 <= k <= n implies (#[trigger] join_field_findings(c, q, k)).is_prefix_of(all) by {
            if k < n {
                findings::lemma_prefix(join_field_findings(c, q, k), before, all);
            } else {
                assert(all =~= all.subrange(0, all.len() as int));
            }
        }
    }
}

proof fn lemma_contains_either(a: Seq<findings::FindingView>, b: Seq<findings::FindingView>)
    ensures
        forall|f: findings::FindingView| #[trigger] (a + b).contains(f) <==> a.contains(f) || b.contains(f),
{
    assert forall|f: findings::FindingView| #[trigger] (a + b).contains(f) <==> a.contains(f) || b.contains(
        f,
    ) by {
        findings::lemma_either(a, b, f);
    }
}

proof fn lemma_queries_findings(c: QueryContext, v: Seq<ast::QueryView>, n: int, f: findings::FindingView)
    requires
        0 <= n <= v.len(),
    ensures
        queries_findings(c, v, n).contains(f) <==> exists|i: int|
            0 <= i < n && query_findings(c, #[trigger] v[i]).contains(f),
    decreases n,
{
    if n > 0 {
        lemma_queries_findings(c, v, n - 1, f);
        lemma_contains_either(queries_findings(c, v, n - 1), query_findings(c, v[n - 1]));
        assert(queries_findings(c, v, n).contains(f) <==> queries_findings(c, v, n - 1).contains(f)
            || query_findings(c, v[n - 1]).contains(f));
    }
}

proof fn lemma_source_table_findings(
    c: QueryContext,
    v: Seq<ast::SourceView>,
    n: int,
    f: findings::FindingView,
)
    requires
        0 <= n <= v.len(),
    ensures
        source_table_findings(c, v, n).contains(f) <==> exists|i: int|
            0 <= i < n && table_findings(c, (#[trigger] v[i]).table).contains(f),
    decreases n,
{
    if n > 0 {
        lemma_source_table_findings(c, v, n - 1, f);
        lemma_contains_either(source_table_findings(c, v, n - 1), table_findings(c, v[n - 1].table));
        assert(source_table_findings(c, v, n).contains(f) <==> source_table_findings(c, v, n - 1).contains(f)
            || table_findings(c, v[n - 1].table).contains(f));
    }
}

proof fn lemma_join_table_findings(c: QueryContext, v: Seq<ast::JoinView>, n: int, f: findings::FindingView)
    requires
        0 <= n <= v.len(),
    ensures
        join_table_findings(c, v, n).contains(f) <==> exists|i: int|
            0 <= i < n && table_findings(c, (#[trigger] v[i]).source.table).contains(f),
    decreases n,
{
    if n > 0 {
        lemma_join_table_findings(c, v, n - 1, f);
        lemma_contains_either(join_table_findings(c, v, n - 1), table_findings(c, v[n - 1].source.table));
        assert(join_table_findings(c, v, n).contains(f) <==> join_table_findings(c, v, n - 1).contains(f)
            || table_findings(c, v[n - 1].source.table).contains(f));
    }
}

/// What is found in a query: what the rule on its temporary table finds, what the rules on
/// registers find in its sources, what the rules on joins find, and whatever is found in a query
/// of a subquery, among its sources or behind its joins. Nothing else, and none of it gets lost.
#[verifier::rlimit(40)]
pub proof fn law_queries_are_checked_at_any_depth(
    c: QueryContext,
    q: ast::QueryView,
    f: findings::FindingView,
)
    ensures
        query_findings(c, q).contains(f) <==> {
            ||| temp_table_finding(c, q) == Some(f)
            ||| exists|i: int| 0 <= i < q.sources.len() && register_finding(c, q, #[trigger] q.sources[i]) == Some(f)
            ||| exists|i: int|
                0 <= i < q.joins.len() && (register_finding(c, q, (#[trigger] q.joins[i]).source) == Some(f)
                    || join_field_finding(c, q.joins[i]) == Some(f) || or_finding(c, q.joins[i]) == Some(f)
                    || subquery_finding(c, q.joins[i]) == Some(f))
            ||| exists|i: int|
                0 <= i < q.sources.len() && ((#[trigger] q.sources[i]).table matches ast::TableView::Subquery(p)
                    && (exists|k: int|
                    0 <= k < p.queries.len() && query_findings(c, #[trigger] p.queries[k]).contains(f)))
            ||| exists|i: int|
                0 <= i < q.joins.len() && ((#[trigger] q.joins[i]).source.table matches ast::TableView::Subquery(
                    p,
                ) && (exists|k: int|
                    0 <= k < p.queries.len() && query_findings(c, #[trigger] p.queries[k]).contains(f)))
        },
{
    let n = q.joins.len() as int;
    let all = q.all_sources();
    let temp = findings::some_finding(temp_table_finding(c, q));
    let registers = register_findings(c, q, all.len() as int);
    let fields = join_field_findings(c, q, n);
    let joins = join_findings(c, q, n);
    let sources_below = source_table_findings(c, q.sources, q.sources.len() as int);
    let joins_below = join_table_findings(c, q.joins, n);
    lemma_contains_either(temp, registers);
    lemma_contains_either(temp + registers, fields);
    lemma_contains_either(temp + registers + fields, joins);
    lemma_contains_either(own_findings(c, q), sources_below);
    lemma_contains_either(own_findings(c, q) + sources_below, joins_below);
    law_sources_are_checked_one_by_one(c, q, all.len() as int);
    law_join_fields_are_checked_one_by_one(c, q, n);
    lemma_join_findings_iff(c, q, n, f);
    lemma_source_table_findings(c, q.sources, q.sources.len() as int, f);
    lemma_join_table_findings(c, q.joins, n, f);
    assert(temp.contains(f) <==> temp_table_finding(c, q) == Some(f)) by {
        if temp_table_finding(c, q) == Some(f) {
            assert(temp[0] == f);
        }
    }
    assert(registers.contains(f) <==> {
        ||| exists|i: int| 0 <= i < q.sources.len() && register_finding(c, q, #[trigger] q.sources[i]) == Some(f)
        ||| exists|i: int|
            0 <= i < q.joins.len() && register_finding(c, q, (#[trigger] q.joins[i]).source) == Some(f)
    }) by {
        if registers.contains(f) {
            let i = choose|i: int|
                0 <= i < all.len() && register_finding(c, q, #[trigger] all[i]) == Some(f);
            if i < q.sources.len() {
                assert(all[i] == q.sources[i]);
            } else {
                assert(all[i] == q.joins[i - q.sources.len()].source);
            }
        }
        if exists|i: int| 0 <= i < q.sources.len() && register_finding(c, q, #[trigger] q.sources[i]) == Some(f) {
            let i = choose|i: int|
                0 <= i < q.sources.len() && register_finding(c, q, #[trigger] q.sources[i]) == Some(f);
            assert(all[i] == q.sources[i]);
        }
        if exists|i: int|
            0 <= i < q.joins.len() && register_finding(c, q, (#[trigger] q.joins[i]).source) == Some(f) {
            let i = choose|i: int|
                0 <= i < q.joins.len() && register_finding(c, q, (#[trigger] q.joins[i]).source) == Some(f);
            assert(all[q.sources.len() + i] == q.joins[i].source);
        }
    }
    assert forall|t: ast::TableView| #[trigger] table_findings(c, t).contains(f) <==> (
    t matches ast::TableView::Subquery(p) && (exists|k: int|
        0 <= k < p.queries.len() && query_findings(c, #[trigger] p.queries[k]).contains(f))) by {
        if let ast::TableView::Subquery(p) = t {
            lemma_queries_findings(c, p.queries, p.queries.len() as int, f);
        }
    }
}

proof fn lemma_join_findings_iff(c: QueryContext, q: ast::QueryView, n: int, f: findings::FindingView)
    requires
        0 <= n <= q.joins.len(),
    ensures
        join_findings(c, q, n).contains(f) <==> exists|i: int|
            0 <= i < n && (or_finding(c, #[trigger] q.joins[i]) == Some(f) || subquery_finding(c, q.joins[i])
                == Some(f)),
    decreases n,
{
    if n > 0 {
        lemma_join_findings_iff(c, q, n - 1, f);
        let before = join_findings(c, q, n - 1);
        let with_or = before + findings::some_finding(or_finding(c, q.joins[n - 1]));
        findings::lemma_one_more(before, or_finding(c, q.joins[n - 1]));
        findings::lemma_one_more(with_or, subquery_finding(c, q.joins[n - 1]));
        assert(join_findings(c, q, n).contains(f) <==> with_or.contains(f) || subquery_finding(
            c,
            q.joins[n - 1],
        ) == Some(f));
    }
}

proof fn lemma_all_text_findings(
    src: Seq<char>,
    queries: Seq<QueryText>,
    answers: Option<symbols::Answers>,
    n: int,
    f: findings::FindingView,
)
    requires
        0 <= n <= queries.len(),
    ensures
        all_text_findings(src, queries, answers, n).contains(f) <==> exists|i: int|
            0 <= i < n && text_findings(src, #[trigger] queries[i], answers).contains(f),
    decreases n,
{
    if n > 0 {
        lemma_all_text_findings(src, queries, answers, n - 1, f);
        let before = all_text_findings(src, queries, answers, n - 1);
        lemma_contains_either(before, text_findings(src, queries[n - 1], answers));
        assert(all_text_findings(src, queries, answers, n).contains(f) <==> before.contains(f) || text_findings(
            src,
            queries[n - 1],
            answers,
        ).contains(f));
    }
}

/// Every query of every query text of a module is checked, where the text is understood, with the
/// other queries of its own text around it.
pub proof fn law_every_query_of_a_module_is_checked(
    src: Seq<char>,
    queries: Seq<QueryText>,
    answers: Option<symbols::Answers>,
    f: findings::FindingView,
)
    ensures
        all_text_findings(src, queries, answers, queries.len() as int).contains(f) <==> exists|i: int|
            0 <= i < queries.len() && (parser::package_of((#[trigger] queries[i]).text@) matches Ok(p) && (
            exists|k: int|
                0 <= k < p.queries.len() && query_findings(
                    (QueryContext { src, spans: queries[i].spans@, package: p.queries, answers }),
                    #[trigger] p.queries[k],
                ).contains(f))),
{
    lemma_all_text_findings(src, queries, answers, queries.len() as int, f);
    assert forall|i: int| 0 <= i < queries.len() implies (text_findings(
        src,
        #[trigger] queries[i],
        answers,
    ).contains(f) <==> (parser::package_of(queries[i].text@) matches Ok(p) && exists|k: int|
        0 <= k < p.queries.len() && query_findings(
            (QueryContext { src, spans: queries[i].spans@, package: p.queries, answers }),
            #[trigger] p.queries[k],
        ).contains(f))) by {
        if let Ok(p) = parser::package_of(queries[i].text@) {
            lemma_queries_findings(
                QueryContext { src, spans: queries[i].spans@, package: p.queries, answers },
                p.queries,
                p.queries.len() as int,
                f,
            );
        }
    }
}

/// The kinds of objects whose fields are known, in Russian and in English.
pub open spec fn kinds_in_two_languages() -> Seq<(Seq<char>, Seq<char>)> {
    seq![
        ("СПРАВОЧНИК"@, "CATALOG"@),
        ("ДОКУМЕНТ"@, "DOCUMENT"@),
        ("РЕГИСТРСВЕДЕНИЙ"@, "INFORMATIONREGISTER"@),
        ("РЕГИСТРНАКОПЛЕНИЯ"@, "ACCUMULATIONREGISTER"@),
        ("РЕГИСТРБУХГАЛТЕРИИ"@, "ACCOUNTINGREGISTER"@),
        ("РЕГИСТРРАСЧЕТА"@, "CALCULATIONREGISTER"@),
        ("ПЛАНВИДОВХАРАКТЕРИСТИК"@, "CHARTOFCHARACTERISTICTYPES"@),
        ("ПЛАНСЧЕТОВ"@, "CHARTOFACCOUNTS"@),
        ("ПЛАНВИДОВРАСЧЕТА"@, "CHARTOFCALCULATIONTYPES"@),
        ("БИЗНЕСПРОЦЕСС"@, "BUSINESSPROCESS"@),
        ("ЗАДАЧА"@, "TASK"@),
        ("ПЛАНОБМЕНА"@, "EXCHANGEPLAN"@),
        ("ЖУРНАЛДОКУМЕНТОВ"@, "DOCUMENTJOURNAL"@),
    ]
}

/// A kind of object means the same in both languages: objects of the same collection, a table that a
/// query can read, and a register in both or in none.
#[verifier::rlimit(40)]
pub proof fn law_kinds_mean_the_same_in_both_languages(i: int)
    requires
        0 <= i < kinds_in_two_languages().len(),
    ensures
        kind_collection(kinds_in_two_languages()[i].0) is Some,
        kind_collection(kinds_in_two_languages()[i].0) == kind_collection(kinds_in_two_languages()[i].1),
        register_kind(kinds_in_two_languages()[i].0) == register_kind(kinds_in_two_languages()[i].1),
        parser::meta_kind(kinds_in_two_languages()[i].0) && parser::meta_kind(kinds_in_two_languages()[i].1),
{
    reveal_strlit("СПРАВОЧНИК");
    reveal_strlit("CATALOG");
    reveal_strlit("ДОКУМЕНТ");
    reveal_strlit("DOCUMENT");
    reveal_strlit("РЕГИСТРСВЕДЕНИЙ");
    reveal_strlit("INFORMATIONREGISTER");
    reveal_strlit("РЕГИСТРНАКОПЛЕНИЯ");
    reveal_strlit("ACCUMULATIONREGISTER");
    reveal_strlit("РЕГИСТРБУХГАЛТЕРИИ");
    reveal_strlit("ACCOUNTINGREGISTER");
    reveal_strlit("РЕГИСТРРАСЧЕТА");
    reveal_strlit("CALCULATIONREGISTER");
    reveal_strlit("ПЛАНВИДОВХАРАКТЕРИСТИК");
    reveal_strlit("CHARTOFCHARACTERISTICTYPES");
    reveal_strlit("ПЛАНСЧЕТОВ");
    reveal_strlit("CHARTOFACCOUNTS");
    reveal_strlit("ПЛАНВИДОВРАСЧЕТА");
    reveal_strlit("CHARTOFCALCULATIONTYPES");
    reveal_strlit("БИЗНЕСПРОЦЕСС");
    reveal_strlit("BUSINESSPROCESS");
    reveal_strlit("ЗАДАЧА");
    reveal_strlit("TASK");
    reveal_strlit("ПЛАНОБМЕНА");
    reveal_strlit("EXCHANGEPLAN");
    reveal_strlit("ЖУРНАЛДОКУМЕНТОВ");
    reveal_strlit("DOCUMENTJOURNAL");
    assert("СПРАВОЧНИК"@.len() == 10 && "CATALOG"@.len() == 7);
    assert("СПРАВОЧНИК"@[0] == 'С' && "CATALOG"@[0] == 'C');
    assert("ДОКУМЕНТ"@.len() == 8 && "DOCUMENT"@.len() == 8);
    assert("ДОКУМЕНТ"@[0] == 'Д' && "DOCUMENT"@[0] == 'D');
    assert("РЕГИСТРСВЕДЕНИЙ"@.len() == 15 && "INFORMATIONREGISTER"@.len() == 19);
    assert("РЕГИСТРСВЕДЕНИЙ"@[0] == 'Р' && "INFORMATIONREGISTER"@[0] == 'I');
    assert("РЕГИСТРНАКОПЛЕНИЯ"@.len() == 17 && "ACCUMULATIONREGISTER"@.len() == 20);
    assert("РЕГИСТРНАКОПЛЕНИЯ"@[0] == 'Р' && "ACCUMULATIONREGISTER"@[0] == 'A');
    assert("РЕГИСТРБУХГАЛТЕРИИ"@.len() == 18 && "ACCOUNTINGREGISTER"@.len() == 18);
    assert("РЕГИСТРБУХГАЛТЕРИИ"@[0] == 'Р' && "ACCOUNTINGREGISTER"@[0] == 'A');
    assert("РЕГИСТРРАСЧЕТА"@.len() == 14 && "CALCULATIONREGISTER"@.len() == 19);
    assert("РЕГИСТРРАСЧЕТА"@[0] == 'Р' && "CALCULATIONREGISTER"@[0] == 'C');
    assert("ПЛАНВИДОВХАРАКТЕРИСТИК"@.len() == 22 && "CHARTOFCHARACTERISTICTYPES"@.len() == 26);
    assert("ПЛАНВИДОВХАРАКТЕРИСТИК"@[0] == 'П' && "CHARTOFCHARACTERISTICTYPES"@[0] == 'C');
    assert("ПЛАНСЧЕТОВ"@.len() == 10 && "CHARTOFACCOUNTS"@.len() == 15);
    assert("ПЛАНСЧЕТОВ"@[0] == 'П' && "CHARTOFACCOUNTS"@[0] == 'C');
    assert("ПЛАНВИДОВРАСЧЕТА"@.len() == 16 && "CHARTOFCALCULATIONTYPES"@.len() == 23);
    assert("ПЛАНВИДОВРАСЧЕТА"@[0] == 'П' && "CHARTOFCALCULATIONTYPES"@[0] == 'C');
    assert("БИЗНЕСПРОЦЕСС"@.len() == 13 && "BUSINESSPROCESS"@.len() == 15);
    assert("БИЗНЕСПРОЦЕСС"@[0] == 'Б' && "BUSINESSPROCESS"@[0] == 'B');
    assert("ЗАДАЧА"@.len() == 6 && "TASK"@.len() == 4);
    assert("ЗАДАЧА"@[0] == 'З' && "TASK"@[0] == 'T');
    assert("ПЛАНОБМЕНА"@.len() == 10 && "EXCHANGEPLAN"@.len() == 12);
    assert("ПЛАНОБМЕНА"@[0] == 'П' && "EXCHANGEPLAN"@[0] == 'E');
    assert("ЖУРНАЛДОКУМЕНТОВ"@.len() == 16 && "DOCUMENTJOURNAL"@.len() == 15);
    assert("ЖУРНАЛДОКУМЕНТОВ"@[0] == 'Ж' && "DOCUMENTJOURNAL"@[0] == 'D');
    assert("ПЛАНСЧЕТОВ"@[4] == 'С' && "ПЛАНОБМЕНА"@[4] == 'О');
}

/// Whatever kind has known fields is a table that a query can read, stands for one of the
/// collections whose descriptions hold fields, and a kind of register is among them.
#[verifier::rlimit(40)]
pub proof fn law_known_kinds_are_tables(up: Seq<char>)
    ensures
        kind_collection(up) matches Some(c) ==> parser::meta_kind(up) && layout::collections_with_fields().contains(c)
            && layout::collections().contains(c),
        register_kind(up) ==> kind_collection(up) is Some && parser::meta_kind(up),
{
    let with_fields = layout::collections_with_fields();
    let all = layout::collections();
    assert(with_fields.len() == 13 && all.len() == 26);
    if let Some(c) = kind_collection(up) {
        assert forall|k: int| 0 <= k < 13 && with_fields[k] == c implies with_fields.contains(c) by {}
        assert forall|k: int| 0 <= k < 26 && all[k] == c implies all.contains(c) by {}
        assert(with_fields[0] == "Catalogs"@ && all[2] == "Catalogs"@);
        assert(with_fields[1] == "Documents"@ && all[1] == "Documents"@);
        assert(with_fields[2] == "InformationRegisters"@ && all[3] == "InformationRegisters"@);
        assert(with_fields[3] == "AccumulationRegisters"@ && all[4] == "AccumulationRegisters"@);
        assert(with_fields[4] == "AccountingRegisters"@ && all[5] == "AccountingRegisters"@);
        assert(with_fields[5] == "CalculationRegisters"@ && all[6] == "CalculationRegisters"@);
        assert(with_fields[6] == "ChartsOfCharacteristicTypes"@ && all[10] == "ChartsOfCharacteristicTypes"@);
        assert(with_fields[7] == "ChartsOfAccounts"@ && all[9] == "ChartsOfAccounts"@);
        assert(with_fields[8] == "ChartsOfCalculationTypes"@ && all[11] == "ChartsOfCalculationTypes"@);
        assert(with_fields[9] == "BusinessProcesses"@ && all[12] == "BusinessProcesses"@);
        assert(with_fields[10] == "Tasks"@ && all[13] == "Tasks"@);
        assert(with_fields[11] == "ExchangePlans"@ && all[14] == "ExchangePlans"@);
        assert(with_fields[12] == "DocumentJournals"@ && all[16] == "DocumentJournals"@);
    }
}

/// The virtual tables that take a condition, in Russian and in English.
pub open spec fn virtual_tables_in_two_languages() -> Seq<(Seq<char>, Seq<char>)> {
    seq![
        ("ОСТАТКИ"@, "BALANCE"@),
        ("СРЕЗПОСЛЕДНИХ"@, "SLICELAST"@),
        ("СРЕЗПЕРВЫХ"@, "SLICEFIRST"@),
        ("ОБОРОТЫ"@, "TURNOVERS"@),
        ("ОСТАТКИИОБОРОТЫ"@, "BALANCEANDTURNOVERS"@),
    ]
}

/// A virtual table takes its condition in the same place in both languages.
pub proof fn law_virtual_tables_mean_the_same_in_both_languages(i: int)
    requires
        0 <= i < virtual_tables_in_two_languages().len(),
    ensures
        condition_parameter(virtual_tables_in_two_languages()[i].0) is Some,
        condition_parameter(virtual_tables_in_two_languages()[i].0) == condition_parameter(
            virtual_tables_in_two_languages()[i].1,
        ),
        condition_parameter(virtual_tables_in_two_languages()[i].0) == Some(
            if i < 3 {
                1int
            } else if i == 3 {
                3int
            } else {
                4int
            },
        ),
{
    reveal_strlit("ОСТАТКИ");
    reveal_strlit("BALANCE");
    reveal_strlit("СРЕЗПОСЛЕДНИХ");
    reveal_strlit("SLICELAST");
    reveal_strlit("СРЕЗПЕРВЫХ");
    reveal_strlit("SLICEFIRST");
    reveal_strlit("ОБОРОТЫ");
    reveal_strlit("TURNOVERS");
    reveal_strlit("ОСТАТКИИОБОРОТЫ");
    reveal_strlit("BALANCEANDTURNOVERS");
    assert("ОСТАТКИ"@.len() == 7 && "BALANCE"@.len() == 7);
    assert("СРЕЗПОСЛЕДНИХ"@.len() == 13 && "SLICELAST"@.len() == 9);
    assert("СРЕЗПЕРВЫХ"@.len() == 10 && "SLICEFIRST"@.len() == 10);
    assert("ОБОРОТЫ"@.len() == 7 && "TURNOVERS"@.len() == 9);
    assert("ОСТАТКИИОБОРОТЫ"@.len() == 15 && "BALANCEANDTURNOVERS"@.len() == 19);
    assert("ОСТАТКИ"@[0] == 'О' && "BALANCE"@[0] == 'B');
    assert("ОСТАТКИ"@[1] == 'С' && "ОБОРОТЫ"@[1] == 'Б');
    assert("BALANCE"@[0] == 'B' && "ОБОРОТЫ"@[0] == 'О');
    assert("SLICELAST"@[0] == 'S' && "TURNOVERS"@[0] == 'T');
    assert("СРЕЗПЕРВЫХ"@[0] == 'С' && "SLICEFIRST"@[0] == 'S');
}

/// The standard fields with an index, in Russian and in English.
pub open spec fn indexed_in_two_languages() -> Seq<(Seq<char>, Seq<char>)> {
    seq![
        ("ссылка"@, "ref"@),
        ("код"@, "code"@),
        ("наименование"@, "description"@),
        ("владелец"@, "owner"@),
        ("родитель"@, "parent"@),
        ("дата"@, "date"@),
        ("номер"@, "number"@),
        ("период"@, "period"@),
        ("регистратор"@, "recorder"@),
        ("номерстроки"@, "linenumber"@),
    ]
}

/// The fields of movements, in Russian and in English.
pub open spec fn movements_in_two_languages() -> Seq<(Seq<char>, Seq<char>)> {
    seq![
        ("регистратор"@, "recorder"@),
        ("период"@, "period"@),
        ("номерстроки"@, "linenumber"@),
        ("активность"@, "active"@),
        ("виддвижения"@, "recordtype"@),
    ]
}

/// A standard field has its index in both languages, and a field of movements is one in both.
pub proof fn law_standard_fields_mean_the_same_in_both_languages(i: int)
    ensures
        0 <= i < indexed_in_two_languages().len() ==> standard_indexed(indexed_in_two_languages()[i].0)
            && standard_indexed(indexed_in_two_languages()[i].1),
        0 <= i < movements_in_two_languages().len() ==> movement_field(movements_in_two_languages()[i].0)
            && movement_field(movements_in_two_languages()[i].1),
{
}

/// What is said of a query names the table and the field that it speaks of.
pub proof fn law_messages_name_what_they_speak_of(name: Seq<char>, meta: ast::MetaTableView, sub: Seq<char>, field: ast::FieldView)
    ensures
        text::holds(temp_table_message(name), name),
        text::holds(physical_message(meta), meta.name),
        text::holds(unfiltered_message(meta, sub), meta.name),
        text::holds(unfiltered_message(meta, sub), sub),
        text::holds(unindexed_message(meta, field), meta.name),
        text::holds(unindexed_message(meta, field), field.field_name()),
{
    assert(temp_table_message(name) =~= ("Временная таблица «"@) + name + ("» участвует в соединении, но не индексирована. Платформа выполнит соединение перебором. Добавьте ИНДЕКСИРОВАТЬ ПО полям, по которым идёт соединение."@));
    text::law_beginnings_and_ends("Временная таблица «"@, name, "» участвует в соединении, но не индексирована. Платформа выполнит соединение перебором. Добавьте ИНДЕКСИРОВАТЬ ПО полям, по которым идёт соединение."@);
    assert(physical_message(meta) =~= ("Чтение физической таблицы движений регистра остатков «"@) + meta.name + ("». Измерения в её кластерный индекс не входят, поэтому отбор идёт полным просмотром. Используйте виртуальную таблицу "@ + meta.kind + "."@ + meta.name + ".Остатки (или .ОстаткиИОбороты) — она читает таблицу итогов, где измерения проиндексированы."@));
    text::law_beginnings_and_ends("Чтение физической таблицы движений регистра остатков «"@, meta.name, "». Измерения в её кластерный индекс не входят, поэтому отбор идёт полным просмотром. Используйте виртуальную таблицу "@ + meta.kind + "."@ + meta.name + ".Остатки (или .ОстаткиИОбороты) — она читает таблицу итогов, где измерения проиндексированы."@);
    assert(unfiltered_message(meta, sub) =~= ("Виртуальная таблица "@ + meta.kind + "."@) + meta.name + ("."@ + sub + " вызвана без отбора по измерениям. Платформа рассчитает итоги по всему регистру, а лишние строки отсеются уже после. Перенесите условие в параметры виртуальной таблицы."@));
    text::law_beginnings_and_ends("Виртуальная таблица "@ + meta.kind + "."@, meta.name, "."@ + sub + " вызвана без отбора по измерениям. Платформа рассчитает итоги по всему регистру, а лишние строки отсеются уже после. Перенесите условие в параметры виртуальной таблицы."@);
    assert(unfiltered_message(meta, sub) =~= ("Виртуальная таблица "@ + meta.kind + "."@ + meta.name + "."@) + sub + (" вызвана без отбора по измерениям. Платформа рассчитает итоги по всему регистру, а лишние строки отсеются уже после. Перенесите условие в параметры виртуальной таблицы."@));
    text::law_beginnings_and_ends("Виртуальная таблица "@ + meta.kind + "."@ + meta.name + "."@, sub, " вызвана без отбора по измерениям. Платформа рассчитает итоги по всему регистру, а лишние строки отсеются уже после. Перенесите условие в параметры виртуальной таблицы."@);
    assert(unindexed_message(meta, field) =~= ("Соединение с «"@ + meta.kind + "."@) + meta.name + ("» идёт по полю «"@ + field.field_name() + "», у которого нет ни стандартного индекса, ни свойства «Индексировать». Поиск в присоединяемой таблице пойдёт полным просмотром. Установите «Индексировать» либо соединяйте по ссылке."@));
    text::law_beginnings_and_ends("Соединение с «"@ + meta.kind + "."@, meta.name, "» идёт по полю «"@ + field.field_name() + "», у которого нет ни стандартного индекса, ни свойства «Индексировать». Поиск в присоединяемой таблице пойдёт полным просмотром. Установите «Индексировать» либо соединяйте по ссылке."@);
    assert(unindexed_message(meta, field) =~= ("Соединение с «"@ + meta.kind + "."@ + meta.name + "» идёт по полю «"@) + field.field_name() + ("», у которого нет ни стандартного индекса, ни свойства «Индексировать». Поиск в присоединяемой таблице пойдёт полным просмотром. Установите «Индексировать» либо соединяйте по ссылке."@));
    text::law_beginnings_and_ends("Соединение с «"@ + meta.kind + "."@ + meta.name + "» идёт по полю «"@, field.field_name(), "», у которого нет ни стандартного индекса, ни свойства «Индексировать». Поиск в присоединяемой таблице пойдёт полным просмотром. Установите «Индексировать» либо соединяйте по ссылке."@);
}

} // verus!
