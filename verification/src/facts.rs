//! What a parser of the language reports of a module, as plain values.
use vstd::prelude::*;

verus! {

/// An access `head.member` whose head is a plain name.
#[derive(Debug, Clone)]
pub struct DotFact {
    pub head: String,
    pub head_byte: usize,
    pub member: String,
    pub member_byte: usize,
    /// The member is called.
    pub member_is_call: bool,
}

/// An expression `New name`.
#[derive(Debug, Clone)]
pub struct NewFact {
    pub name: String,
    pub byte: usize,
}

/// A call `name(...)` without a prefix.
#[derive(Debug, Clone)]
pub struct CallFact {
    pub name: String,
    pub byte: usize,
    pub arg_count: usize,
}

/// An assignment to a plain name, or a declaration of a variable.
#[derive(Debug, Clone)]
pub struct AssignFact {
    pub name: String,
    pub byte: usize,
    pub declaration: bool,
}

/// A procedure or function of the module: its bytes, its parameters in lower case, and
/// whether it runs without the context of its form.
#[derive(Debug, Clone)]
pub struct ProcScope {
    pub byte_start: usize,
    pub byte_end: usize,
    pub params: Vec<String>,
    pub no_context: bool,
}

impl ProcScope {
    /// Whether a byte lies in the procedure.
    pub fn contains(&self, byte: usize) -> (r: bool)
        ensures
            r == (self.byte_start <= byte < self.byte_end),
    {
        self.byte_start <= byte && byte < self.byte_end
    }
}

/// A call of a method of an object's manager: `collection.object.method(...)`.
#[derive(Debug, Clone)]
pub struct ManagerCallFact {
    pub collection: String,
    pub object: String,
    pub method: String,
    pub method_byte: usize,
}

/// All facts of a module.
#[derive(Debug, Clone)]
pub struct AstFacts {
    pub dots: Vec<DotFact>,
    pub news: Vec<NewFact>,
    pub calls: Vec<CallFact>,
    pub assigns: Vec<AssignFact>,
    pub procs: Vec<ProcScope>,
    /// The names of the declared procedures and functions, in lower case.
    pub declarations: Vec<String>,
    /// The module holds compilation directives.
    pub has_directives: bool,
    pub manager_calls: Vec<ManagerCallFact>,
    /// The variables of loops, in lower case.
    pub loop_vars: Vec<String>,
}

impl AstFacts {
    /// The facts of an empty module.
    pub fn new() -> (r: AstFacts)
        ensures
            r.dots@.len() == 0,
            r.news@.len() == 0,
            r.calls@.len() == 0,
            r.assigns@.len() == 0,
            r.procs@.len() == 0,
            r.declarations@.len() == 0,
            !r.has_directives,
            r.manager_calls@.len() == 0,
            r.loop_vars@.len() == 0,
    {
        AstFacts {
            dots: Vec::new(),
            news: Vec::new(),
            calls: Vec::new(),
            assigns: Vec::new(),
            procs: Vec::new(),
            declarations: Vec::new(),
            has_directives: false,
            manager_calls: Vec::new(),
            loop_vars: Vec::new(),
        }
    }
}

/// A piece of a query text: its bytes from `text_start` on stand in the module from
/// `module_start` on.
#[derive(Debug, Clone, Copy)]
pub struct TextSpan {
    pub text_start: usize,
    pub module_start: usize,
}

/// A query text as it is put together from the literals of a module.
#[derive(Debug, Clone)]
pub struct QueryText {
    pub text: String,
    /// The pieces, in the order of the text.
    pub spans: Vec<TextSpan>,
}

/// The last piece, among the first `n`, that starts at or before a byte of the text.
pub open spec fn span_before(spans: Seq<TextSpan>, offset: nat, n: int) -> Option<TextSpan>
    decreases n,
{
    if n <= 0 {
        None
    } else if spans[n - 1].text_start <= offset {
        Some(spans[n - 1])
    } else {
        span_before(spans, offset, n - 1)
    }
}

/// The byte of the module at which a byte of the query text stands. Before the first piece
/// it is where the first piece starts; without pieces it is the start of the module. It is
/// the last byte that can be counted where the sum is greater than that.
pub open spec fn module_byte(spans: Seq<TextSpan>, offset: nat) -> nat {
    match span_before(spans, offset, spans.len() as int) {
        Some(s) => if s.module_start + (offset - s.text_start) <= usize::MAX {
            (s.module_start + (offset - s.text_start)) as nat
        } else {
            usize::MAX as nat
        },
        None => if spans.len() > 0 {
            spans[0].module_start as nat
        } else {
            0
        },
    }
}

impl QueryText {
    /// The byte of the module at which a byte of the query text stands.
    pub fn map_offset(&self, offset: usize) -> (r: usize)
        ensures
            r == module_byte(self.spans@, offset as nat),
    {
        let mut n: usize = self.spans.len();
        while n > 0
            invariant
                n <= self.spans.len(),
                span_before(self.spans@, offset as nat, n as int) == span_before(
                    self.spans@,
                    offset as nat,
                    self.spans.len() as int,
                ),
            decreases n,
        {
            let s = &self.spans[n - 1];
            if s.text_start <= offset {
                return s.module_start.saturating_add(offset - s.text_start);
            }
            n -= 1;
        }
        if self.spans.len() > 0 {
            self.spans[0].module_start
        } else {
            0
        }
    }
}

/// A module as it was read: the text without the blocks that an extension takes out, the
/// same text with strings and comments blanked, what the parser reports of it, the names
/// that a scan of the text finds declared, and the query texts in it.
#[derive(Debug, Clone)]
pub struct ParsedModule {
    pub source: String,
    pub cleaned: String,
    pub facts: AstFacts,
    pub scanned_declarations: Vec<String>,
    pub queries: Vec<QueryText>,
}

proof fn lemma_span_before(spans: Seq<TextSpan>, offset: nat, n: int, i: int)
    requires
        0 <= i < n <= spans.len(),
        spans[i].text_start <= offset,
        forall|k: int| i < k < n ==> (#[trigger] spans[k]).text_start > offset,
    ensures
        span_before(spans, offset, n) == Some(spans[i]),
    decreases n,
{
    if n - 1 > i {
        assert(spans[n - 1].text_start > offset);
        lemma_span_before(spans, offset, n - 1, i);
    }
}

proof fn lemma_no_span_before(spans: Seq<TextSpan>, offset: nat, n: int)
    requires
        n <= spans.len(),
        forall|k: int| 0 <= k < n ==> (#[trigger] spans[k]).text_start > offset,
    ensures
        span_before(spans, offset, n) is None,
    decreases n,
{
    if n > 0 {
        assert(spans[n - 1].text_start > offset);
        lemma_no_span_before(spans, offset, n - 1);
    }
}

/// A byte of a query text stands in the module as far behind the start of its piece as in the
/// text: the piece is the last that begins at the byte or before it. A byte before all pieces
/// stands where the first one does.
pub proof fn law_byte_keeps_its_place_in_its_piece(spans: Seq<TextSpan>, offset: nat, i: int)
    requires
        0 <= i < spans.len(),
    ensures
        spans[i].text_start <= offset && (forall|k: int|
            i < k < spans.len() ==> (#[trigger] spans[k]).text_start > offset) && spans[i].module_start
            + offset <= usize::MAX ==> module_byte(spans, offset) + spans[i].text_start
            == spans[i].module_start + offset,
        (forall|k: int| 0 <= k < spans.len() ==> (#[trigger] spans[k]).text_start > offset)
            ==> module_byte(spans, offset) == spans[0].module_start,
{
    if spans[i].text_start <= offset && (forall|k: int|
        i < k < spans.len() ==> (#[trigger] spans[k]).text_start > offset) {
        lemma_span_before(spans, offset, spans.len() as int, i);
    }
    if forall|k: int| 0 <= k < spans.len() ==> (#[trigger] spans[k]).text_start > offset {
        lemma_no_span_before(spans, offset, spans.len() as int);
    }
}

} // verus!
