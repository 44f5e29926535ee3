//! Findings: what a check reports, and where.
use crate::text;
use crate::text::chars_of;
use crate::text::width_of;
use vstd::prelude::*;

verus! {

/// What a finding says.
#[derive(Debug, Clone, Copy, PartialEq, Eq, Structural)]
pub enum ExprErrorKind {
    UnknownEnumValue,
    UnknownTypeMember,
    UnknownNewType,
    WrongArgumentCount,
    UnknownGlobalMethod,
    /// A call that neither the module declares nor the platform offers, and that is like no
    /// other name. Only a whole module can show it.
    UndeclaredMethod,
    /// The name of a directive that does not exist.
    UnknownDirective,
    /// An assignment to a name that a read-only member of the context takes.
    ShadowedContextName,
    UnknownCommonModule,
    UnknownMetadataObject,
    UnknownManagerMethod,
    UnknownGlobalProperty,
    ReservedProcedureName,
    DuplicateDeclaration,
    UnbalancedModuleBlock,
    TempTableWithoutIndex,
    OrInJoinCondition,
    JoinWithSubquery,
    PhysicalRegisterTable,
    VirtualTableWithoutFilter,
    JoinOnUnindexedField,
}

/// How reliable a finding is.
#[derive(Debug, Clone, Copy, PartialEq, Eq, Structural)]
pub enum Confidence {
    /// Compared with what exists: hardly ever wrong.
    High,
    /// Resting on a guess, or on how complete the platform help is.
    Low,
}

/// The reliability of a kind of finding, where the check does not set it itself.
pub open spec fn kind_confidence(kind: ExprErrorKind) -> Confidence {
    match kind {
        ExprErrorKind::UnknownEnumValue
        | ExprErrorKind::WrongArgumentCount
        | ExprErrorKind::UndeclaredMethod
        | ExprErrorKind::ShadowedContextName
        | ExprErrorKind::UnknownCommonModule
        | ExprErrorKind::UnknownMetadataObject
        | ExprErrorKind::ReservedProcedureName
        | ExprErrorKind::DuplicateDeclaration
        | ExprErrorKind::UnbalancedModuleBlock => Confidence::High,
        _ => Confidence::Low,
    }
}

impl ExprErrorKind {
    /// The reliability of a kind of finding, where the check does not set it itself.
    pub fn confidence(self) -> (r: Confidence)
        ensures
            r == kind_confidence(self),
    {
        match self {
            ExprErrorKind::UnknownEnumValue
            | ExprErrorKind::WrongArgumentCount
            | ExprErrorKind::UndeclaredMethod
            | ExprErrorKind::ShadowedContextName
            | ExprErrorKind::UnknownCommonModule
            | ExprErrorKind::UnknownMetadataObject
            | ExprErrorKind::ReservedProcedureName
            | ExprErrorKind::DuplicateDeclaration
            | ExprErrorKind::UnbalancedModuleBlock => Confidence::High,
            _ => Confidence::Low,
        }
    }
}

/// A name that is like the one that was not found.
#[derive(Debug, Clone)]
pub struct SimilarValue {
    pub name: String,
}

/// A finding.
#[derive(Debug, Clone)]
pub struct ExprError {
    pub line: u32,
    pub col: u32,
    pub kind: ExprErrorKind,
    pub message: String,
    pub confidence: Confidence,
    /// The closest name, where there is one.
    pub suggestion: Option<String>,
    pub similar: Vec<SimilarValue>,
}

/// The contents of a finding.
#[verifier::ext_equal]
pub struct FindingView {
    pub line: nat,
    pub col: nat,
    pub kind: ExprErrorKind,
    pub message: Seq<char>,
    pub confidence: Confidence,
    pub suggestion: Option<Seq<char>>,
    pub similar: Seq<Seq<char>>,
}

impl View for ExprError {
    type V = FindingView;

    open spec fn view(&self) -> FindingView {
        FindingView {
            line: self.line as nat,
            col: self.col as nat,
            kind: self.kind,
            message: self.message@,
            confidence: self.confidence,
            suggestion: text::opt_text(self.suggestion),
            similar: self.similar@.map_values(|v: SimilarValue| v.name@),
        }
    }
}

/// The contents of a list of findings.
pub open spec fn finding_views(v: Seq<ExprError>) -> Seq<FindingView> {
    v.map_values(|e: ExprError| e@)
}

pub proof fn lemma_finding_push(v: Seq<ExprError>, x: ExprError)
    ensures
        finding_views(v.push(x)) == finding_views(v).push(x@),
{
    assert(finding_views(v.push(x)) =~= finding_views(v).push(x@));
}

/// The findings that an optional one makes.
pub open spec fn some_finding(o: Option<FindingView>) -> Seq<FindingView> {
    match o {
        Some(f) => seq![f],
        None => seq![],
    }
}

/// The contents of an optional finding.
pub open spec fn opt_finding(o: Option<ExprError>) -> Option<FindingView> {
    match o {
        Some(e) => Some(e@),
        None => None,
    }
}

/// Add a finding, where there is one.
pub fn add_finding(errors: &mut Vec<ExprError>, found: Option<ExprError>)
    ensures
        finding_views(final(errors)@) == finding_views(old(errors)@) + some_finding(opt_finding(found)),
{
    match found {
        Some(e) => {
            proof {
                lemma_finding_push(errors@, e);
                assert(finding_views(errors@).push(e@) =~= finding_views(errors@) + seq![e@]);
            }
            errors.push(e);
        },
        None => {
            assert(finding_views(errors@) + Seq::<FindingView>::empty() =~= finding_views(errors@));
        },
    }
}

/// The lines and columns of a text can be counted in 32 bits.
pub open spec fn countable(src: Seq<char>) -> bool {
    src.len() < u32::MAX
}

/// The number of the line on which a text ends, the first one being 1.
pub open spec fn line_after(s: Seq<char>) -> nat
    decreases s.len(),
{
    if s.len() == 0 {
        1
    } else {
        line_after(s.drop_last()) + if s.last() == '\n' {
            1nat
        } else {
            0nat
        }
    }
}

/// The number of the column behind the last character of a text, the first one being 1.
pub open spec fn col_after(s: Seq<char>) -> nat
    decreases s.len(),
{
    if s.len() == 0 {
        1
    } else if s.last() == '\n' {
        1
    } else {
        col_after(s.drop_last()) + 1
    }
}

/// The line and the column of the first character that starts at or behind a byte.
pub open spec fn position(src: Seq<char>, byte: nat) -> (nat, nat) {
    let before = src.take(text::chars_before(src, byte));
    (line_after(before), col_after(before))
}

/// The line and the column of the first character that starts at or behind a byte.
pub fn pos_at(src: &str, byte_idx: usize) -> (r: (u32, u32))
    requires
        countable(src@),
    ensures
        (r.0 as nat, r.1 as nat) == position(src@, byte_idx as nat),
{
    let chars = chars_of(src);
    let mut line: u32 = 1;
    let mut col: u32 = 1;
    let mut at: usize = 0;
    let mut i: usize = 0;
    proof {
        assert(src@.take(0) =~= Seq::<char>::empty());
    }
    while i < chars.len() && at < byte_idx
        invariant
            chars@ == src@,
            countable(src@),
            i <= chars.len(),
            line <= i + 1,
            col <= i + 1,
            line == line_after(src@.take(i as int)),
            col == col_after(src@.take(i as int)),
            at >= byte_idx ==> text::byte_at(src@, i as int) >= byte_idx,
            at < byte_idx ==> at == text::byte_at(src@, i as int),
            text::chars_before(src@, byte_idx as nat) == text::chars_before_from(
                src@,
                byte_idx as nat,
                i as int,
            ),
        decreases chars.len() - i,
    {
        let c = chars[i];
        proof {
            text::lemma_byte_at_step(src@, i as int);
            assert(src@.take(i + 1).drop_last() =~= src@.take(i as int));
            assert(src@.take(i + 1).last() == c);
        }
        if c == '\n' {
            line = line + 1;
            col = 1;
        } else {
            col = col + 1;
        }
        let width = width_of(c);
        at = at.saturating_add(width);
        i += 1;
    }
    (line, col)
}

/// A finding at a byte of a text.
pub open spec fn finding_at(
    src: Seq<char>,
    byte: nat,
    kind: ExprErrorKind,
    message: Seq<char>,
    confidence: Confidence,
    suggestion: Option<Seq<char>>,
) -> FindingView {
    FindingView {
        line: position(src, byte).0,
        col: position(src, byte).1,
        kind,
        message,
        confidence,
        suggestion,
        similar: seq![],
    }
}

impl ExprError {
    /// A finding with a given reliability.
    pub(crate) fn new_with_confidence(
        line: u32,
        col: u32,
        kind: ExprErrorKind,
        message: String,
        confidence: Confidence,
        suggestion: Option<String>,
        similar: Vec<SimilarValue>,
    ) -> (r: ExprError)
        ensures
            r == (ExprError { line, col, kind, message, confidence, suggestion, similar }),
    {
        ExprError { line, col, kind, message, confidence, suggestion, similar }
    }

    /// A finding at a byte of a text.
    pub(crate) fn at(
        src: &str,
        byte: usize,
        kind: ExprErrorKind,
        message: String,
        confidence: Confidence,
        suggestion: Option<String>,
    ) -> (r: ExprError)
        requires
            countable(src@),
        ensures
            r@ == finding_at(
                src@,
                byte as nat,
                kind,
                message@,
                confidence,
                text::opt_text(suggestion),
            ),
    {
        let (line, col) = pos_at(src, byte);
        let r = ExprError::new_with_confidence(
            line,
            col,
            kind,
            message,
            confidence,
            suggestion,
            Vec::new(),
        );
        assert(r@.similar =~= Seq::<Seq<char>>::empty());
        r
    }
}

/// The end of a message that offers a name, where there is one to offer.
pub open spec fn hint(lead: Seq<char>, suggestion: Option<Seq<char>>) -> Seq<char> {
    match suggestion {
        Some(s) => lead + s + "'."@,
        None => seq![],
    }
}

/// Add the end of a message that offers a name, where there is one to offer.
pub fn add_hint(message: &mut String, lead: &str, suggestion: &Option<String>)
    ensures
        final(message)@ == old(message)@ + hint(lead@, text::opt_text(*suggestion)),
{
    match suggestion {
        Some(s) => {
            message.append(lead);
            message.append(s.as_str());
            message.append("'.");
            assert(message@ =~= old(message)@ + (lead@ + s@ + "'."@));
        },
        None => {
            assert(message@ =~= old(message)@ + Seq::<char>::empty());
        },
    }
}

/// What stands in a list of findings after one more element was looked at.
pub proof fn lemma_one_more(before: Seq<FindingView>, one: Option<FindingView>)
    ensures
        (before + some_finding(one)).len() <= before.len() + 1,
        before.is_prefix_of(before + some_finding(one)),
        forall|f: FindingView| #[trigger]
            (before + some_finding(one)).contains(f) <==> before.contains(f) || one == Some(f),
{
    let all = before + some_finding(one);
    assert(before =~= all.subrange(0, before.len() as int));
    assert forall|f: FindingView| #[trigger] all.contains(f) <==> before.contains(f) || one == Some(
        f,
    ) by {
        if before.contains(f) {
            let k = choose|k: int| 0 <= k < before.len() && before[k] == f;
            assert(all[k] == f);
        }
        if one == Some(f) {
            assert(all[before.len() as int] == f);
        }
        if all.contains(f) {
            let k = choose|k: int| 0 <= k < all.len() && all[k] == f;
            if k < before.len() {
                assert(before[k] == f);
            }
        }
    }
}

/// The first of three lists starts the third where it starts the second and the second starts
/// the third.
pub proof fn lemma_prefix(a: Seq<FindingView>, b: Seq<FindingView>, c: Seq<FindingView>)
    requires
        a.is_prefix_of(b),
        b.is_prefix_of(c),
    ensures
        a.is_prefix_of(c),
{
    assert(a =~= c.subrange(0, a.len() as int)) by {
        assert forall|k: int| 0 <= k < a.len() implies a[k] == c[k] by {
            assert(a[k] == b.subrange(0, a.len() as int)[k]);
            assert(b[k] == c.subrange(0, b.len() as int)[k]);
        }
    }
}

/// Lines are counted by line feeds: a text without one lies on the first line, a line feed
/// begins a line whatever stands before it, and the lines of two texts one after the other add
/// up.
pub proof fn law_lines_are_counted_by_line_feeds(a: Seq<char>, b: Seq<char>)
    ensures
        line_after(a + b) + 1 == line_after(a) + line_after(b),
        line_after(a.push('\n')) == line_after(a) + 1,
        (forall|k: int| 0 <= k < a.len() ==> a[k] != '\n') <==> line_after(a) == 1,
    decreases a.len() + b.len(),
{
    assert(a.push('\n').drop_last() =~= a);
    if b.len() == 0 {
        assert(a + b =~= a);
        if a.len() > 0 {
            law_lines_are_counted_by_line_feeds(a.drop_last(), b);
            assert(a.last() == a[a.len() - 1]);
            assert forall|k: int| 0 <= k < a.len() - 1 implies a.drop_last()[k] == a[k] by {}
            lemma_line_after(a.drop_last());
            if line_after(a) == 1 {
                assert forall|k: int| 0 <= k < a.len() implies a[k] != '\n' by {
                    if k < a.len() - 1 {
                        assert(a.drop_last()[k] != '\n');
                    }
                }
            }
        }
    } else {
        law_lines_are_counted_by_line_feeds(a, b.drop_last());
        assert((a + b).drop_last() =~= a + b.drop_last());
        assert((a + b).last() == b.last());
    }
}

proof fn lemma_line_after(s: Seq<char>)
    ensures
        line_after(s) >= 1,
    decreases s.len(),
{
    if s.len() > 0 {
        lemma_line_after(s.drop_last());
    }
}

/// Columns are counted from the last line feed: whatever stands before it, the column behind a
/// line feed and `b` characters of the same line is one more than `b`.
pub proof fn law_columns_are_counted_from_the_line_feed(a: Seq<char>, b: Seq<char>)
    requires
        forall|k: int| 0 <= k < b.len() ==> b[k] != '\n',
    ensures
        col_after(b) == b.len() + 1,
        col_after(a.push('\n') + b) == b.len() + 1,
    decreases b.len(),
{
    if b.len() == 0 {
        assert(a.push('\n') + b =~= a.push('\n'));
    } else {
        assert forall|k: int| 0 <= k < b.len() - 1 implies b.drop_last()[k] != '\n' by {
            assert(b[k] != '\n');
        }
        law_columns_are_counted_from_the_line_feed(a, b.drop_last());
        assert((a.push('\n') + b).drop_last() =~= a.push('\n') + b.drop_last());
        assert((a.push('\n') + b).last() == b.last());
        assert(b.last() == b[b.len() - 1]);
    }
}

/// What stands in two lists of findings one after the other.
pub proof fn lemma_either(a: Seq<FindingView>, b: Seq<FindingView>, f: FindingView)
    ensures
        (a + b).contains(f) <==> a.contains(f) || b.contains(f),
{
    if a.contains(f) {
        let k = choose|k: int| 0 <= k < a.len() && a[k] == f;
        assert((a + b)[k] == f);
    }
    if b.contains(f) {
        let k = choose|k: int| 0 <= k < b.len() && b[k] == f;
        assert((a + b)[a.len() + k] == f);
    }
    if (a + b).contains(f) {
        let k = choose|k: int| 0 <= k < (a + b).len() && (a + b)[k] == f;
        if k < a.len() {
            assert(a[k] == f);
        } else {
            assert(b[k - a.len()] == f);
        }
    }
}

} // verus!
