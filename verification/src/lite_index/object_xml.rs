//! The description of a metadata object: the kind of a register, and the fields.
//!
//! The layout of a description is
//!
//! ```xml
//! <Attribute uuid="…">
//!     <Properties>
//!         <Name>Контрагент</Name>
//!         <Indexing>DontIndex</Indexing>
//!     </Properties>
//! </Attribute>
//! ```
//!
//! so that the name and the index of a field stand two levels below the field. Attributes of
//! tabular sections are no fields of the object.
use crate::text;
use crate::text::{same_text, Edge};
use vstd::prelude::*;

verus! {

/// One step of the reading of an XML text.
#[derive(Debug, Clone)]
pub enum XmlEvent {
    /// A start tag, by its name without a prefix.
    Start(String),
    /// A piece of text, with its entities resolved.
    Text(String),
    /// An end tag.
    End,
    /// Anything else: an empty element, a comment, a declaration.
    Other,
}

/// The value of a step of the reading.
pub enum XmlEventView {
    Start(Seq<char>),
    Text(Seq<char>),
    End,
    Other,
}

impl View for XmlEvent {
    type V = XmlEventView;

    open spec fn view(&self) -> XmlEventView {
        match *self {
            XmlEvent::Start(name) => XmlEventView::Start(name@),
            XmlEvent::Text(text) => XmlEventView::Text(text@),
            XmlEvent::End => XmlEventView::End,
            XmlEvent::Other => XmlEventView::Other,
        }
    }
}

pub open spec fn event_views(v: Seq<XmlEvent>) -> Seq<XmlEventView> {
    v.map_values(|e: XmlEvent| e@)
}

/// The events that `quick_xml::Reader` gives for a text, with the white space at the ends of
/// pieces of text cut off, up to the end of the text or the first error.
pub uninterp spec fn xml_events(content: Seq<char>) -> Seq<XmlEventView>;

/// Reads a text with `quick_xml::Reader::read_event_into`, event by event, until the end or an
/// error. The name of a start tag is its local name; a piece of text is unescaped, and empty
/// where `unescape` fails. The contract says only that the events depend on the text alone.
#[verifier::external_body]
pub(crate) fn read_events(content: &str) -> (r: Vec<XmlEvent>)
    ensures
        event_views(r@) == xml_events(content@),
{
    let mut reader = quick_xml::Reader::from_str(content);
    reader.config_mut().trim_text(true);
    std::iter::from_fn(|| match reader.read_event_into(&mut Vec::new()) {
        Ok(quick_xml::events::Event::Start(e)) => {
            Some(XmlEvent::Start(String::from_utf8_lossy(e.local_name().as_ref()).to_string()))
        },
        Ok(quick_xml::events::Event::Text(e)) => {
            Some(XmlEvent::Text(e.unescape().unwrap_or_default().to_string()))
        },
        Ok(quick_xml::events::Event::End(_)) => Some(XmlEvent::End),
        Ok(quick_xml::events::Event::Eof) | Err(_) => None,
        Ok(_) => Some(XmlEvent::Other),
    }).collect()
}

/// What a field is.
#[derive(Debug, Clone, Copy, PartialEq, Eq, Structural)]
pub enum FieldKind {
    Attribute,
    Dimension,
    Resource,
}

impl FieldKind {
    /// The word for a kind of field.
    pub open spec fn word(self) -> Seq<char> {
        match self {
            FieldKind::Attribute => "attribute"@,
            FieldKind::Dimension => "dimension"@,
            FieldKind::Resource => "resource"@,
        }
    }

    /// The word for a kind of field.
    pub fn name(self) -> (r: &'static str)
        ensures
            r@ == self.word(),
    {
        match self {
            FieldKind::Attribute => "attribute",
            FieldKind::Dimension => "dimension",
            FieldKind::Resource => "resource",
        }
    }
}

/// A field of an object.
#[derive(Debug, Clone)]
pub struct XmlField {
    pub name: String,
    pub kind: FieldKind,
    /// How the field is indexed; `None` where it is not.
    pub indexing: Option<String>,
}

/// The value of a field.
pub struct XmlFieldView {
    pub name: Seq<char>,
    pub kind: FieldKind,
    pub indexing: Option<Seq<char>>,
}

impl View for XmlField {
    type V = XmlFieldView;

    open spec fn view(&self) -> XmlFieldView {
        XmlFieldView { name: self.name@, kind: self.kind, indexing: text::opt_text(self.indexing) }
    }
}

pub open spec fn field_views(v: Seq<XmlField>) -> Seq<XmlFieldView> {
    v.map_values(|f: XmlField| f@)
}

/// What the next piece of text is.
#[derive(Debug, Clone, Copy, PartialEq, Eq, Structural)]
pub enum Want {
    Nothing,
    RegisterType,
    Name,
    Indexing,
}

/// A field whose end tag is still to come.
pub struct OpenField {
    pub depth: usize,
    pub kind: FieldKind,
    pub name: Option<String>,
    pub indexing: Option<String>,
}

/// The value of a field whose end tag is still to come.
pub struct OpenFieldView {
    pub depth: int,
    pub kind: FieldKind,
    pub name: Option<Seq<char>>,
    pub indexing: Option<Seq<char>>,
}

impl View for OpenField {
    type V = OpenFieldView;

    open spec fn view(&self) -> OpenFieldView {
        OpenFieldView {
            depth: self.depth as int,
            kind: self.kind,
            name: text::opt_text(self.name),
            indexing: text::opt_text(self.indexing),
        }
    }
}

/// How far the reading of a description has come.
pub struct Reading {
    pub depth: usize,
    pub field: Option<OpenField>,
    /// The depth of the tabular section that the reading is inside of.
    pub tabular: Option<usize>,
    pub want: Want,
    pub register_type: Option<String>,
    pub fields: Vec<XmlField>,
}

/// The value of a state of the reading.
#[verifier::ext_equal]
pub struct ReadingView {
    pub depth: int,
    pub field: Option<OpenFieldView>,
    pub tabular: Option<int>,
    pub want: Want,
    pub register_type: Option<Seq<char>>,
    pub fields: Seq<XmlFieldView>,
}

impl View for Reading {
    type V = ReadingView;

    open spec fn view(&self) -> ReadingView {
        ReadingView {
            depth: self.depth as int,
            field: match self.field {
                Some(f) => Some(f@),
                None => None,
            },
            tabular: match self.tabular {
                Some(d) => Some(d as int),
                None => None,
            },
            want: self.want,
            register_type: text::opt_text(self.register_type),
            fields: field_views(self.fields@),
        }
    }
}

/// The tag that opens a field, and what field it is.
pub open spec fn field_kind(tag: Seq<char>) -> Option<FieldKind> {
    if tag == "Attribute"@ {
        Some(FieldKind::Attribute)
    } else if tag == "Dimension"@ {
        Some(FieldKind::Dimension)
    } else if tag == "Resource"@ {
        Some(FieldKind::Resource)
    } else {
        None
    }
}

/// What field a tag opens.
fn kind_of_tag(tag: &str) -> (r: Option<FieldKind>)
    ensures
        r == field_kind(tag@),
{
    if same_text(tag, "Attribute") {
        Some(FieldKind::Attribute)
    } else if same_text(tag, "Dimension") {
        Some(FieldKind::Dimension)
    } else if same_text(tag, "Resource") {
        Some(FieldKind::Resource)
    } else {
        None
    }
}

impl ReadingView {
    /// Nothing is read yet.
    pub open spec fn start() -> ReadingView {
        ReadingView {
            depth: 0,
            field: None,
            tabular: None,
            want: Want::Nothing,
            register_type: None,
            fields: Seq::empty(),
        }
    }

    /// The tag at this depth is a property of the open field.
    pub open spec fn in_field(self, depth: int) -> bool {
        match self.field {
            Some(f) => depth == f.depth + 2,
            None => false,
        }
    }

    /// What a start tag does.
    pub open spec fn after_start(self, tag: Seq<char>) -> ReadingView {
        let depth = self.depth + 1;
        let r = ReadingView { depth, ..self };
        if tag == "TabularSection"@ && self.tabular is None {
            ReadingView { tabular: Some(depth), ..r }
        } else if field_kind(tag) is Some && self.tabular is None {
            ReadingView {
                field: Some(
                    OpenFieldView { depth, kind: field_kind(tag)->0, name: None, indexing: None },
                ),
                ..r
            }
        } else if tag == "Name"@ && self.in_field(depth) {
            ReadingView { want: Want::Name, ..r }
        } else if tag == "Indexing"@ && self.in_field(depth) {
            ReadingView { want: Want::Indexing, ..r }
        } else if tag == "RegisterType"@ && self.field is None {
            ReadingView { want: Want::RegisterType, ..r }
        } else {
            r
        }
    }

    /// What a piece of text does: it is what the last tag asked for, if it is not blank. An
    /// index that says that there is none is left out.
    pub open spec fn after_text(self, piece: Seq<char>) -> ReadingView {
        let value = text::trimmed(Edge::Space, piece);
        let r = ReadingView { want: Want::Nothing, ..self };
        if value.len() == 0 {
            r
        } else {
            match (self.want, self.field) {
                (Want::RegisterType, _) => ReadingView { register_type: Some(value), ..r },
                (Want::Name, Some(f)) => ReadingView {
                    field: Some(OpenFieldView { name: Some(value), ..f }),
                    ..r
                },
                (Want::Indexing, Some(f)) => if value == "DontIndex"@ {
                    r
                } else {
                    ReadingView {
                        field: Some(OpenFieldView { indexing: Some(value), ..f }),
                        ..r
                    }
                },
                _ => r,
            }
        }
    }

    /// What an end tag does: the end of a field that has a name adds the field, and the end of
    /// the tabular section leaves it.
    pub open spec fn after_end(self) -> ReadingView {
        let closes = match self.field {
            Some(f) => f.depth == self.depth,
            None => false,
        };
        ReadingView {
            depth: if self.depth > 0 {
                self.depth - 1
            } else {
                0
            },
            field: if closes {
                None
            } else {
                self.field
            },
            tabular: if self.tabular == Some(self.depth) {
                None
            } else {
                self.tabular
            },
            want: Want::Nothing,
            register_type: self.register_type,
            fields: if closes && self.field->0.name is Some {
                self.fields.push(
                    XmlFieldView {
                        name: self.field->0.name->0,
                        kind: self.field->0.kind,
                        indexing: self.field->0.indexing,
                    },
                )
            } else {
                self.fields
            },
        }
    }

    /// What one event does.
    pub open spec fn after(self, event: XmlEventView) -> ReadingView {
        match event {
            XmlEventView::Start(tag) => self.after_start(tag),
            XmlEventView::Text(piece) => self.after_text(piece),
            XmlEventView::End => self.after_end(),
            XmlEventView::Other => self,
        }
    }
}

/// The state of the reading after the first `n` events.
pub open spec fn reading_of(events: Seq<XmlEventView>, n: int) -> ReadingView
    decreases n,
{
    if n <= 0 {
        ReadingView::start()
    } else {
        reading_of(events, n - 1).after(events[n - 1])
    }
}

/// The state of the reading after all events.
pub open spec fn whole_reading(events: Seq<XmlEventView>) -> ReadingView {
    reading_of(events, events.len() as int)
}

impl Reading {
    fn start_tag(&mut self, tag: &str)
        requires
            old(self).depth < usize::MAX,
        ensures
            final(self)@ == old(self)@.after_start(tag@),
            final(self).depth == old(self).depth + 1,
    {
        self.depth = self.depth + 1;
        let depth = self.depth;
        let in_field = match &self.field {
            Some(f) => depth >= 2 && depth - 2 == f.depth,
            None => false,
        };
        if same_text(tag, "TabularSection") && self.tabular.is_none() {
            self.tabular = Some(depth);
            return;
        }
        if let Some(kind) = kind_of_tag(tag) {
            if self.tabular.is_none() {
                self.field = Some(OpenField { depth, kind, name: None, indexing: None });
                return;
            }
        }
        if same_text(tag, "Name") && in_field {
            self.want = Want::Name;
        } else if same_text(tag, "Indexing") && in_field {
            self.want = Want::Indexing;
        } else if same_text(tag, "RegisterType") && self.field.is_none() {
            self.want = Want::RegisterType;
        }
    }

    fn text(&mut self, piece: &str)
        ensures
            final(self)@ == old(self)@.after_text(piece@),
            final(self).depth == old(self).depth,
    {
        let want = self.want;
        self.want = Want::Nothing;
        let value = text::trim(Edge::Space, piece);
        if same_text(value.as_str(), "") {
            proof {
                reveal_strlit("");
            }
            return;
        }
        proof {
            reveal_strlit("");
            assert(value@.len() == 0 ==> value@ =~= ""@);
        }
        match want {
            Want::RegisterType => {
                self.register_type = Some(value);
            },
            Want::Name => {
                if let Some(f) = self.field.take() {
                    self.field = Some(
                        OpenField {
                            depth: f.depth,
                            kind: f.kind,
                            name: Some(value),
                            indexing: f.indexing,
                        },
                    );
                }
            },
            Want::Indexing => {
                if let Some(f) = self.field.take() {
                    if same_text(value.as_str(), "DontIndex") {
                        self.field = Some(f);
                    } else {
                        self.field = Some(
                            OpenField {
                                depth: f.depth,
                                kind: f.kind,
                                name: f.name,
                                indexing: Some(value),
                            },
                        );
                    }
                }
            },
            Want::Nothing => {},
        }
    }

    fn end_tag(&mut self)
        ensures
            final(self)@ == old(self)@.after_end(),
            final(self).depth <= old(self).depth,
    {
        let depth = self.depth;
        if let Some(f) = self.field.take() {
            if f.depth == depth {
                if let Some(name) = f.name {
                    let one = XmlField { name, kind: f.kind, indexing: f.indexing };
                    let ghost before = self.fields@;
                    self.fields.push(one);
                    assert(field_views(self.fields@) =~= field_views(before).push(one@));
                }
            } else {
                self.field = Some(f);
            }
        }
        let leaves = match self.tabular {
            Some(d) => d == depth,
            None => false,
        };
        if leaves {
            self.tabular = None;
        }
        if depth > 0 {
            self.depth = depth - 1;
        }
        self.want = Want::Nothing;
    }
}

/// Reads the kind of a register and the fields of an object from the events of its description.
pub fn fields_of_events(events: &Vec<XmlEvent>) -> (r: (Option<String>, Vec<XmlField>))
    ensures
        text::opt_text(r.0) == whole_reading(event_views(events@)).register_type,
        field_views(r.1@) == whole_reading(event_views(events@)).fields,
{
    let mut reading = Reading {
        depth: 0,
        field: None,
        tabular: None,
        want: Want::Nothing,
        register_type: None,
        fields: Vec::new(),
    };
    let ghost views = event_views(events@);
    assert(reading@ =~= ReadingView::start());
    for i in 0..events.len()
        invariant
            views == event_views(events@),
            reading@ == reading_of(views, i as int),
            reading.depth <= i,
    {
        assert(views[i as int] == events[i as int]@);
        match &events[i] {
            XmlEvent::Start(tag) => reading.start_tag(tag.as_str()),
            XmlEvent::Text(piece) => reading.text(piece.as_str()),
            XmlEvent::End => reading.end_tag(),
            XmlEvent::Other => {},
        }
    }
    (reading.register_type, reading.fields)
}

/// Reads the kind of a register and the fields of an object from its description. Of a broken
/// description, what stands before the fault.
pub fn parse_object_xml(content: &str) -> (r: (Option<String>, Vec<XmlField>))
    ensures
        text::opt_text(r.0) == whole_reading(xml_events(content@)).register_type,
        field_views(r.1@) == whole_reading(xml_events(content@)).fields,
{
    let events = read_events(content);
    fields_of_events(&events)
}

/// A field as a plain value: its name, the word for its kind, and how it is indexed.
pub open spec fn plain_field(f: XmlFieldView) -> (Seq<char>, Seq<char>, Option<Seq<char>>) {
    (f.name, f.kind.word(), f.indexing)
}

/// Reads a description and gives the fields as plain values: name, word for the kind, index.
pub fn parse_object_xml_for_tests(content: &str) -> (r: (
    Option<String>,
    Vec<(String, String, Option<String>)>,
))
    ensures
        text::opt_text(r.0) == whole_reading(xml_events(content@)).register_type,
        r.1.len() == whole_reading(xml_events(content@)).fields.len(),
        forall|i: int|
            0 <= i < r.1.len() ==> (#[trigger] r.1[i].0@, r.1[i].1@, text::opt_text(r.1[i].2))
                == plain_field(whole_reading(xml_events(content@)).fields[i]),
{
    let (register_type, mut rest) = parse_object_xml(content);
    let ghost all = field_views(rest@);
    let mut out: Vec<(String, String, Option<String>)> = Vec::new();
    let count = rest.len();
    for i in 0..count
        invariant
            count == all.len(),
            out.len() == i,
            rest.len() == count - i,
            forall|k: int|
                0 <= k < rest.len() ==> (#[trigger] rest[k])@ == all[k + i],
            forall|k: int|
                0 <= k < i ==> (#[trigger] out[k].0@, out[k].1@, text::opt_text(out[k].2))
                    == plain_field(all[k]),
    {
        assert(rest[0]@ == all[i as int]);
        let f = rest.remove(0);
        out.push((f.name, f.kind.name().to_string(), f.indexing));
    }
    (register_type, out)
}

/// What holds of every state of the reading.
pub open spec fn usable(r: ReadingView) -> bool {
    &&& forall|i: int|
        0 <= i < r.fields.len() ==> (#[trigger] r.fields[i]).name.len() > 0 && r.fields[i].indexing
            != Some("DontIndex"@)
    &&& match r.field {
        Some(f) => (f.name matches Some(name) ==> name.len() > 0) && f.indexing != Some(
            "DontIndex"@,
        ),
        None => true,
    }
}

proof fn lemma_usable(events: Seq<XmlEventView>, n: int)
    ensures
        usable(reading_of(events, n)),
    decreases n,
{
    if n > 0 {
        lemma_usable(events, n - 1);
    }
}

/// Every field that is read has a name, and none is said to be indexed by `DontIndex`: where a
/// field has an index, it is a real one.
pub proof fn law_fields_are_usable(events: Seq<XmlEventView>, i: int)
    requires
        0 <= i < whole_reading(events).fields.len(),
    ensures
        whole_reading(events).fields[i].name.len() > 0,
        whole_reading(events).fields[i].indexing != Some("DontIndex"@),
{
    lemma_usable(events, events.len() as int);
}

/// Nothing inside a tabular section is a field of the object: from an event before which no field
/// is open, and as long as the reading is inside the section, the fields stay as they are.
pub proof fn law_tabular_sections_add_no_fields(events: Seq<XmlEventView>, from: int, to: int)
    requires
        0 <= from <= to <= events.len(),
        reading_of(events, from).field is None,
        forall|k: int| from <= k < to ==> (#[trigger] reading_of(events, k)).tabular is Some,
    ensures
        reading_of(events, to).fields == reading_of(events, from).fields,
        reading_of(events, to).field is None,
    decreases to - from,
{
    if from < to {
        law_tabular_sections_add_no_fields(events, from, to - 1);
        assert(reading_of(events, to - 1).tabular is Some);
    }
}

/// The events of the description of one field.
pub open spec fn field_events(tag: Seq<char>, name: Seq<char>, indexing: Seq<char>) -> Seq<
    XmlEventView,
> {
    seq![
        XmlEventView::Start(tag),
        XmlEventView::Start("Properties"@),
        XmlEventView::Start("Name"@),
        XmlEventView::Text(name),
        XmlEventView::End,
        XmlEventView::Start("Indexing"@),
        XmlEventView::Text(indexing),
        XmlEventView::End,
        XmlEventView::End,
        XmlEventView::End,
    ]
}

/// The state that a sequence of events leads to.
pub open spec fn run(r: ReadingView, events: Seq<XmlEventView>) -> ReadingView
    decreases events.len(),
{
    if events.len() == 0 {
        r
    } else {
        run(r.after(events[0]), events.drop_first())
    }
}

/// Outside tabular sections the description of a field adds exactly that field: its name, its
/// kind, and its index unless that is `DontIndex`.
pub proof fn law_field_is_read(
    r: ReadingView,
    tag: Seq<char>,
    name: Seq<char>,
    indexing: Seq<char>,
)
    requires
        r.depth >= 0,
        r.tabular is None,
        field_kind(tag) is Some,
        text::trimmed(Edge::Space, name).len() > 0,
        text::trimmed(Edge::Space, indexing).len() > 0,
    ensures
        run(r, field_events(tag, name, indexing)).fields == r.fields.push(
            XmlFieldView {
                name: text::trimmed(Edge::Space, name),
                kind: field_kind(tag)->0,
                indexing: if text::trimmed(Edge::Space, indexing) == "DontIndex"@ {
                    None
                } else {
                    Some(text::trimmed(Edge::Space, indexing))
                },
            },
        ),
        run(r, field_events(tag, name, indexing)).field is None,
        run(r, field_events(tag, name, indexing)).depth == r.depth,
{
    reveal_strlit("TabularSection");
    reveal_strlit("Attribute");
    reveal_strlit("Dimension");
    reveal_strlit("Resource");
    reveal_strlit("Properties");
    reveal_strlit("Name");
    reveal_strlit("Indexing");
    reveal_strlit("RegisterType");
    let e = field_events(tag, name, indexing);
    let tabular = "TabularSection"@.len();
    assert(tag.len() < tabular && "Properties"@.len() < tabular);
    assert("Name"@.len() < tabular && "Indexing"@.len() < tabular);
    assert("Properties"@[0] != "Attribute"@[0]);
    assert("Properties"@[0] != "Dimension"@[0]);
    assert("Indexing"@[0] != "Resource"@[0]);
    assert(e.skip(0) =~= e);
    lemma_run_step(r, e, 0);
    let r1 = r.after(e[0]);
    lemma_run_step(r1, e, 1);
    let r2 = r1.after(e[1]);
    lemma_run_step(r2, e, 2);
    let r3 = r2.after(e[2]);
    lemma_run_step(r3, e, 3);
    assert(r3.want == Want::Name);
    let r4 = r3.after(e[3]);
    assert(r4.field->0.name == Some(text::trimmed(Edge::Space, name)));
    lemma_run_step(r4, e, 4);
    let r5 = r4.after(e[4]);
    lemma_run_step(r5, e, 5);
    let r6 = r5.after(e[5]);
    lemma_run_step(r6, e, 6);
    assert(r6.want == Want::Indexing);
    let r7 = r6.after(e[6]);
    assert(r7.field->0.depth == r.depth + 1 && r7.fields == r.fields);
    lemma_run_step(r7, e, 7);
    let r8 = r7.after(e[7]);
    lemma_run_step(r8, e, 8);
    let r9 = r8.after(e[8]);
    lemma_run_step(r9, e, 9);
    let r10 = r9.after(e[9]);
    assert(r9.field == r7.field && r9.depth == r.depth + 1 && r9.fields == r.fields);
    assert(r10.fields == r.fields.push(
        XmlFieldView {
            name: r7.field->0.name->0,
            kind: r7.field->0.kind,
            indexing: r7.field->0.indexing,
        },
    ));
    assert(e.skip(10).len() == 0);
    assert(run(r10, e.skip(10)) == r10);
}

proof fn lemma_run_step(r: ReadingView, events: Seq<XmlEventView>, i: int)
    requires
        0 <= i < events.len(),
    ensures
        run(r, events.skip(i)) == run(r.after(events[i]), events.skip(i + 1)),
{
    assert(events.skip(i).drop_first() =~= events.skip(i + 1));
    assert(events.skip(i)[0] == events[i]);
}

/// The reading of a whole text is the run of its events from the beginning.
pub proof fn law_reading_is_a_run(events: Seq<XmlEventView>)
    ensures
        whole_reading(events) == run(ReadingView::start(), events),
{
    lemma_reading_run(events, events.len() as int);
    assert(events.skip(events.len() as int).len() == 0);
    assert(events.skip(0) =~= events);
}

proof fn lemma_reading_run(events: Seq<XmlEventView>, n: int)
    requires
        0 <= n <= events.len(),
    ensures
        run(ReadingView::start(), events.skip(0)) == run(reading_of(events, n), events.skip(n)),
    decreases n,
{
    if n > 0 {
        lemma_reading_run(events, n - 1);
        lemma_run_step(reading_of(events, n - 1), events, n - 1);
    }
}

/// The sort of a register is the text of its own element, white space aside, wherever it stands
/// outside of fields.
pub proof fn law_sort_of_a_register_is_read(r: ReadingView, value: Seq<char>)
    requires
        r.field is None,
        text::trimmed(Edge::Space, value).len() > 0,
    ensures
        ({
            let events = seq![
                XmlEventView::Start("RegisterType"@),
                XmlEventView::Text(value),
                XmlEventView::End,
            ];
            run(r, events).register_type == Some(text::trimmed(Edge::Space, value))
                && run(r, events).fields == r.fields
        }),
{
    reveal_strlit("RegisterType");
    reveal_strlit("TabularSection");
    reveal_strlit("Attribute");
    reveal_strlit("Dimension");
    reveal_strlit("Resource");
    reveal_strlit("Name");
    reveal_strlit("Indexing");
    let events = seq![XmlEventView::Start("RegisterType"@), XmlEventView::Text(value), XmlEventView::End];
    reveal_with_fuel(run, 4);
    assert("RegisterType"@.len() == 12);
    assert(events.drop_first()[0] == XmlEventView::Text(value));
    assert(events.drop_first().drop_first()[0] == XmlEventView::End);
    assert(events.drop_first().drop_first().drop_first().len() == 0);
    assert("RegisterType"@ != "TabularSection"@);
    assert(field_kind("RegisterType"@) is None);
    assert("RegisterType"@ != "Name"@);
    assert("RegisterType"@ != "Indexing"@);
}

} // verus!
