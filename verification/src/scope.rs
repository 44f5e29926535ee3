//! Types of local variables, within one procedure.
//!
//! The type of a variable follows from `X = New T`, from `X = T.Value` where `T` is an
//! enumeration, from an annotation `// @type T` before the assignment, and, at level 3,
//! from what the methods and properties of a chain `X = A.B().C()` give.
use crate::platform;
use crate::platform::{find_method, find_property, PlatformIndex};
use crate::text;
use crate::text::{
    byte_len_of, byte_offsets, char_index, char_is_alpha, chars_of, same_text,
    scan_ident, scan_line, text_range, to_lower, trim, Edge,
};
use vstd::prelude::*;

verus! {

/// A procedure or function with its body.
pub const PROC_BLOCK: &'static str = r"(?is)(?P<head>(?:Процедура|Функция)\s+\w+\s*\([^)]*\))(?P<body>.*?)(?P<tail>КонецПроцедуры|КонецФункции)";

/// An assignment at the start of a line: the name, and the expression up to the end of the
/// statement or of the line.
pub const ASSIGNMENT: &'static str = r"(?m:^)\s*(?P<lhs>[A-Za-zА-Яа-яЁё_][A-Za-zА-Яа-яЁё_0-9]*)\s*=\s*(?P<rhs>[^;\n]*)";

/// An expression that makes a new value: the name of its type.
pub const NEW_VALUE: &'static str = r"(?i)^\s*(?:Новый|New)\s+(?P<ty>[A-Za-zА-Яа-яЁё_][A-Za-zА-Яа-яЁё_0-9]*)";

/// An expression of two names with a dot between them.
pub const DOTTED_PAIR: &'static str = r"^\s*(?P<ty>[A-Za-zА-Яа-яЁё_][A-Za-zА-Яа-яЁё_0-9]*)\.(?P<member>[A-Za-zА-Яа-яЁё_][A-Za-zА-Яа-яЁё_0-9]*)\s*$";

/// A comment that gives the type of the next variable.
pub const TYPE_COMMENT: &'static str = r"//\s*@type:?\s+(?P<ty>[A-Za-zА-Яа-яЁё_][A-Za-zА-Яа-яЁё_0-9]*)";

/// The matches of a regular expression in a text, in order: the bytes of each match, and
/// those of its first and second group where they take part in it. Empty where the
/// expression is not valid.
pub uninterp spec fn regex_matches(pattern: Seq<char>, haystack: Seq<char>) -> Seq<
    ((usize, usize), Option<(usize, usize)>, Option<(usize, usize)>),
>;

/// A range of bytes within a text.
pub open spec fn within(haystack: Seq<char>, span: (usize, usize)) -> bool {
    span.0 <= span.1 <= text::byte_len(haystack)
}

/// `Regex::captures_iter` of the crate `regex`, on an expression that `Regex::new` compiles:
/// the matches depend on the expression and the text alone. Each one is given as the half-open
/// range of bytes that `Captures::get` reports for the match and for its first two groups, and
/// such a range lies within the text. Which texts an expression matches is left to the crate.
#[verifier::external_body]
fn matches_of(pattern: &str, haystack: &str) -> (r: Vec<
    ((usize, usize), Option<(usize, usize)>, Option<(usize, usize)>),
>)
    ensures
        r@ == regex_matches(pattern@, haystack@),
        forall|i: int| 0 <= i < r.len() ==> within(haystack@, (#[trigger] r[i]).0),
        forall|i: int|
            0 <= i < r.len() ==> ((#[trigger] r[i]).1 matches Some(s) ==> within(haystack@, s)),
        forall|i: int|
            0 <= i < r.len() ==> ((#[trigger] r[i]).2 matches Some(s) ==> within(haystack@, s)),
{
    let Ok(re) = regex::Regex::new(pattern) else { return Vec::new() };
    re.captures_iter(haystack)
        .map(|c| {
            let span = |i: usize| c.get(i).map(|m| (m.start(), m.end()));
            (span(0).unwrap_or((0, 0)), span(1), span(2))
        })
        .collect()
}

/// The characters of a range of bytes.
pub open spec fn span_text(s: Seq<char>, span: (usize, usize)) -> Seq<char> {
    s.subrange(text::chars_before(s, span.0 as nat), text::chars_before(s, span.1 as nat))
}

/// The variables of a procedure with their types: the last pair with a name counts.
pub open spec fn vars_map(v: Seq<(String, String)>) -> Map<Seq<char>, Seq<char>>
    decreases v.len(),
{
    if v.len() == 0 {
        Map::empty()
    } else {
        vars_map(v.drop_last()).insert(v.last().0@, v.last().1@)
    }
}

/// The variables of one procedure, or of a text without procedures, with their types.
#[derive(Debug, Clone)]
pub struct Scope {
    /// The bytes from `byte_start` up to `byte_end`.
    pub byte_start: usize,
    pub byte_end: usize,
    /// Names in lower case with the names of their types; the last pair with a name counts.
    pub vars: Vec<(String, String)>,
}

/// The contents of a [`Scope`].
#[verifier::ext_equal]
pub struct ScopeView {
    pub byte_start: nat,
    pub byte_end: nat,
    pub vars: Map<Seq<char>, Seq<char>>,
}

impl View for Scope {
    type V = ScopeView;

    open spec fn view(&self) -> ScopeView {
        ScopeView {
            byte_start: self.byte_start as nat,
            byte_end: self.byte_end as nat,
            vars: vars_map(self.vars@),
        }
    }
}

impl Scope {
    /// Whether a byte lies in the scope.
    pub fn contains(&self, byte_idx: usize) -> (r: bool)
        ensures
            r == (self.byte_start <= byte_idx < self.byte_end),
    {
        byte_idx >= self.byte_start && byte_idx < self.byte_end
    }
}

/// The scopes of a text, in its order.
#[derive(Debug, Clone)]
pub struct ScopeMap {
    pub scopes: Vec<Scope>,
}

/// The contents of a list of scopes.
pub open spec fn scope_views(v: Seq<Scope>) -> Seq<ScopeView> {
    v.map_values(|s: Scope| s@)
}

/// The first scope, from `i` on, in which a byte lies.
pub open spec fn scope_at(scopes: Seq<ScopeView>, byte: nat, i: int) -> Option<ScopeView>
    decreases scopes.len() - i,
{
    if i < 0 || i >= scopes.len() {
        None
    } else if scopes[i].byte_start <= byte < scopes[i].byte_end {
        Some(scopes[i])
    } else {
        scope_at(scopes, byte, i + 1)
    }
}

/// The type of a variable at a byte, whatever the letter case of its name.
pub open spec fn var_type(scopes: Seq<ScopeView>, byte: nat, name: Seq<char>) -> Option<Seq<char>> {
    match scope_at(scopes, byte, 0) {
        Some(s) => if s.vars.contains_key(text::lowercase(name)) {
            Some(s.vars[text::lowercase(name)])
        } else {
            None
        },
        None => None,
    }
}

/// The type of a variable with a lower-case name.
fn find_var<'a>(vars: &'a Vec<(String, String)>, key: &str) -> (r: Option<&'a String>)
    ensures
        match r {
            Some(t) => vars_map(vars@).contains_key(key@) && vars_map(vars@)[key@] == t@,
            None => !vars_map(vars@).contains_key(key@),
        },
{
    let mut n = vars.len();
    proof {
        assert(vars@.take(n as int) =~= vars@);
    }
    while n > 0
        invariant
            n <= vars.len(),
            vars_map(vars@).contains_key(key@) == vars_map(vars@.take(n as int)).contains_key(key@),
            vars_map(vars@).contains_key(key@) ==> vars_map(vars@)[key@] == vars_map(
                vars@.take(n as int),
            )[key@],
        decreases n,
    {
        let pair = &vars[n - 1];
        assert(vars@.take(n as int).drop_last() =~= vars@.take(n - 1));
        assert(vars@.take(n as int).last() == pair);
        if same_text(pair.0.as_str(), key) {
            return Some(&pair.1);
        }
        n -= 1;
    }
    None
}

impl ScopeMap {
    /// The scope in which a byte lies.
    pub fn lookup(&self, byte_idx: usize) -> (r: Option<&Scope>)
        ensures
            match r {
                Some(s) => scope_at(scope_views(self.scopes@), byte_idx as nat, 0) == Some(s@),
                None => scope_at(scope_views(self.scopes@), byte_idx as nat, 0) is None,
            },
    {
        let mut i: usize = 0;
        while i < self.scopes.len()
            invariant
                i <= self.scopes.len(),
                scope_at(scope_views(self.scopes@), byte_idx as nat, 0) == scope_at(
                    scope_views(self.scopes@),
                    byte_idx as nat,
                    i as int,
                ),
            decreases self.scopes.len() - i,
        {
            if self.scopes[i].contains(byte_idx) {
                return Some(&self.scopes[i]);
            }
            i += 1;
        }
        None
    }

    /// The type of a variable at a byte, whatever the letter case of its name.
    pub fn type_of_var(&self, byte_idx: usize, var_name: &str) -> (r: Option<&String>)
        ensures
            match r {
                Some(t) => var_type(scope_views(self.scopes@), byte_idx as nat, var_name@) == Some(t@),
                None => var_type(scope_views(self.scopes@), byte_idx as nat, var_name@) is None,
            },
    {
        match self.lookup(byte_idx) {
            Some(scope) => find_var(&scope.vars, to_lower(var_name).as_str()),
            None => None,
        }
    }
}

/// One link of a chain: a name, called or not.
#[derive(Debug, Clone)]
pub struct ChainSeg {
    pub name: String,
    pub is_call: bool,
}

/// The contents of a [`ChainSeg`].
#[verifier::ext_equal]
pub struct SegView {
    pub name: Seq<char>,
    pub is_call: bool,
}

impl View for ChainSeg {
    type V = SegView;

    open spec fn view(&self) -> SegView {
        SegView { name: self.name@, is_call: self.is_call }
    }
}

/// The contents of a list of links.
pub open spec fn seg_views(v: Seq<ChainSeg>) -> Seq<SegView> {
    v.map_values(|s: ChainSeg| s@)
}

/// The first position from `i` on that holds no blank.
pub open spec fn past_blanks(s: Seq<char>, i: int) -> int
    decreases s.len() - i,
{
    if 0 <= i < s.len() && s[i] == ' ' {
        past_blanks(s, i + 1)
    } else {
        i
    }
}

/// The position behind the bracket that closes the outermost of `depth` open ones, reading
/// on at `i`.
pub open spec fn call_end(s: Seq<char>, i: int, depth: int) -> Option<int>
    decreases s.len() - i,
{
    if i < 0 || i >= s.len() {
        None
    } else if s[i] == '(' {
        call_end(s, i + 1, depth + 1)
    } else if s[i] == ')' {
        if depth == 1 {
            Some(i + 1)
        } else {
            call_end(s, i + 1, depth - 1)
        }
    } else {
        call_end(s, i + 1, depth)
    }
}

/// Whether a name can start with a character.
pub open spec fn ident_start(c: char) -> bool {
    text::is_alpha(c) || c == '_'
}

pub proof fn lemma_past_blanks(s: Seq<char>, i: int)
    requires
        0 <= i <= s.len(),
    ensures
        i <= past_blanks(s, i) <= s.len(),
    decreases s.len() - i,
{
    if i < s.len() && s[i] == ' ' {
        lemma_past_blanks(s, i + 1);
    }
}

pub proof fn lemma_call_end(s: Seq<char>, i: int, depth: int)
    requires
        0 <= i <= s.len(),
    ensures
        call_end(s, i, depth) matches Some(e) ==> i < e <= s.len(),
    decreases s.len() - i,
{
    if i < s.len() {
        let next = if s[i] == '(' {
            depth + 1
        } else if s[i] == ')' {
            depth - 1
        } else {
            depth
        };
        if !(s[i] == ')' && depth == 1) {
            lemma_call_end(s, i + 1, next);
        }
    }
}

/// The link that starts at `i`, and the position behind it and the blanks that follow.
pub open spec fn link_at(s: Seq<char>, i: int) -> Option<(SegView, int)> {
    if i < 0 || i >= s.len() || !ident_start(s[i]) {
        None
    } else {
        let name_end = text::ident_end(s, i);
        let name = s.subrange(i, name_end);
        let at = past_blanks(s, name_end);
        if 0 <= at < s.len() && s[at] == '(' {
            match call_end(s, at, 0) {
                Some(end) => Some((SegView { name, is_call: true }, past_blanks(s, end))),
                None => None,
            }
        } else {
            Some((SegView { name, is_call: false }, past_blanks(s, at)))
        }
    }
}

pub proof fn lemma_link_at(s: Seq<char>, i: int)
    ensures
        link_at(s, i) matches Some((_, next)) ==> i <= next <= s.len(),
{
    if 0 <= i < s.len() && ident_start(s[i]) {
        text::lemma_ident_end(s, i);
        let name_end = text::ident_end(s, i);
        lemma_past_blanks(s, name_end);
        let at = past_blanks(s, name_end);
        lemma_past_blanks(s, at);
        lemma_call_end(s, at, 0);
        if let Some(end) = call_end(s, at, 0) {
            lemma_past_blanks(s, end);
        }
    }
}

/// The links from `i` on, `segs` having been read: names with dots between them and nothing
/// else, each name with or without a call behind it.
pub open spec fn chain_from(s: Seq<char>, i: int, segs: Seq<SegView>) -> Option<Seq<SegView>>
    decreases s.len() - i,
{
    match link_at(s, i) {
        None => None,
        Some((seg, next)) => {
            proof {
                lemma_link_at(s, i);
                if next < s.len() {
                    lemma_past_blanks(s, next + 1);
                }
            }
            if next < s.len() && s[next] == '.' {
                chain_from(s, past_blanks(s, next + 1), segs.push(seg))
            } else if next != s.len() {
                None
            } else {
                Some(segs.push(seg))
            }
        },
    }
}

/// An expression as a chain of links; `None` where it is anything else.
pub open spec fn chain_of(rhs: Seq<char>) -> Option<Seq<SegView>> {
    chain_from(text::trimmed(Edge::Space, rhs), 0, seq![])
}

fn skip_blanks(chars: &Vec<char>, from: usize) -> (r: usize)
    requires
        from <= chars.len(),
    ensures
        r == past_blanks(chars@, from as int),
        from <= r <= chars.len(),
{
    let mut i = from;
    while i < chars.len() && chars[i] == ' '
        invariant
            from <= i <= chars.len(),
            past_blanks(chars@, i as int) == past_blanks(chars@, from as int),
        decreases chars.len() - i,
    {
        i += 1;
    }
    i
}

fn skip_call(chars: &Vec<char>, from: usize) -> (r: Option<usize>)
    requires
        from < chars.len(),
        chars[from as int] == '(',
    ensures
        match r {
            Some(e) => call_end(chars@, from as int, 0) == Some(e as int) && from < e <= chars.len(),
            None => call_end(chars@, from as int, 0) is None,
        },
{
    let mut depth: usize = 1;
    let mut i: usize = from + 1;
    while i < chars.len()
        invariant
            from < i <= chars.len(),
            1 <= depth <= i,
            call_end(chars@, from as int, 0) == call_end(chars@, i as int, depth as int),
        decreases chars.len() - i,
    {
        if chars[i] == '(' {
            depth += 1;
        } else if chars[i] == ')' {
            if depth == 1 {
                return Some(i + 1);
            }
            depth -= 1;
        }
        i += 1;
    }
    None
}

fn read_link(chars: &Vec<char>, from: usize) -> (r: Option<(ChainSeg, usize)>)
    requires
        from <= chars.len(),
    ensures
        match r {
            Some((seg, next)) => link_at(chars@, from as int) == Some((seg@, next as int)) && from
                <= next <= chars.len(),
            None => link_at(chars@, from as int) is None,
        },
{
    if from >= chars.len() || !(char_is_alpha(chars[from]) || chars[from] == '_') {
        return None;
    }
    let name_end = scan_ident(chars, from);
    let name = text_range(chars, from, name_end);
    let at = skip_blanks(chars, name_end);
    if at < chars.len() && chars[at] == '(' {
        match skip_call(chars, at) {
            Some(end) => {
                let next = skip_blanks(chars, end);
                Some((ChainSeg { name, is_call: true }, next))
            },
            None => None,
        }
    } else {
        let next = skip_blanks(chars, at);
        Some((ChainSeg { name, is_call: false }, next))
    }
}

/// An expression as a chain of links; `None` where it is anything else.
pub fn parse_chain(rhs: &str) -> (r: Option<Vec<ChainSeg>>)
    ensures
        match r {
            Some(v) => chain_of(rhs@) == Some(seg_views(v@)) && v.len() > 0,
            None => chain_of(rhs@) is None,
        },
{
    let cut = trim(Edge::Space, rhs);
    let chars = chars_of(cut.as_str());
    let mut segs: Vec<ChainSeg> = Vec::new();
    let mut i: usize = 0;
    assert(seg_views(segs@) =~= Seq::<SegView>::empty());
    loop
        invariant
            chars@ == text::trimmed(Edge::Space, rhs@),
            i <= chars.len(),
            chain_of(rhs@) == chain_from(chars@, i as int, seg_views(segs@)),
        decreases chars.len() - i,
    {
        match read_link(&chars, i) {
            None => return None,
            Some((seg, next)) => {
                assert(seg_views(segs@.push(seg)) =~= seg_views(segs@).push(seg@));
                segs.push(seg);
                if next < chars.len() && chars[next] == '.' {
                    i = skip_blanks(&chars, next + 1);
                } else if next != chars.len() {
                    return None;
                } else {
                    return Some(segs);
                }
            },
        }
    }
}

/// Components of a type description stand between these characters.
pub open spec fn separates(c: char) -> bool {
    c == ',' || c == ';' || c == '|'
}

/// The first separator at or behind `i`, or the end of the text.
pub open spec fn part_end(s: Seq<char>, i: int) -> int
    decreases s.len() - i,
{
    if 0 <= i < s.len() && !separates(s[i]) {
        part_end(s, i + 1)
    } else {
        i
    }
}

/// A component that can name a type of its own.
pub open spec fn names_a_type(types: Seq<platform::Type>, part: Seq<char>) -> bool {
    part.len() > 0 && part != "Произвольный"@ && part != "Неопределено"@ && platform::type_named(
        types,
        part,
    ) is Some
}

/// The first known type among the components of a description from `i` on.
pub open spec fn primary_from(types: Seq<platform::Type>, raw: Seq<char>, i: int) -> Option<Seq<char>>
    decreases raw.len() - i,
{
    if i < 0 || i > raw.len() {
        None
    } else {
        let end = part_end(raw, i);
        let part = text::trimmed(Edge::NoName, raw.subrange(i, end));
        proof {
            lemma_part_end(raw, i);
        }
        if names_a_type(types, part) {
            Some(part)
        } else if end >= raw.len() {
            None
        } else {
            primary_from(types, raw, end + 1)
        }
    }
}

pub proof fn lemma_part_end(s: Seq<char>, i: int)
    requires
        0 <= i <= s.len(),
    ensures
        i <= part_end(s, i) <= s.len(),
    decreases s.len() - i,
{
    if i < s.len() && !separates(s[i]) {
        lemma_part_end(s, i + 1);
    }
}

/// The first known type that a description names. Descriptions list several types; each one
/// may stand in backticks or other signs.
pub open spec fn primary(types: Seq<platform::Type>, raw: Seq<char>) -> Option<Seq<char>> {
    primary_from(types, raw, 0)
}

/// The first known type that a description names.
pub fn primary_type(index: &PlatformIndex, raw: &str) -> (r: Option<String>)
    ensures
        match r {
            Some(t) => primary(index.types@, raw@) == Some(t@),
            None => primary(index.types@, raw@) is None,
        },
{
    let chars = chars_of(raw);
    let mut i: usize = 0;
    loop
        invariant
            chars@ == raw@,
            i <= chars.len(),
            primary(index.types@, raw@) == primary_from(index.types@, raw@, i as int),
        decreases chars.len() - i,
    {
        let mut end = i;
        while end < chars.len() && !(chars[end] == ',' || chars[end] == ';' || chars[end] == '|')
            invariant
                chars@ == raw@,
                i <= end <= chars.len(),
                part_end(raw@, i as int) == part_end(raw@, end as int),
            decreases chars.len() - end,
        {
            end += 1;
        }
        let piece = text_range(&chars, i, end);
        let part = trim(Edge::NoName, piece.as_str());
        let usable = !part.as_str().is_empty() && !same_text(part.as_str(), "Произвольный") && !same_text(
            part.as_str(),
            "Неопределено",
        );
        if usable && index.find_type(part.as_str()).is_some() {
            return Some(part);
        }
        if end >= chars.len() {
            return None;
        }
        i = end + 1;
    }
}

/// The type of the first link of a chain: of a variable, of what a global method gives, or
/// the type that it names.
pub open spec fn head_type(
    index: PlatformIndex,
    vars: Map<Seq<char>, Seq<char>>,
    head: SegView,
) -> Option<Seq<char>> {
    let key = text::lowercase(head.name);
    if vars.contains_key(key) {
        Some(vars[key])
    } else if head.is_call {
        match platform::method_named(index.global_methods@, head.name) {
            Some(m) => primary(index.types@, m.return_type@),
            None => None,
        }
    } else if platform::type_named(index.types@, head.name) is Some {
        Some(head.name)
    } else {
        None
    }
}

/// What a member of a type gives: the type that a method returns, or that of a property.
pub open spec fn member_type(types: Seq<platform::Type>, owner: Seq<char>, member: Seq<char>) -> Option<
    Seq<char>,
> {
    match platform::type_named(types, owner) {
        None => None,
        Some(ty) => {
            let key = text::lowercase(member);
            match platform::method_at(ty.methods@, key, 0) {
                Some(i) => primary(types, ty.methods@[i].return_type@),
                None => match platform::property_at(ty.properties@, key, 0) {
                    Some(i) => primary(types, ty.properties@[i].value_type@),
                    None => None,
                },
            }
        },
    }
}

/// The type of the first `n` links of a chain; `None` as soon as a link is not known.
pub open spec fn chain_type(
    index: PlatformIndex,
    vars: Map<Seq<char>, Seq<char>>,
    segs: Seq<SegView>,
    n: int,
) -> Option<Seq<char>>
    decreases n,
{
    if n <= 0 {
        None
    } else if n == 1 {
        head_type(index, vars, segs[0])
    } else {
        match chain_type(index, vars, segs, n - 1) {
            Some(t) => member_type(index.types@, t, segs[n - 1].name),
            None => None,
        }
    }
}

fn head_type_of(index: &PlatformIndex, vars: &Vec<(String, String)>, head: &ChainSeg) -> (r: Option<String>)
    ensures
        match r {
            Some(t) => head_type(*index, vars_map(vars@), head@) == Some(t@),
            None => head_type(*index, vars_map(vars@), head@) is None,
        },
{
    if let Some(t) = find_var(vars, to_lower(head.name.as_str()).as_str()) {
        return Some(t.clone());
    }
    if head.is_call {
        return match index.find_global_method(head.name.as_str()) {
            Some(m) => primary_type(index, m.return_type.as_str()),
            None => None,
        };
    }
    if index.find_type(head.name.as_str()).is_some() {
        Some(head.name.clone())
    } else {
        None
    }
}

fn member_type_of(index: &PlatformIndex, owner: &str, member: &str) -> (r: Option<String>)
    ensures
        match r {
            Some(t) => member_type(index.types@, owner@, member@) == Some(t@),
            None => member_type(index.types@, owner@, member@) is None,
        },
{
    match index.find_type(owner) {
        None => None,
        Some(ty) => {
            let key = to_lower(member);
            match find_method(&ty.methods, key.as_str()) {
                Some(i) => primary_type(index, ty.methods[i].return_type.as_str()),
                None => match find_property(&ty.properties, key.as_str()) {
                    Some(i) => primary_type(index, ty.properties[i].value_type.as_str()),
                    None => None,
                },
            }
        },
    }
}

/// The type of a chain; `None` as soon as a link is not known.
pub fn resolve_chain_type(
    index: &PlatformIndex,
    vars: &Vec<(String, String)>,
    segs: &Vec<ChainSeg>,
) -> (r: Option<String>)
    requires
        segs.len() > 0,
    ensures
        match r {
            Some(t) => chain_type(*index, vars_map(vars@), seg_views(segs@), segs.len() as int) == Some(t@),
            None => chain_type(*index, vars_map(vars@), seg_views(segs@), segs.len() as int) is None,
        },
{
    let mut current = match head_type_of(index, vars, &segs[0]) {
        Some(t) => t,
        None => {
            proof {
                lemma_chain_stays_unknown(*index, vars_map(vars@), seg_views(segs@), 1, segs.len() as int);
            }
            return None;
        },
    };
    let mut i: usize = 1;
    while i < segs.len()
        invariant
            1 <= i <= segs.len(),
            chain_type(*index, vars_map(vars@), seg_views(segs@), i as int) == Some(current@),
        decreases segs.len() - i,
    {
        match member_type_of(index, current.as_str(), segs[i].name.as_str()) {
            Some(t) => {
                current = t;
            },
            None => {
                proof {
                    lemma_chain_stays_unknown(
                        *index,
                        vars_map(vars@),
                        seg_views(segs@),
                        i + 1,
                        segs.len() as int,
                    );
                }
                return None;
            },
        }
        i += 1;
    }
    Some(current)
}

proof fn lemma_chain_stays_unknown(
    index: PlatformIndex,
    vars: Map<Seq<char>, Seq<char>>,
    segs: Seq<SegView>,
    k: int,
    n: int,
)
    requires
        1 <= k <= n,
        chain_type(index, vars, segs, k) is None,
    ensures
        chain_type(index, vars, segs, n) is None,
    decreases n - k,
{
    if k < n {
        lemma_chain_stays_unknown(index, vars, segs, k, n - 1);
    }
}

/// The byte behind the line on which a byte stands: the start of the next line, or the end
/// of the text.
pub open spec fn next_line(s: Seq<char>, byte: nat) -> nat {
    let end = text::line_end(s, text::chars_before(s, byte));
    if end < s.len() {
        text::byte_at(s, end + 1)
    } else {
        text::byte_len(s)
    }
}

/// The annotations that the first `n` matches make: the byte behind the line, and the type.
pub open spec fn annotations_upto(
    src: Seq<char>,
    found: Seq<((usize, usize), Option<(usize, usize)>, Option<(usize, usize)>)>,
    n: int,
) -> Seq<(nat, Seq<char>)>
    decreases n,
{
    if n <= 0 {
        seq![]
    } else {
        let before = annotations_upto(src, found, n - 1);
        match found[n - 1].1 {
            Some(span) => before.push(
                (next_line(src, found[n - 1].0.1 as nat), span_text(src, span)),
            ),
            None => before,
        }
    }
}

/// The annotations of a text, in its order: for each one the byte behind its line, and the
/// type.
pub open spec fn annotations_of(src: Seq<char>) -> Seq<(nat, Seq<char>)> {
    let found = regex_matches(TYPE_COMMENT@, src);
    annotations_upto(src, found, found.len() as int)
}

/// The contents of a list of annotations.
pub open spec fn annotation_views(v: Seq<(usize, String)>) -> Seq<(nat, Seq<char>)> {
    v.map_values(|a: (usize, String)| (a.0 as nat, a.1@))
}

/// The annotations of a text, in its order: for each one the byte behind its line, and the
/// type.
pub fn extract_type_annotations(src: &str) -> (r: Vec<(usize, String)>)
    ensures
        annotation_views(r@) == annotations_of(src@),
{
    let chars = chars_of(src);
    let offsets = byte_offsets(src, &chars);
    let found = matches_of(TYPE_COMMENT, src);
    let mut out: Vec<(usize, String)> = Vec::new();
    assert(annotation_views(out@) =~= Seq::<(nat, Seq<char>)>::empty());
    let mut i: usize = 0;
    while i < found.len()
        invariant
            chars@ == src@,
            offsets.len() == chars.len() + 1,
            forall|k: int| 0 <= k <= chars.len() ==> #[trigger] offsets[k] == text::byte_at(src@, k),
            found@ == regex_matches(TYPE_COMMENT@, src@),
            forall|k: int|
                0 <= k < found.len() ==> ((#[trigger] found[k]).1 matches Some(s) ==> within(src@, s)),
            i <= found.len(),
            annotation_views(out@) == annotations_upto(src@, found@, i as int),
        decreases found.len() - i,
    {
        if let Some(span) = found[i].1 {
            let at = char_index(&offsets, found[i].0.1, Ghost(src@));
            let end = scan_line(&chars, at);
            proof {
                text::lemma_line_end(src@, at as int);
                assert(src@.take(src@.len() as int) =~= src@);
            }
            let next = if end < chars.len() {
                offsets[end + 1]
            } else {
                offsets[end]
            };
            let ty = slice_of(&chars, &offsets, span, Ghost(src@));
            let pair = (next, ty);
            assert(annotation_views(out@.push(pair)) =~= annotation_views(out@).push((next as nat, ty@)));
            out.push(pair);
        }
        i += 1;
    }
    out
}

/// The characters of a range of bytes.
fn slice_of(
    chars: &Vec<char>,
    offsets: &Vec<usize>,
    span: (usize, usize),
    Ghost(s): Ghost<Seq<char>>,
) -> (r: String)
    requires
        chars@ == s,
        offsets.len() == s.len() + 1,
        forall|k: int| 0 <= k <= s.len() ==> #[trigger] offsets[k] == text::byte_at(s, k),
        within(s, span),
    ensures
        r@ == span_text(s, span),
{
    let from = char_index(offsets, span.0, Ghost(s));
    let to = char_index(offsets, span.1, Ghost(s));
    proof {
        text::lemma_chars_before(s, span.0 as nat, span.1 as nat);
    }
    text_range(chars, from, to)
}

/// An empty line starts at a position: it holds nothing, or a carriage return only.
pub open spec fn empty_line_at(s: Seq<char>, i: int) -> bool {
    &&& 0 <= i < s.len()
    &&& i == 0 || s[i - 1] == '\n'
    &&& s[i] == '\n' || (s[i] == '\r' && i + 1 < s.len() && s[i + 1] == '\n')
}

/// Where the first empty line from a position on starts, or the end of the text.
pub open spec fn empty_line_from(s: Seq<char>, i: int) -> int
    decreases s.len() - i,
{
    if i >= s.len() || empty_line_at(s, i) {
        i
    } else {
        empty_line_from(s, i + 1)
    }
}

fn find_empty_line(chars: &Vec<char>, from: usize) -> (r: usize)
    requires
        from <= chars.len(),
    ensures
        r == empty_line_from(chars@, from as int),
        from <= r <= chars.len(),
{
    let mut i: usize = from;
    while i < chars.len()
        invariant
            from <= i <= chars.len(),
            empty_line_from(chars@, from as int) == empty_line_from(chars@, i as int),
        decreases chars.len() - i,
    {
        if (i == 0 || chars[i - 1] == '\n') && (chars[i] == '\n' || (chars[i] == '\r' && chars.len() - i
            > 1 && chars[i + 1] == '\n')) {
            return i;
        }
        i += 1;
    }
    i
}

/// An annotation with its reach: it holds for an assignment from the byte `from` up to the byte
/// `until`.
#[derive(Debug, Clone)]
pub struct Note {
    pub from: usize,
    pub until: usize,
    pub ty: String,
}

/// The contents of a [`Note`].
#[verifier::ext_equal]
pub struct NoteView {
    pub from: nat,
    pub until: nat,
    pub ty: Seq<char>,
}

impl View for Note {
    type V = NoteView;

    open spec fn view(&self) -> NoteView {
        NoteView { from: self.from as nat, until: self.until as nat, ty: self.ty@ }
    }
}

/// The contents of a list of annotations with their reach.
pub open spec fn note_views(v: Seq<Note>) -> Seq<NoteView> {
    v.map_values(|n: Note| n@)
}

/// An annotation with its reach in a text: it ends at the first empty line.
pub open spec fn note_of(s: Seq<char>, a: (nat, Seq<char>)) -> NoteView {
    NoteView {
        from: a.0,
        until: text::byte_at(s, empty_line_from(s, text::chars_before(s, a.0))),
        ty: a.1,
    }
}

/// The annotations with their reach in a text.
pub open spec fn notes_of(s: Seq<char>, annotations: Seq<(nat, Seq<char>)>) -> Seq<NoteView> {
    annotations.map_values(|a: (nat, Seq<char>)| note_of(s, a))
}

fn read_notes(s: &str, annotations: &Vec<(usize, String)>) -> (r: Vec<Note>)
    ensures
        note_views(r@) == notes_of(s@, annotation_views(annotations@)),
{
    let ghost all = annotation_views(annotations@);
    let chars = chars_of(s);
    let offsets = byte_offsets(s, &chars);
    let mut out: Vec<Note> = Vec::new();
    for i in 0..annotations.len()
        invariant
            all == annotation_views(annotations@),
            chars@ == s@,
            offsets.len() == chars.len() + 1,
            forall|k: int| 0 <= k <= chars.len() ==> #[trigger] offsets[k] == text::byte_at(s@, k),
            out.len() == i,
            forall|k: int| 0 <= k < i ==> (#[trigger] out[k])@ == note_of(s@, all[k]),
    {
        assert(all[i as int] == (annotations[i as int].0 as nat, annotations[i as int].1@));
        let at = char_index(&offsets, annotations[i].0, Ghost(s@));
        let until = offsets[find_empty_line(&chars, at)];
        out.push(
            Note { from: annotations[i].0, until, ty: annotations[i].1.as_str().to_string() },
        );
    }
    assert(note_views(out@) =~= notes_of(s@, all));
    out
}

/// An assignment at byte `at` may take an annotation: it stands in its reach, at most 200 bytes
/// away, and no earlier assignment stands behind the annotation (`last` being the byte of the
/// assignment before this one).
pub open spec fn may_take(a: NoteView, last: Option<nat>, at: nat) -> bool {
    a.from <= at <= a.until && at - a.from <= 200 && (last matches Some(l) ==> l < a.from)
}

/// The annotation, among the first `n`, that an assignment at byte `at` takes: the nearest one
/// that it may take.
pub open spec fn annotation_for(notes: Seq<NoteView>, last: Option<nat>, at: nat, n: int) -> Option<
    NoteView,
>
    decreases n,
{
    if n <= 0 {
        None
    } else {
        let best = annotation_for(notes, last, at, n - 1);
        let a = notes[n - 1];
        if may_take(a, last, at) && (best matches Some(b) ==> b.from <= a.from) {
            Some(a)
        } else {
            best
        }
    }
}

/// The value of an optional byte.
pub open spec fn opt_byte(o: Option<u128>) -> Option<nat> {
    match o {
        Some(b) => Some(b as nat),
        None => None,
    }
}

fn find_annotation(notes: &Vec<Note>, last: Option<u128>, at: u128) -> (r: Option<usize>)
    ensures
        ({
            let views = note_views(notes@);
            match r {
                Some(i) => i < notes.len() && annotation_for(
                    views,
                    opt_byte(last),
                    at as nat,
                    notes.len() as int,
                ) == Some(views[i as int]),
                None => annotation_for(views, opt_byte(last), at as nat, notes.len() as int) is None,
            }
        }),
{
    let ghost views = note_views(notes@);
    let mut best: Option<usize> = None;
    let mut i: usize = 0;
    while i < notes.len()
        invariant
            i <= notes.len(),
            views == note_views(notes@),
            match best {
                Some(b) => b < i && annotation_for(views, opt_byte(last), at as nat, i as int) == Some(
                    views[b as int],
                ),
                None => annotation_for(views, opt_byte(last), at as nat, i as int) is None,
            },
        decreases notes.len() - i,
    {
        let from = notes[i].from as u128;
        let until = notes[i].until as u128;
        let unspent = match last {
            Some(l) => l < from,
            None => true,
        };
        let nearer = match best {
            Some(b) => notes[b].from as u128 <= from,
            None => true,
        };
        assert(views[i as int] == notes[i as int]@);
        if from <= at && at <= until && at - from <= 200 && unspent && nearer {
            best = Some(i);
        }
        i += 1;
    }
    best
}

/// An assignment of a procedure.
#[derive(Debug, Clone)]
pub struct Assigned {
    pub name: String,
    /// The byte of the name in the whole text.
    pub at: u128,
    /// The expression without white space at its ends.
    pub rhs: String,
    /// The type of which the expression makes a new value.
    pub new_name: Option<String>,
    /// The first of two names, where the expression is two names with a dot between them.
    pub pair_head: Option<String>,
}

/// The contents of an [`Assigned`].
#[verifier::ext_equal]
pub struct AssignedView {
    pub name: Seq<char>,
    pub at: nat,
    pub rhs: Seq<char>,
    pub new_name: Option<Seq<char>>,
    pub pair_head: Option<Seq<char>>,
}

impl View for Assigned {
    type V = AssignedView;

    open spec fn view(&self) -> AssignedView {
        AssignedView {
            name: self.name@,
            at: self.at as nat,
            rhs: self.rhs@,
            new_name: text::opt_text(self.new_name),
            pair_head: text::opt_text(self.pair_head),
        }
    }
}

/// The contents of a list of assignments.
pub open spec fn assigned_views(v: Seq<Assigned>) -> Seq<AssignedView> {
    v.map_values(|a: Assigned| a@)
}

/// The type that the expression of an assignment shows without an annotation.
pub open spec fn expression_type(
    index: PlatformIndex,
    vars: Map<Seq<char>, Seq<char>>,
    a: AssignedView,
    level: u8,
) -> Option<Seq<char>> {
    match new_type(index, a.new_name) {
        Some(t) => Some(t),
        None => match enum_type(index, a.pair_head) {
            Some(t) => Some(t),
            None => if level >= 3 {
                returned_type(index, vars, a.rhs)
            } else {
                None
            },
        },
    }
}

/// The type of a new value, where it is known.
pub open spec fn new_type(index: PlatformIndex, name: Option<Seq<char>>) -> Option<Seq<char>> {
    match name {
        Some(t) => if platform::type_named(index.types@, t) is Some {
            Some(t)
        } else {
            None
        },
        None => None,
    }
}

/// The enumeration of which a value is named, where it is known.
pub open spec fn enum_type(index: PlatformIndex, head: Option<Seq<char>>) -> Option<Seq<char>> {
    match head {
        Some(t) => match platform::type_named(index.types@, t) {
            Some(ty) => if ty.enum_values@.len() > 0 {
                Some(t)
            } else {
                None
            },
            None => None,
        },
        None => None,
    }
}

/// The type of a chain of at least two links, or of a call of a global method.
pub open spec fn returned_type(
    index: PlatformIndex,
    vars: Map<Seq<char>, Seq<char>>,
    rhs: Seq<char>,
) -> Option<Seq<char>> {
    match chain_of(rhs) {
        Some(segs) => if segs.len() >= 2 || segs[0].is_call {
            chain_type(index, vars, segs, segs.len() as int)
        } else {
            None
        },
        None => None,
    }
}

fn expression_type_of(
    index: &PlatformIndex,
    vars: &Vec<(String, String)>,
    a: &Assigned,
    level: u8,
) -> (r: Option<String>)
    ensures
        match r {
            Some(t) => expression_type(*index, vars_map(vars@), a@, level) == Some(t@),
            None => expression_type(*index, vars_map(vars@), a@, level) is None,
        },
{
    if let Some(t) = &a.new_name {
        if index.find_type(t.as_str()).is_some() {
            return Some(t.clone());
        }
    }
    if let Some(t) = &a.pair_head {
        if let Some(ty) = index.find_type(t.as_str()) {
            if ty.is_enum() {
                return Some(t.clone());
            }
        }
    }
    if level >= 3 {
        if let Some(segs) = parse_chain(a.rhs.as_str()) {
            if segs.len() >= 2 || segs[0].is_call {
                return resolve_chain_type(index, vars, &segs);
            }
        }
    }
    None
}

/// The variables after the first `n` assignments, `before` being the byte of the assignment
/// before the first one. An annotation goes before what the expression shows; an assignment whose
/// type cannot be told leaves the variables as they are.
pub open spec fn vars_of(
    index: PlatformIndex,
    list: Seq<AssignedView>,
    before: Option<nat>,
    notes: Seq<NoteView>,
    level: u8,
    n: int,
) -> Map<Seq<char>, Seq<char>>
    decreases n,
{
    if n <= 0 {
        Map::empty()
    } else {
        let vars = vars_of(index, list, before, notes, level, n - 1);
        let a = list[n - 1];
        let last = last_assigned(list, before, n - 1);
        let ty = match annotation_for(notes, last, a.at, notes.len() as int) {
            Some(noted) => Some(noted.ty),
            None => expression_type(index, vars, a, level),
        };
        match ty {
            Some(t) => vars.insert(text::lowercase(a.name), t),
            None => vars,
        }
    }
}

/// The byte of the last one of the first `n` assignments; where there is none, the byte of the
/// assignment before them.
pub open spec fn last_assigned(list: Seq<AssignedView>, before: Option<nat>, n: int) -> Option<nat> {
    if n > 0 {
        Some(list[n - 1].at)
    } else {
        before
    }
}

/// The variables that a list of assignments gives types to, each with its type; the last pair
/// with a name counts. `before` is the byte of the assignment before the first one.
pub fn vars_of_assignments(
    index: &PlatformIndex,
    list: &Vec<Assigned>,
    before: Option<u128>,
    notes: &Vec<Note>,
    level: u8,
) -> (r: Vec<(String, String)>)
    ensures
        vars_map(r@) == vars_of(
            *index,
            assigned_views(list@),
            opt_byte(before),
            note_views(notes@),
            level,
            list.len() as int,
        ),
{
    let ghost marks = note_views(notes@);
    let ghost views = assigned_views(list@);
    let mut vars: Vec<(String, String)> = Vec::new();
    let mut last: Option<u128> = before;
    let mut i: usize = 0;
    while i < list.len()
        invariant
            marks == note_views(notes@),
            views == assigned_views(list@),
            i <= list.len(),
            opt_byte(last) == last_assigned(views, opt_byte(before), i as int),
            vars_map(vars@) == vars_of(*index, views, opt_byte(before), marks, level, i as int),
        decreases list.len() - i,
    {
        let a = &list[i];
        assert(views[i as int] == a@);
        let ty = match find_annotation(notes, last, a.at) {
            Some(k) => {
                assert(marks[k as int] == notes[k as int]@);
                Some(notes[k].ty.as_str().to_string())
            },
            None => expression_type_of(index, &vars, a, level),
        };
        if let Some(t) = ty {
            let pair = (to_lower(a.name.as_str()), t);
            assert(vars@.push(pair).drop_last() =~= vars@);
            vars.push(pair);
        }
        last = Some(a.at);
        i += 1;
    }
    vars
}

/// The first group of the first match of an expression.
pub open spec fn first_group(pattern: Seq<char>, s: Seq<char>) -> Option<Seq<char>> {
    let found = regex_matches(pattern, s);
    if found.len() == 0 {
        None
    } else {
        match found[0].1 {
            Some(span) => Some(span_text(s, span)),
            None => None,
        }
    }
}

fn first_group_of(pattern: &str, s: &str) -> (r: Option<String>)
    ensures
        text::opt_text(r) == first_group(pattern@, s@),
{
    let found = matches_of(pattern, s);
    if found.len() == 0 {
        return None;
    }
    match found[0].1 {
        Some(span) => {
            let chars = chars_of(s);
            let offsets = byte_offsets(s, &chars);
            assert(found@[0].1 == Some(span));
            Some(slice_of(&chars, &offsets, span, Ghost(s@)))
        },
        None => None,
    }
}

/// The assignments that the first `n` matches make, the text starting at byte `base`.
pub open spec fn assignments_upto(body: Seq<char>, base: nat, n: int) -> Seq<AssignedView>
    decreases n,
{
    if n <= 0 {
        seq![]
    } else {
        let before = assignments_upto(body, base, n - 1);
        let m = regex_matches(ASSIGNMENT@, body)[n - 1];
        match (m.1, m.2) {
            (Some(lhs), Some(rhs)) => {
                let expression = text::trimmed(Edge::Space, span_text(body, rhs));
                before.push(
                    AssignedView {
                        name: span_text(body, lhs),
                        at: base + lhs.0 as nat,
                        rhs: expression,
                        new_name: first_group(NEW_VALUE@, expression),
                        pair_head: first_group(DOTTED_PAIR@, expression),
                    },
                )
            },
            _ => before,
        }
    }
}

/// The assignments of a text that starts at byte `base`.
pub open spec fn assignments_of(body: Seq<char>, base: nat) -> Seq<AssignedView> {
    assignments_upto(body, base, regex_matches(ASSIGNMENT@, body).len() as int)
}

fn read_assignments(body: &str, base: usize) -> (r: Vec<Assigned>)
    ensures
        assigned_views(r@) == assignments_of(body@, base as nat),
{
    let found = matches_of(ASSIGNMENT, body);
    let chars = chars_of(body);
    let offsets = byte_offsets(body, &chars);
    let mut out: Vec<Assigned> = Vec::new();
    assert(assigned_views(out@) =~= Seq::<AssignedView>::empty());
    let mut i: usize = 0;
    while i < found.len()
        invariant
            found@ == regex_matches(ASSIGNMENT@, body@),
            forall|k: int|
                0 <= k < found.len() ==> ((#[trigger] found[k]).1 matches Some(s) ==> within(body@, s)),
            forall|k: int|
                0 <= k < found.len() ==> ((#[trigger] found[k]).2 matches Some(s) ==> within(body@, s)),
            chars@ == body@,
            offsets.len() == chars.len() + 1,
            forall|k: int| 0 <= k <= chars.len() ==> #[trigger] offsets[k] == text::byte_at(body@, k),
            i <= found.len(),
            assigned_views(out@) == assignments_upto(body@, base as nat, i as int),
        decreases found.len() - i,
    {
        let m = found[i];
        if let (Some(lhs), Some(rhs)) = (m.1, m.2) {
            let name = slice_of(&chars, &offsets, lhs, Ghost(body@));
            let whole = slice_of(&chars, &offsets, rhs, Ghost(body@));
            let expression = trim(Edge::Space, whole.as_str());
            let a = Assigned {
                name,
                at: base as u128 + lhs.0 as u128,
                new_name: first_group_of(NEW_VALUE, expression.as_str()),
                pair_head: first_group_of(DOTTED_PAIR, expression.as_str()),
                rhs: expression,
            };
            assert(assigned_views(out@.push(a)) =~= assigned_views(out@).push(a@));
            out.push(a);
        }
        i += 1;
    }
    out
}

/// The scope of a procedure, its text being `body`, and `before` the byte of the last assignment
/// of the procedures before it.
pub open spec fn scope_of_body(
    index: PlatformIndex,
    body: Seq<char>,
    byte_start: nat,
    byte_end: nat,
    before: Option<nat>,
    notes: Seq<NoteView>,
    level: u8,
) -> ScopeView {
    let list = assignments_of(body, byte_start);
    ScopeView {
        byte_start,
        byte_end,
        vars: vars_of(index, list, before, notes, level, list.len() as int),
    }
}

/// The byte of the last assignment up to the end of a procedure.
pub open spec fn last_in_body(body: Seq<char>, byte_start: nat, before: Option<nat>) -> Option<nat> {
    let list = assignments_of(body, byte_start);
    last_assigned(list, before, list.len() as int)
}

/// The scope of a procedure, and the byte of the last assignment up to its end.
fn build_scope(
    index: &PlatformIndex,
    body: &str,
    byte_start: usize,
    byte_end: usize,
    before: Option<u128>,
    notes: &Vec<Note>,
    level: u8,
) -> (r: (Scope, Option<u128>))
    ensures
        r.0@ == scope_of_body(
            *index,
            body@,
            byte_start as nat,
            byte_end as nat,
            opt_byte(before),
            note_views(notes@),
            level,
        ),
        opt_byte(r.1) == last_in_body(body@, byte_start as nat, opt_byte(before)),
{
    let list = read_assignments(body, byte_start);
    let vars = vars_of_assignments(index, &list, before, notes, level);
    let last = if list.len() > 0 {
        assert(assigned_views(list@)[list.len() - 1] == list[list.len() - 1]@);
        Some(list[list.len() - 1].at)
    } else {
        before
    };
    (Scope { byte_start, byte_end, vars }, last)
}

/// The byte of the last assignment of the first `n` procedures.
pub open spec fn last_upto(cleaned: Seq<char>, n: int) -> Option<nat>
    decreases n,
{
    if n <= 0 {
        None
    } else {
        let span = regex_matches(PROC_BLOCK@, cleaned)[n - 1].0;
        last_in_body(span_text(cleaned, span), span.0 as nat, last_upto(cleaned, n - 1))
    }
}

/// The scopes of the first `n` procedures. An annotation that an assignment of one procedure has
/// passed is spent for the next ones too.
pub open spec fn scopes_upto(
    index: PlatformIndex,
    cleaned: Seq<char>,
    notes: Seq<NoteView>,
    level: u8,
    n: int,
) -> Seq<ScopeView>
    decreases n,
{
    if n <= 0 {
        seq![]
    } else {
        let span = regex_matches(PROC_BLOCK@, cleaned)[n - 1].0;
        scopes_upto(index, cleaned, notes, level, n - 1).push(
            scope_of_body(
                index,
                span_text(cleaned, span),
                span.0 as nat,
                span.1 as nat,
                last_upto(cleaned, n - 1),
                notes,
                level,
            ),
        )
    }
}

/// The scopes of a text: one for each procedure, or one for the whole text where it holds no
/// procedure.
pub open spec fn scopes_of(
    index: PlatformIndex,
    cleaned: Seq<char>,
    annotations: Seq<(nat, Seq<char>)>,
    level: u8,
) -> Seq<ScopeView> {
    let blocks = regex_matches(PROC_BLOCK@, cleaned);
    let notes = notes_of(cleaned, annotations);
    if blocks.len() == 0 {
        seq![scope_of_body(index, cleaned, 0, text::byte_len(cleaned), None, notes, level)]
    } else {
        scopes_upto(index, cleaned, notes, level, blocks.len() as int)
    }
}

/// The scopes of a text in which strings and comments are blanked, character by character: a line
/// that holds a comment only is not an empty one.
pub fn extract_scope_map(
    index: &PlatformIndex,
    cleaned: &str,
    annotations: &Vec<(usize, String)>,
    level: u8,
) -> (r: ScopeMap)
    ensures
        scope_views(r.scopes@) == scopes_of(*index, cleaned@, annotation_views(annotations@), level),
{
    let mut scopes: Vec<Scope> = Vec::new();
    let blocks = matches_of(PROC_BLOCK, cleaned);
    let notes = read_notes(cleaned, annotations);
    let ghost marks = note_views(notes@);
    assert(scope_views(scopes@) =~= Seq::<ScopeView>::empty());
    if blocks.len() == 0 {
        let (scope, _) = build_scope(index, cleaned, 0, byte_len_of(cleaned), None, &notes, level);
        scopes.push(scope);
        assert(scope_views(scopes@) =~= seq![scope@]);
        return ScopeMap { scopes };
    }
    let chars = chars_of(cleaned);
    let offsets = byte_offsets(cleaned, &chars);
    let mut last: Option<u128> = None;
    let mut i: usize = 0;
    while i < blocks.len()
        invariant
            blocks@ == regex_matches(PROC_BLOCK@, cleaned@),
            forall|k: int| 0 <= k < blocks.len() ==> within(cleaned@, (#[trigger] blocks[k]).0),
            chars@ == cleaned@,
            offsets.len() == chars.len() + 1,
            forall|k: int| 0 <= k <= chars.len() ==> #[trigger] offsets[k] == text::byte_at(cleaned@, k),
            marks == note_views(notes@),
            i <= blocks.len(),
            opt_byte(last) == last_upto(cleaned@, i as int),
            scope_views(scopes@) == scopes_upto(*index, cleaned@, marks, level, i as int),
        decreases blocks.len() - i,
    {
        let span = blocks[i].0;
        assert(within(cleaned@, blocks@[i as int].0));
        let body = slice_of(&chars, &offsets, span, Ghost(cleaned@));
        let (scope, next) = build_scope(
            index,
            body.as_str(),
            span.0,
            span.1,
            last,
            &notes,
            level,
        );
        assert(scope_views(scopes@.push(scope)) =~= scope_views(scopes@).push(scope@));
        scopes.push(scope);
        last = next;
        i += 1;
    }
    ScopeMap { scopes }
}

proof fn lemma_annotation_for(notes: Seq<NoteView>, last: Option<nat>, at: nat, n: int)
    requires
        0 <= n <= notes.len(),
    ensures
        match annotation_for(notes, last, at, n) {
            Some(a) => notes.contains(a) && may_take(a, last, at) && forall|i: int|
                0 <= i < n && may_take(#[trigger] notes[i], last, at) ==> notes[i].from <= a.from,
            None => forall|i: int| 0 <= i < n ==> !may_take(#[trigger] notes[i], last, at),
        },
    decreases n,
{
    if n > 0 {
        lemma_annotation_for(notes, last, at, n - 1);
        assert(notes.contains(notes[n - 1]));
    }
}

/// Of the annotations that an assignment may take, it takes the nearest one, and it takes one
/// as soon as there is one.
pub proof fn law_nearest_annotation_wins(notes: Seq<NoteView>, last: Option<nat>, at: nat)
    ensures
        match annotation_for(notes, last, at, notes.len() as int) {
            Some(a) => notes.contains(a) && may_take(a, last, at) && forall|i: int|
                0 <= i < notes.len() && may_take(#[trigger] notes[i], last, at) ==> notes[i].from
                    <= a.from,
            None => forall|i: int| 0 <= i < notes.len() ==> !may_take(#[trigger] notes[i], last, at),
        },
{
    lemma_annotation_for(notes, last, at, notes.len() as int);
}

/// An annotation holds for one assignment only, in the same procedure or in another one: where an
/// assignment at `first` takes one, a later assignment (the one before it standing at `first` or
/// behind) takes another one.
pub proof fn law_annotation_binds_once(
    notes: Seq<NoteView>,
    before_first: Option<nat>,
    first: nat,
    before_second: nat,
    second: nat,
)
    requires
        first <= before_second,
    ensures
        match (
            annotation_for(notes, before_first, first, notes.len() as int),
            annotation_for(notes, Some(before_second), second, notes.len() as int),
        ) {
            (Some(a), Some(b)) => a.from < b.from,
            _ => true,
        },
{
    lemma_annotation_for(notes, before_first, first, notes.len() as int);
    lemma_annotation_for(notes, Some(before_second), second, notes.len() as int);
}

/// The last assignment of a procedure is the one before the first assignment of the next one,
/// unless a procedure between them has an assignment: what is spent stays spent.
pub proof fn law_spent_in_one_procedure_is_spent_in_the_next(cleaned: Seq<char>, n: int)
    requires
        n >= 0,
    ensures
        ({
            let span = regex_matches(PROC_BLOCK@, cleaned)[n].0;
            let list = assignments_of(span_text(cleaned, span), span.0 as nat);
            last_upto(cleaned, n + 1) == if list.len() > 0 {
                Some(list.last().at)
            } else {
                last_upto(cleaned, n)
            }
        }),
{
}

proof fn lemma_empty_line_from(s: Seq<char>, i: int, k: int)
    requires
        0 <= i <= k,
        empty_line_at(s, k),
    ensures
        i <= empty_line_from(s, i) <= k,
    decreases k - i,
{
    if i < k && !empty_line_at(s, i) {
        lemma_empty_line_from(s, i + 1, k);
    }
}

/// An annotation does not reach over an empty line: where one stands between them, an assignment
/// does not take it.
pub proof fn law_annotation_ends_at_empty_line(
    s: Seq<char>,
    a: (nat, Seq<char>),
    k: int,
    last: Option<nat>,
    at: nat,
)
    requires
        empty_line_at(s, k),
        a.0 <= text::byte_at(s, k) < at,
    ensures
        !may_take(note_of(s, a), last, at),
{
    text::lemma_byte_at_chars_before(s, a.0, k);
    let start = text::chars_before(s, a.0);
    lemma_empty_line_from(s, start, k);
    text::lemma_byte_at_mono(s, empty_line_from(s, start), k);
}

/// Letter case, Cyrillic included, is of no account: a variable whose letters are of the Latin and
/// the Russian alphabet and its lower-case name have one type. The first scope that holds the byte
/// decides; where it knows no type, no later one is asked.
pub proof fn law_variable_case_does_not_matter(scopes: Seq<ScopeView>, byte: nat, name: Seq<char>)
    ensures
        text::plain_text(name) ==> var_type(scopes, byte, text::lowercase(name)) == var_type(
            scopes,
            byte,
            name,
        ),
        forall|i: int|
            0 <= i < scopes.len() && covers(#[trigger] scopes[i], byte) && (forall|k: int|
                0 <= k < i ==> !covers(#[trigger] scopes[k], byte)) ==> var_type(
                scopes,
                byte,
                name,
            ) == (if scopes[i].vars.contains_key(text::lowercase(name)) {
                Some(scopes[i].vars[text::lowercase(name)])
            } else {
                None
            }),
{
    if text::plain_text(name) {
        text::law_lowering_twice_changes_nothing(name);
    }
    assert forall|i: int|
        0 <= i < scopes.len() && covers(#[trigger] scopes[i], byte) && (forall|k: int|
            0 <= k < i ==> !covers(#[trigger] scopes[k], byte)) implies scope_at(scopes, byte, 0)
        == Some(scopes[i]) by {
        lemma_first_scope(scopes, byte, 0, i);
    }
}

/// The scope holds a byte.
pub open spec fn covers(s: ScopeView, byte: nat) -> bool {
    s.byte_start <= byte < s.byte_end
}

proof fn lemma_first_scope(scopes: Seq<ScopeView>, byte: nat, from: int, i: int)
    requires
        0 <= from <= i < scopes.len(),
        covers(scopes[i], byte),
        forall|k: int| from <= k < i ==> !covers(#[trigger] scopes[k], byte),
    ensures
        scope_at(scopes, byte, from) == Some(scopes[i]),
    decreases i - from,
{
    if from < i {
        assert(!covers(scopes[from], byte));
        lemma_first_scope(scopes, byte, from + 1, i);
    }
}

/// The type that an assignment shows: that of the annotation that binds to it, or else that of
/// its expression, seen with the types of the variables before it.
pub open spec fn shown_type(
    index: PlatformIndex,
    list: Seq<AssignedView>,
    before: Option<nat>,
    notes: Seq<NoteView>,
    level: u8,
    i: int,
) -> Option<Seq<char>> {
    match annotation_for(
        notes,
        if i > 0 {
            Some(list[i - 1].at)
        } else {
            before
        },
        list[i].at,
        notes.len() as int,
    ) {
        Some(noted) => Some(noted.ty),
        None => expression_type(index, vars_of(index, list, before, notes, level, i), list[i], level),
    }
}

/// The type of a variable behind a list of assignments is the one that the last assignment to it
/// shows: of those to the name, whatever its letter case, whose type can be told. Assignments to
/// other names, and those whose type cannot be told, change nothing of it.
pub proof fn law_last_known_type_counts(
    index: PlatformIndex,
    list: Seq<AssignedView>,
    before: Option<nat>,
    notes: Seq<NoteView>,
    level: u8,
    n: int,
    i: int,
)
    requires
        0 <= i < n <= list.len(),
        shown_type(index, list, before, notes, level, i) is Some,
        forall|k: int|
            i < k < n && text::lowercase((#[trigger] list[k]).name) == text::lowercase(list[i].name)
                ==> shown_type(index, list, before, notes, level, k) is None,
    ensures
        vars_of(index, list, before, notes, level, n).contains_key(text::lowercase(list[i].name)),
        Some(vars_of(index, list, before, notes, level, n)[text::lowercase(list[i].name)]) == shown_type(
            index,
            list,
            before,
            notes,
            level,
            i,
        ),
    decreases n,
{
    if n - 1 > i {
        law_last_known_type_counts(index, list, before, notes, level, n - 1, i);
        assert(text::lowercase(list[n - 1].name) == text::lowercase(list[i].name) ==> shown_type(
            index,
            list,
            before,
            notes,
            level,
            n - 1,
        ) is None);
    }
}

/// A name has a type behind a list of assignments only where one of them, to that name, shows one.
pub proof fn law_types_come_from_assignments(
    index: PlatformIndex,
    list: Seq<AssignedView>,
    before: Option<nat>,
    notes: Seq<NoteView>,
    level: u8,
    n: int,
    key: Seq<char>,
)
    requires
        0 <= n <= list.len(),
        vars_of(index, list, before, notes, level, n).contains_key(key),
    ensures
        exists|i: int|
            0 <= i < n && text::lowercase((#[trigger] list[i]).name) == key && shown_type(
                index,
                list,
                before,
                notes,
                level,
                i,
            ) is Some,
    decreases n,
{
    if n > 0 {
        if text::lowercase(list[n - 1].name) != key || shown_type(
            index,
            list,
            before,
            notes,
            level,
            n - 1,
        ) is None {
            law_types_come_from_assignments(index, list, before, notes, level, n - 1, key);
        }
    }
}

/// The type that a list of pairs gives to a name is that of its last pair with the name.
pub proof fn law_last_pair_counts(v: Seq<(String, String)>, i: int)
    requires
        0 <= i < v.len(),
        forall|k: int| i < k < v.len() ==> (#[trigger] v[k]).0@ != v[i].0@,
    ensures
        vars_map(v).contains_key(v[i].0@),
        vars_map(v)[v[i].0@] == v[i].1@,
    decreases v.len(),
{
    if i < v.len() - 1 {
        let front = v.drop_last();
        assert forall|k: int| i < k < front.len() implies (#[trigger] front[k]).0@ != front[i].0@ by {
            assert(v[k].0@ != v[i].0@);
        }
        law_last_pair_counts(front, i);
        assert(v.last() == v[v.len() - 1]);
    }
}

/// What an expression shows. A new value of a known type is of that type; a value of a system
/// enumeration is of that enumeration; what a chain of calls and properties returns is asked for
/// at the third level only, and there what the second level shows stays as it is.
pub proof fn law_what_an_expression_shows(
    index: PlatformIndex,
    vars: Map<Seq<char>, Seq<char>>,
    a: AssignedView,
    level: u8,
)
    ensures
        (a.new_name matches Some(t) && platform::type_named(index.types@, t) is Some) ==> expression_type(
            index,
            vars,
            a,
            level,
        ) == a.new_name,
        a.new_name is None && (a.pair_head matches Some(t) && (platform::type_named(index.types@, t) matches Some(
            ty,
        ) && ty.enum_values@.len() > 0)) ==> expression_type(index, vars, a, level) == a.pair_head,
        level < 3 && expression_type(index, vars, a, level) is Some ==> forall|more: u8|
            expression_type(index, vars, a, level) == #[trigger] expression_type(index, vars, a, more),
        level < 3 && expression_type(index, vars, a, level) is Some ==> expression_type(
            index,
            vars,
            a,
            level,
        ) == a.new_name || expression_type(index, vars, a, level) == a.pair_head,
        level >= 3 && a.new_name is None && a.pair_head is None ==> expression_type(index, vars, a, level)
            == returned_type(index, vars, a.rhs),
{
}

/// A chain begins at its head. A variable with a known type is of that type, whatever else bears
/// its name. A call is of what the global method returns, and any other head is the type that it
/// names.
pub proof fn law_head_of_a_chain(index: PlatformIndex, vars: Map<Seq<char>, Seq<char>>, segs: Seq<SegView>)
    requires
        segs.len() > 0,
    ensures
        vars.contains_key(text::lowercase(segs[0].name)) ==> chain_type(index, vars, segs, 1) == Some(
            vars[text::lowercase(segs[0].name)],
        ),
        !vars.contains_key(text::lowercase(segs[0].name)) && segs[0].is_call ==> (match platform::method_named(
            index.global_methods@,
            segs[0].name,
        ) {
            Some(m) => chain_type(index, vars, segs, 1) == primary(index.types@, m.return_type@),
            None => chain_type(index, vars, segs, 1) is None,
        }),
        !vars.contains_key(text::lowercase(segs[0].name)) && !segs[0].is_call ==> (chain_type(
            index,
            vars,
            segs,
            1,
        ) is Some <==> platform::type_named(index.types@, segs[0].name) is Some) && (chain_type(
            index,
            vars,
            segs,
            1,
        ) matches Some(t) ==> t == segs[0].name),
{
}

/// A link of a chain is of what the member of the type before it returns: a method of the name in
/// either language, or else a property of it. A chain that loses its type does not get it back.
#[verifier::rlimit(40)]
pub proof fn law_link_is_of_what_the_member_returns(
    index: PlatformIndex,
    vars: Map<Seq<char>, Seq<char>>,
    segs: Seq<SegView>,
    n: int,
    ty: platform::Type,
    i: int,
)
    requires
        1 <= n < segs.len(),
    ensures
        chain_type(index, vars, segs, n) is None ==> chain_type(index, vars, segs, n + 1) is None,
        (chain_type(index, vars, segs, n) matches Some(t) && platform::type_named(index.types@, t) == Some(ty))
            ==> {
            let key = text::lowercase(segs[n].name);
            &&& 0 <= i < ty.methods@.len() && (text::lowercase(ty.methods@[i].name_ru@) == key
                || text::lowercase(ty.methods@[i].name_en@) == key) && (forall|k: int|
                0 <= k < i ==> text::lowercase((#[trigger] ty.methods@[k]).name_ru@) != key
                    && text::lowercase(ty.methods@[k].name_en@) != key) ==> chain_type(
                index,
                vars,
                segs,
                n + 1,
            ) == primary(index.types@, ty.methods@[i].return_type@)
            &&& (forall|k: int|
                0 <= k < ty.methods@.len() ==> text::lowercase((#[trigger] ty.methods@[k]).name_ru@) != key
                    && text::lowercase(ty.methods@[k].name_en@) != key) ==> {
                &&& 0 <= i < ty.properties@.len() && (text::lowercase(ty.properties@[i].name_ru@) == key
                    || text::lowercase(ty.properties@[i].name_en@) == key) && (forall|k: int|
                    0 <= k < i ==> text::lowercase((#[trigger] ty.properties@[k]).name_ru@) != key
                        && text::lowercase(ty.properties@[k].name_en@) != key) ==> chain_type(
                    index,
                    vars,
                    segs,
                    n + 1,
                ) == primary(index.types@, ty.properties@[i].value_type@)
                &&& (forall|k: int|
                    0 <= k < ty.properties@.len() ==> text::lowercase(
                        (#[trigger] ty.properties@[k]).name_ru@,
                    ) != key && text::lowercase(ty.properties@[k].name_en@) != key) ==> chain_type(
                    index,
                    vars,
                    segs,
                    n + 1,
                ) is None
            }
        },
{
    let key = text::lowercase(segs[n].name);
    platform::lemma_method_at(ty.methods@, key, 0);
    platform::lemma_property_at(ty.properties@, key, 0);
    if let Some(at) = platform::method_at(ty.methods@, key, 0) {
        assert(platform::named_as(ty.methods@[at].name_ru@, ty.methods@[at].name_en@, key));
        if 0 <= i < at {
            assert(!platform::named_as(ty.methods@[i].name_ru@, ty.methods@[i].name_en@, key));
        }
    }
    if let Some(at) = platform::property_at(ty.properties@, key, 0) {
        assert(platform::named_as(ty.properties@[at].name_ru@, ty.properties@[at].name_en@, key));
        if 0 <= i < at {
            assert(!platform::named_as(ty.properties@[i].name_ru@, ty.properties@[i].name_en@, key));
        }
    }
}

proof fn lemma_part_end_shift(pre: Seq<char>, s: Seq<char>, i: int)
    requires
        0 <= i <= s.len(),
    ensures
        part_end(pre + s, pre.len() + i) == pre.len() + part_end(s, i),
    decreases s.len() - i,
{
    if i < s.len() {
        assert((pre + s)[pre.len() + i] == s[i]);
        if !separates(s[i]) {
            lemma_part_end_shift(pre, s, i + 1);
        }
    }
}

proof fn lemma_part_end_stops(s: Seq<char>, i: int, end: int)
    requires
        0 <= i <= end <= s.len(),
        forall|k: int| i <= k < end ==> !separates(#[trigger] s[k]),
        end == s.len() || separates(s[end]),
    ensures
        part_end(s, i) == end,
    decreases end - i,
{
    if i < end {
        assert(!separates(s[i]));
        lemma_part_end_stops(s, i + 1, end);
    }
}

proof fn lemma_primary_shift(types: Seq<platform::Type>, pre: Seq<char>, s: Seq<char>, i: int)
    requires
        0 <= i <= s.len(),
    ensures
        primary_from(types, pre + s, pre.len() + i) == primary_from(types, s, i),
    decreases s.len() - i,
{
    lemma_part_end(s, i);
    lemma_part_end_shift(pre, s, i);
    let end = part_end(s, i);
    assert((pre + s).subrange(pre.len() + i, pre.len() + end) =~= s.subrange(i, end));
    if end < s.len() {
        lemma_primary_shift(types, pre, s, end + 1);
    }
}

/// The components of a description are looked at in turn: the first that names a known type
/// counts, whatever follows it, and one that names none is passed over. A component stands between
/// separators and may be set in other signs.
pub proof fn law_first_known_component_counts(
    types: Seq<platform::Type>,
    part: Seq<char>,
    sep: char,
    rest: Seq<char>,
)
    requires
        forall|k: int| 0 <= k < part.len() ==> #[trigger] part[k] != ',' && part[k] != ';' && part[k] != '|',
        sep == ',' || sep == ';' || sep == '|',
    ensures
        names_a_type(types, text::trimmed(Edge::NoName, part)) ==> primary(types, part) == Some(
            text::trimmed(Edge::NoName, part),
        ) && primary(types, part.push(sep) + rest) == Some(text::trimmed(Edge::NoName, part)),
        !names_a_type(types, text::trimmed(Edge::NoName, part)) ==> primary(types, part) is None && primary(
            types,
            part.push(sep) + rest,
        ) == primary(types, rest),
{
    let pre = part.push(sep);
    let all = pre + rest;
    let n = part.len() as int;
    assert forall|k: int| 0 <= k < n implies !separates(#[trigger] all[k]) by {
        assert(all[k] == part[k]);
    }
    assert forall|k: int| 0 <= k < n implies !separates(#[trigger] part[k]) by {}
    assert(all[n] == sep);
    lemma_part_end_stops(all, 0, n);
    lemma_part_end_stops(part, 0, n);
    assert(all.subrange(0, n) =~= part);
    assert(part.subrange(0, n) =~= part);
    lemma_primary_shift(types, pre, rest, 0);
    assert(pre.len() + 0 == n + 1);
}

/// Which words are no types of their own, whatever the platform describes: any and undefined.
pub proof fn law_primary_type_is_known(types: Seq<platform::Type>, raw: Seq<char>)
    ensures
        primary(types, raw) matches Some(t) ==> t.len() > 0 && t != "Произвольный"@ && t != "Неопределено"@
            && platform::type_named(types, t) is Some,
{
    lemma_primary_is_known(types, raw, 0);
}

proof fn lemma_primary_is_known(types: Seq<platform::Type>, raw: Seq<char>, i: int)
    ensures
        primary_from(types, raw, i) matches Some(t) ==> names_a_type(types, t),
    decreases raw.len() - i,
{
    if 0 <= i <= raw.len() {
        lemma_part_end(raw, i);
        if part_end(raw, i) < raw.len() {
            lemma_primary_is_known(types, raw, part_end(raw, i) + 1);
        }
    }
}

/// A module has a scope for each of its procedures, in their order, with the bytes of the
/// procedure and the variables that the assignments of its body give types to. A module without
/// any is one scope.
pub proof fn law_each_procedure_is_a_scope(
    index: PlatformIndex,
    cleaned: Seq<char>,
    annotations: Seq<(nat, Seq<char>)>,
    level: u8,
    i: int,
)
    ensures
        ({
            let blocks = regex_matches(PROC_BLOCK@, cleaned);
            let notes = notes_of(cleaned, annotations);
            let scopes = scopes_of(index, cleaned, annotations, level);
            &&& blocks.len() > 0 ==> scopes.len() == blocks.len()
            &&& 0 <= i < blocks.len() ==> {
                let body = span_text(cleaned, blocks[i].0);
                let list = assignments_of(body, blocks[i].0.0 as nat);
                &&& scopes[i].byte_start == blocks[i].0.0
                &&& scopes[i].byte_end == blocks[i].0.1
                &&& scopes[i].vars == vars_of(
                    index,
                    list,
                    last_upto(cleaned, i),
                    notes,
                    level,
                    list.len() as int,
                )
            }
            &&& blocks.len() == 0 ==> scopes.len() == 1 && scopes[0].byte_start == 0 && scopes[0].byte_end
                == text::byte_len(cleaned) && scopes[0].vars == vars_of(
                index,
                assignments_of(cleaned, 0),
                None,
                notes,
                level,
                assignments_of(cleaned, 0).len() as int,
            )
        }),
{
    let blocks = regex_matches(PROC_BLOCK@, cleaned);
    lemma_scopes_upto(index, cleaned, notes_of(cleaned, annotations), level, blocks.len() as int);
}

proof fn lemma_scopes_upto(
    index: PlatformIndex,
    cleaned: Seq<char>,
    notes: Seq<NoteView>,
    level: u8,
    n: int,
)
    requires
        0 <= n,
    ensures
        scopes_upto(index, cleaned, notes, level, n).len() == n,
        forall|i: int|
            0 <= i < n ==> #[trigger] scopes_upto(index, cleaned, notes, level, n)[i] == scope_of_body(
                index,
                span_text(cleaned, regex_matches(PROC_BLOCK@, cleaned)[i].0),
                regex_matches(PROC_BLOCK@, cleaned)[i].0.0 as nat,
                regex_matches(PROC_BLOCK@, cleaned)[i].0.1 as nat,
                last_upto(cleaned, i),
                notes,
                level,
            ),
    decreases n,
{
    if n > 0 {
        lemma_scopes_upto(index, cleaned, notes, level, n - 1);
    }
}

/// An annotation starts to hold on the line behind its own: right behind the next line feed, or at
/// the end of the text.
pub proof fn law_annotation_holds_from_the_next_line(s: Seq<char>, byte: nat, end: int)
    requires
        text::chars_before(s, byte) <= end < s.len(),
        s[end] == '\n',
        forall|k: int| text::chars_before(s, byte) <= k < end ==> #[trigger] s[k] != '\n',
        0 <= text::chars_before(s, byte),
    ensures
        next_line(s, byte) == text::byte_at(s, end + 1),
{
    lemma_line_end_is(s, text::chars_before(s, byte), end);
}

proof fn lemma_line_end_is(s: Seq<char>, i: int, end: int)
    requires
        0 <= i <= end < s.len(),
        s[end] == '\n',
        forall|k: int| i <= k < end ==> #[trigger] s[k] != '\n',
    ensures
        text::line_end(s, i) == end,
    decreases end - i,
{
    if i < end {
        lemma_line_end_is(s, i + 1, end);
    }
}

/// How far an annotation reaches: to the assignments from the start of its line on, up to two
/// hundred bytes further and not past its end, and not past the assignment before which another one
/// already stands behind its start.
pub proof fn law_annotation_reaches_the_next_assignment(note: NoteView, last: Option<nat>, at: nat)
    ensures
        annotation_for(seq![note], last, at, 1) is Some <==> note.from <= at && at <= note.until && at
            <= note.from + 200 && (last is None || last->0 < note.from),
        annotation_for(seq![note], last, at, 1) matches Some(a) ==> a == note,
{
    assert(seq![note][0] == note);
    assert(annotation_for(seq![note], last, at, 0) is None);
}

/// An assignment that an annotation binds to is of the annotated type, whatever its expression is;
/// without an annotation it is of the type of its expression.
pub proof fn law_annotation_goes_before_the_expression(
    index: PlatformIndex,
    a: AssignedView,
    before: Option<nat>,
    notes: Seq<NoteView>,
    level: u8,
)
    ensures
        annotation_for(notes, before, a.at, notes.len() as int) matches Some(noted) ==> vars_of(
            index,
            seq![a],
            before,
            notes,
            level,
            1,
        ) == Map::<Seq<char>, Seq<char>>::empty().insert(text::lowercase(a.name), noted.ty),
        annotation_for(notes, before, a.at, notes.len() as int) is None ==> (match expression_type(
            index,
            Map::empty(),
            a,
            level,
        ) {
            Some(t) => vars_of(index, seq![a], before, notes, level, 1) == Map::<
                Seq<char>,
                Seq<char>,
            >::empty().insert(text::lowercase(a.name), t),
            None => vars_of(index, seq![a], before, notes, level, 1) == Map::<
                Seq<char>,
                Seq<char>,
            >::empty(),
        }),
{
    assert(seq![a][0] == a);
    assert(vars_of(index, seq![a], before, notes, level, 0) == Map::<Seq<char>, Seq<char>>::empty());
}

/// The assignments of a body are those that are matched with both sides: name, place and
/// expression come from the match, and where the body stands in the module moves the places only.
pub proof fn law_assignments_of_a_body(body: Seq<char>, base: nat, other: nat, n: int)
    requires
        0 <= n <= regex_matches(ASSIGNMENT@, body).len(),
    ensures
        assignments_upto(body, base, n).len() == assignments_upto(body, other, n).len(),
        forall|i: int|
            0 <= i < assignments_upto(body, base, n).len() ==> {
                let a = #[trigger] assignments_upto(body, base, n)[i];
                let b = assignments_upto(body, other, n)[i];
                a.name == b.name && a.rhs == b.rhs && a.new_name == b.new_name && a.pair_head == b.pair_head
                    && a.at + other == b.at + base
            },
        (forall|k: int|
            0 <= k < n ==> (#[trigger] regex_matches(ASSIGNMENT@, body)[k]).1 is Some && regex_matches(
                ASSIGNMENT@,
                body,
            )[k].2 is Some) ==> assignments_upto(body, base, n).len() == n && forall|i: int|
            0 <= i < n ==> {
                let m = regex_matches(ASSIGNMENT@, body)[i];
                let a = #[trigger] assignments_upto(body, base, n)[i];
                a.name == span_text(body, m.1->0) && a.at == base + (m.1->0).0 && a.rhs == text::trimmed(
                    Edge::Space,
                    span_text(body, m.2->0),
                )
            },
    decreases n,
{
    if n > 0 {
        law_assignments_of_a_body(body, base, other, n - 1);
        let a = assignments_upto(body, base, n - 1);
        let b = assignments_upto(body, other, n - 1);
        assert forall|i: int| 0 <= i < assignments_upto(body, base, n).len() implies {
            let x = #[trigger] assignments_upto(body, base, n)[i];
            let y = assignments_upto(body, other, n)[i];
            x.name == y.name && x.rhs == y.rhs && x.new_name == y.new_name && x.pair_head == y.pair_head
                && x.at + other == y.at + base
        } by {
            if i < a.len() {
                assert(assignments_upto(body, base, n)[i] == a[i]);
                assert(assignments_upto(body, other, n)[i] == b[i]);
            }
        }
        if forall|k: int|
            0 <= k < n ==> (#[trigger] regex_matches(ASSIGNMENT@, body)[k]).1 is Some && regex_matches(
                ASSIGNMENT@,
                body,
            )[k].2 is Some {
            assert(regex_matches(ASSIGNMENT@, body)[n - 1].1 is Some);
            assert forall|i: int| 0 <= i < n implies {
                let m = regex_matches(ASSIGNMENT@, body)[i];
                let x = #[trigger] assignments_upto(body, base, n)[i];
                x.name == span_text(body, m.1->0) && x.at == base + (m.1->0).0 && x.rhs == text::trimmed(
                    Edge::Space,
                    span_text(body, m.2->0),
                )
            } by {
                if i < n - 1 {
                    assert(assignments_upto(body, base, n)[i] == a[i]);
                }
            }
        }
    }
}

/// An annotation is made of each match that holds a type, in the order of the text: the type is
/// what the match holds, and it holds from the line behind the match on.
pub proof fn law_annotations_of_a_text(
    src: Seq<char>,
    found: Seq<((usize, usize), Option<(usize, usize)>, Option<(usize, usize)>)>,
    n: int,
)
    requires
        0 <= n <= found.len(),
        forall|k: int| 0 <= k < n ==> (#[trigger] found[k]).1 is Some,
    ensures
        annotations_upto(src, found, n).len() == n,
        forall|i: int|
            0 <= i < n ==> #[trigger] annotations_upto(src, found, n)[i] == (
                next_line(src, found[i].0.1 as nat),
                span_text(src, found[i].1->0),
            ),
    decreases n,
{
    if n > 0 {
        law_annotations_of_a_text(src, found, n - 1);
        assert(found[n - 1].1 is Some);
    }
}

proof fn lemma_blanks_shift(pre: Seq<char>, s: Seq<char>, i: int)
    requires
        0 <= i <= s.len(),
    ensures
        past_blanks(pre + s, pre.len() + i) == pre.len() + past_blanks(s, i),
    decreases s.len() - i,
{
    if i < s.len() {
        assert((pre + s)[pre.len() + i] == s[i]);
        if s[i] == ' ' {
            lemma_blanks_shift(pre, s, i + 1);
        }
    }
}

proof fn lemma_call_end_shift(pre: Seq<char>, s: Seq<char>, i: int, depth: int)
    requires
        0 <= i <= s.len(),
    ensures
        match call_end(s, i, depth) {
            Some(e) => call_end(pre + s, pre.len() + i, depth) == Some(pre.len() + e),
            None => call_end(pre + s, pre.len() + i, depth) is None,
        },
    decreases s.len() - i,
{
    if i < s.len() {
        assert((pre + s)[pre.len() + i] == s[i]);
        let next = if s[i] == '(' {
            depth + 1
        } else if s[i] == ')' {
            depth - 1
        } else {
            depth
        };
        if !(s[i] == ')' && depth == 1) {
            lemma_call_end_shift(pre, s, i + 1, next);
        }
    }
}

proof fn lemma_link_shift(pre: Seq<char>, s: Seq<char>, i: int)
    requires
        0 <= i <= s.len(),
    ensures
        match link_at(s, i) {
            Some((seg, next)) => link_at(pre + s, pre.len() + i) == Some((seg, pre.len() + next)),
            None => link_at(pre + s, pre.len() + i) is None,
        },
{
    if i < s.len() {
        assert((pre + s)[pre.len() + i] == s[i]);
        if ident_start(s[i]) {
            text::lemma_ident_end(s, i);
            text::lemma_ident_end_shift(pre, s, i);
            let name_end = text::ident_end(s, i);
            assert((pre + s).subrange(pre.len() + i, pre.len() + name_end) =~= s.subrange(i, name_end));
            lemma_past_blanks(s, name_end);
            lemma_blanks_shift(pre, s, name_end);
            let at = past_blanks(s, name_end);
            if at < s.len() {
                assert((pre + s)[pre.len() + at] == s[at]);
            }
            lemma_call_end(s, at, 0);
            lemma_call_end_shift(pre, s, at, 0);
            lemma_blanks_shift(pre, s, at);
            if let Some(e) = call_end(s, at, 0) {
                lemma_blanks_shift(pre, s, e);
            }
        }
    }
}

proof fn lemma_chain_shift(pre: Seq<char>, s: Seq<char>, i: int, segs: Seq<SegView>)
    requires
        0 <= i <= s.len(),
    ensures
        chain_from(pre + s, pre.len() + i, segs) == chain_from(s, i, segs),
    decreases s.len() - i,
{
    lemma_link_shift(pre, s, i);
    lemma_link_at(s, i);
    if let Some((seg, next)) = link_at(s, i) {
        if next < s.len() {
            assert((pre + s)[pre.len() + next] == s[next]);
            lemma_past_blanks(s, next + 1);
            lemma_blanks_shift(pre, s, next + 1);
            if s[next] == '.' {
                lemma_chain_shift(pre, s, past_blanks(s, next + 1), segs.push(seg));
            }
        }
    }
}

proof fn lemma_chain_front(s: Seq<char>, i: int, first: Seq<SegView>, segs: Seq<SegView>)
    requires
        0 <= i <= s.len(),
    ensures
        match chain_from(s, i, segs) {
            Some(all) => chain_from(s, i, first + segs) == Some(first + all),
            None => chain_from(s, i, first + segs) is None,
        },
    decreases s.len() - i,
{
    lemma_link_at(s, i);
    if let Some((seg, next)) = link_at(s, i) {
        assert((first + segs).push(seg) =~= first + segs.push(seg));
        if next < s.len() {
            lemma_past_blanks(s, next + 1);
            if s[next] == '.' {
                lemma_chain_front(s, past_blanks(s, next + 1), first, segs.push(seg));
            }
        }
    }
}

/// A chain is read link by link: a name, a dot and a chain make the chain with that name before its
/// links, and a name alone is a chain of one link. A name is no call where no bracket follows it.
#[verifier::rlimit(40)]
pub proof fn law_chain_is_read_link_by_link(name: Seq<char>, rest: Seq<char>)
    requires
        name.len() > 0,
        ident_start(name[0]),
        forall|k: int| 0 <= k < name.len() ==> text::ident_char(#[trigger] name[k]),
        text::trimmed(Edge::Space, name) == name,
        text::trimmed(Edge::Space, rest) == rest,
        text::trimmed(Edge::Space, name.push('.') + rest) == name.push('.') + rest,
        rest.len() > 0 ==> rest[0] != ' ',
    ensures
        chain_of(name) == Some(seq![SegView { name, is_call: false }]),
        match chain_of(rest) {
            Some(segs) => chain_of(name.push('.') + rest) == Some(
                seq![SegView { name, is_call: false }] + segs,
            ),
            None => chain_of(name.push('.') + rest) is None,
        },
{
    reveal(text::is_alnum);
    let n = name.len() as int;
    let seg = SegView { name, is_call: false };
    lemma_name_end(name, 0, n);
    assert(name.subrange(0, n) =~= name);
    assert(past_blanks(name, n) == n);
    let none = Seq::<SegView>::empty();
    assert(none.push(seg) =~= seq![seg]);
    assert(chain_from(name, 0, none) == Some(none.push(seg)));
    let pre = name.push('.');
    let s = pre + rest;
    assert forall|k: int| 0 <= k < n implies text::ident_char(#[trigger] s[k]) by {
        assert(s[k] == name[k]);
    }
    assert(s[n] == '.');
    assert(!text::ident_char('.'));
    lemma_name_end(s, 0, n);
    assert(s.subrange(0, n) =~= name);
    assert(s[0] == name[0]);
    assert(past_blanks(s, n) == n);
    assert(link_at(s, 0) == Some((seg, n)));
    lemma_blanks_shift(pre, rest, 0);
    assert(past_blanks(rest, 0) == 0);
    assert(past_blanks(s, n + 1) == n + 1);
    lemma_chain_shift(pre, rest, 0, seq![seg]);
    lemma_chain_front(rest, 0, seq![seg], none);
    assert(seq![seg] + none =~= seq![seg]);
    assert(chain_from(s, 0, none) == chain_from(s, n + 1, none.push(seg)));
}

proof fn lemma_name_end(s: Seq<char>, i: int, end: int)
    requires
        0 <= i <= end <= s.len(),
        forall|k: int| i <= k < end ==> text::ident_char(#[trigger] s[k]),
        end < s.len() ==> !text::ident_char(s[end]),
    ensures
        text::ident_end(s, i) == end,
    decreases end - i,
{
    if i < end {
        assert(text::ident_char(s[i]));
        lemma_name_end(s, i + 1, end);
    }
}

/// A single name is no chain whose type is asked for: only a call or a name with a member behind
/// it returns something.
pub proof fn law_single_name_returns_nothing(
    index: PlatformIndex,
    vars: Map<Seq<char>, Seq<char>>,
    rhs: Seq<char>,
)
    ensures
        (chain_of(rhs) matches Some(segs) && segs.len() == 1 && !segs[0].is_call) ==> returned_type(
            index,
            vars,
            rhs,
        ) is None,
        (chain_of(rhs) matches Some(segs) && (segs.len() > 1 || (segs.len() == 1 && segs[0].is_call)))
            ==> returned_type(index, vars, rhs) == chain_type(
            index,
            vars,
            chain_of(rhs)->0,
            chain_of(rhs)->0.len() as int,
        ),
        chain_of(rhs) is None ==> returned_type(index, vars, rhs) is None,
{
}

} // verus!
