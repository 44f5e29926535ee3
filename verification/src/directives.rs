//! Compilation directives and the directives of extensions.
use crate::distance;
use crate::distance::nearest_name;
use crate::findings;
use crate::findings::{add_finding, ExprError, ExprErrorKind};
use crate::fuzzy;
use crate::fuzzy::find_typo;
use crate::text;
use crate::text::{chars_of, front_of, byte_offsets, same_text, scan_ident, scan_line, text_range, to_lower, Edge};
use vstd::prelude::*;

verus! {

/// The names of all directives, without the ampersand.
pub open spec fn directive_names() -> Seq<Seq<char>> {
    seq![
        "НаКлиенте"@,
        "НаСервере"@,
        "НаСервереБезКонтекста"@,
        "НаКлиентеНаСервере"@,
        "НаКлиентеНаСервереБезКонтекста"@,
        "AtClient"@,
        "AtServer"@,
        "AtServerNoContext"@,
        "AtClientAtServer"@,
        "AtClientAtServerNoContext"@,
        "Перед"@,
        "После"@,
        "Вместо"@,
        "ИзменениеИКонтроль"@,
        "Before"@,
        "After"@,
        "Around"@,
        "ChangeAndValidate"@,
    ]
}

/// The names of all directives, without the ampersand.
pub fn known_directives() -> (r: Vec<String>)
    ensures
        text::texts(r@) == directive_names(),
{
    let r: Vec<String> = vec![
        "НаКлиенте".to_owned(),
        "НаСервере".to_owned(),
        "НаСервереБезКонтекста".to_owned(),
        "НаКлиентеНаСервере".to_owned(),
        "НаКлиентеНаСервереБезКонтекста".to_owned(),
        "AtClient".to_owned(),
        "AtServer".to_owned(),
        "AtServerNoContext".to_owned(),
        "AtClientAtServer".to_owned(),
        "AtClientAtServerNoContext".to_owned(),
        "Перед".to_owned(),
        "После".to_owned(),
        "Вместо".to_owned(),
        "ИзменениеИКонтроль".to_owned(),
        "Before".to_owned(),
        "After".to_owned(),
        "Around".to_owned(),
        "ChangeAndValidate".to_owned(),
    ];
    assert(text::texts(r@) =~= directive_names());
    r
}

/// A directive has the name, whatever its letter case.
pub open spec fn known_directive(name: Seq<char>) -> bool {
    exists|i: int|
        0 <= i < directive_names().len() && text::lowercase(#[trigger] directive_names()[i])
            == text::lowercase(name)
}

/// Whether a directive has the name, whatever its letter case.
pub fn is_known_directive(name: &str) -> (r: bool)
    ensures
        r == known_directive(name@),
{
    let key = to_lower(name);
    let names = known_directives();
    let ghost all = directive_names();
    let mut i: usize = 0;
    while i < names.len()
        invariant
            all == text::texts(names@),
            all == directive_names(),
            key@ == text::lowercase(name@),
            i <= names.len(),
            forall|k: int| 0 <= k < i ==> text::lowercase(#[trigger] all[k]) != key@,
        decreases names.len() - i,
    {
        if same_text(to_lower(names[i].as_str()).as_str(), key.as_str()) {
            assert(text::lowercase(directive_names()[i as int]) == text::lowercase(name@));
            return true;
        }
        assert(all[i as int] == names[i as int]@);
        i += 1;
    }
    false
}

/// The nearest directive to a name, and how far it is.
pub fn closest_directive_with_distance(target: &str) -> (r: Option<(String, usize)>)
    ensures
        match r {
            Some((s, d)) => distance::nearest(target@, directive_names()) == Some((s@, d as nat)),
            None => false,
        },
{
    let names = known_directives();
    let r = nearest_name(target, &names);
    proof {
        distance::law_nearest_is_nearest(target@, directive_names());
    }
    r
}

/// The name of the directive on the line from `start` up to `end`: the letters, digits and
/// underscores behind an ampersand that only white space precedes. It is given with the
/// position of the ampersand, and may be empty.
pub open spec fn directive_on_line(s: Seq<char>, start: int, end: int) -> Option<(int, Seq<char>)> {
    let at = text::front(Edge::Space, s, start, end);
    if at < end && s[at] == '&' {
        Some((at, s.subrange(at + 1, text::ident_end(s, at + 1))))
    } else {
        None
    }
}

/// What is said of a directive that does not exist.
pub open spec fn directive_message(name: Seq<char>, suggestion: Seq<char>) -> Seq<char> {
    "Неизвестная директива '&"@ + name + "'. Возможно, вы имели в виду '&"@ + suggestion + "'."@
}

/// The finding on the line number `row` (the first one being 0) from `start` up to `end`: a
/// directive that does not exist, and that is a typing error for one that does. The column
/// counts the bytes before the ampersand.
pub open spec fn directive_finding(s: Seq<char>, start: int, end: int, row: nat) -> Option<
    findings::FindingView,
> {
    match directive_on_line(s, start, end) {
        None => None,
        Some((at, name)) => if name.len() == 0 || known_directive(name) {
            None
        } else {
            match fuzzy::typo_of(name, directive_names()) {
                None => None,
                Some((suggestion, confidence)) => Some(
                    findings::FindingView {
                        line: row + 1,
                        col: (text::byte_at(s, at) - text::byte_at(s, start) + 1) as nat,
                        kind: ExprErrorKind::UnknownDirective,
                        message: directive_message(name, suggestion),
                        confidence,
                        suggestion: Some(suggestion),
                        similar: seq![],
                    },
                ),
            }
        },
    }
}

/// The findings on the lines from `start` on, the first of them having the number `row`.
pub open spec fn directive_findings(s: Seq<char>, start: int, row: nat) -> Seq<findings::FindingView>
    decreases s.len() - start,
{
    if start < 0 || start >= s.len() {
        seq![]
    } else {
        let end = text::line_end(s, start);
        proof {
            text::lemma_line_end(s, start);
        }
        findings::some_finding(directive_finding(s, start, end, row)) + if end < s.len() {
            directive_findings(s, end + 1, row + 1)
        } else {
            seq![]
        }
    }
}

/// The bytes of a text can be counted in 32 bits.
pub open spec fn small(s: Seq<char>) -> bool {
    text::byte_len(s) < u32::MAX
}

fn check_line(
    chars: &Vec<char>,
    offsets: &Vec<usize>,
    start: usize,
    end: usize,
    row: u32,
    Ghost(s): Ghost<Seq<char>>,
) -> (r: Option<ExprError>)
    requires
        chars@ == s,
        small(s),
        offsets.len() == s.len() + 1,
        forall|k: int| 0 <= k <= s.len() ==> #[trigger] offsets[k] == text::byte_at(s, k),
        start <= end <= s.len(),
        row < u32::MAX,
    ensures
        findings::opt_finding(r) == directive_finding(s, start as int, end as int, row as nat),
{
    let at = front_of(Edge::Space, chars, start, end);
    if !(at < end && chars[at] == '&') {
        return None;
    }
    let name_end = scan_ident(chars, at + 1);
    let name = text_range(chars, at + 1, name_end);
    if name.as_str().is_empty() || is_known_directive(name.as_str()) {
        return None;
    }
    let names = known_directives();
    match find_typo(name.as_str(), &names) {
        None => None,
        Some((suggestion, confidence)) => {
            let mut message = "Неизвестная директива '&".to_owned();
            message.append(name.as_str());
            message.append("'. Возможно, вы имели в виду '&");
            message.append(suggestion.as_str());
            message.append("'.");
            proof {
                text::lemma_byte_at_mono(s, start as int, at as int);
                text::lemma_byte_at_bound(s, at as int);
            }
            let col: u32 = (offsets[at] - offsets[start]) as u32 + 1;
            let r = ExprError::new_with_confidence(
                row + 1,
                col,
                ExprErrorKind::UnknownDirective,
                message,
                confidence,
                Some(suggestion),
                Vec::new(),
            );
            assert(r@.similar =~= Seq::<Seq<char>>::empty());
            Some(r)
        },
    }
}

/// Check the names of the directives of a text in which strings and comments are blanked.
pub fn scan_directives(cleaned: &str, errors: &mut Vec<ExprError>)
    requires
        small(cleaned@),
    ensures
        findings::finding_views(final(errors)@) == findings::finding_views(old(errors)@)
            + directive_findings(cleaned@, 0, 0),
{
    let chars = chars_of(cleaned);
    let offsets = byte_offsets(cleaned, &chars);
    let ghost first = findings::finding_views(errors@);
    let ghost all = directive_findings(cleaned@, 0, 0);
    let mut start: usize = 0;
    let mut row: u32 = 0;
    proof {
        text::lemma_byte_at_bound(cleaned@, 0);
    }
    while start < chars.len()
        invariant
            chars@ == cleaned@,
            small(cleaned@),
            chars.len() <= text::byte_len(cleaned@),
            offsets.len() == chars.len() + 1,
            forall|k: int| 0 <= k <= chars.len() ==> #[trigger] offsets[k] == text::byte_at(cleaned@, k),
            row <= start,
            first == findings::finding_views(old(errors)@),
            all == directive_findings(cleaned@, 0, 0),
            findings::finding_views(errors@) + directive_findings(cleaned@, start as int, row as nat)
                == first + all,
        decreases chars.len() - start,
    {
        let end = scan_line(&chars, start);
        let found = check_line(&chars, &offsets, start, end, row, Ghost(cleaned@));
        let ghost before = findings::finding_views(errors@);
        let ghost one = findings::some_finding(findings::opt_finding(found));
        let ghost rest = if end < chars.len() {
            directive_findings(cleaned@, end + 1, row as nat + 1)
        } else {
            seq![]
        };
        add_finding(errors, found);
        assert(before + (one + rest) =~= (before + one) + rest);
        if end >= chars.len() {
            assert((before + one) + rest =~= before + one);
            return;
        }
        start = end + 1;
        row = row + 1;
    }
    assert(findings::finding_views(errors@) + Seq::<findings::FindingView>::empty()
        =~= findings::finding_views(errors@));
}

/// A directive by which an extension changes a method, in lower case.
pub open spec fn extension_directive(lower: Seq<char>) -> bool {
    ||| lower == "перед"@
    ||| lower == "после"@
    ||| lower == "вместо"@
    ||| lower == "изменениеиконтроль"@
    ||| lower == "before"@
    ||| lower == "after"@
    ||| lower == "around"@
    ||| lower == "changeandvalidate"@
}

/// Some line from `start` on holds a directive by which an extension changes a method.
pub open spec fn extends_from(s: Seq<char>, start: int) -> bool
    decreases s.len() - start,
{
    if start < 0 || start >= s.len() {
        false
    } else {
        let end = text::line_end(s, start);
        proof {
            text::lemma_line_end(s, start);
        }
        (directive_on_line(s, start, end) matches Some((_, name)) && extension_directive(
            text::lowercase(name),
        )) || (end < s.len() && extends_from(s, end + 1))
    }
}

/// The text is that of a module of an extension.
pub open spec fn extension_module(cleaned: Seq<char>) -> bool {
    extends_from(cleaned, 0)
}

/// Whether a text, in which strings and comments are blanked, holds a directive by which an
/// extension changes a method.
pub fn is_extension_module(cleaned: &str) -> (r: bool)
    ensures
        r == extension_module(cleaned@),
{
    let chars = chars_of(cleaned);
    let mut start: usize = 0;
    while start < chars.len()
        invariant
            chars@ == cleaned@,
            extension_module(cleaned@) == extends_from(cleaned@, start as int),
        decreases chars.len() - start,
    {
        let end = scan_line(&chars, start);
        let at = front_of(Edge::Space, &chars, start, end);
        if at < end && chars[at] == '&' {
            let name_end = scan_ident(&chars, at + 1);
            let name = to_lower(text_range(&chars, at + 1, name_end).as_str());
            if same_text(name.as_str(), "перед") || same_text(name.as_str(), "после") || same_text(name.as_str(), "вместо") || same_text(name.as_str(), "изменениеиконтроль") || same_text(name.as_str(), "before") || same_text(name.as_str(), "after") || same_text(name.as_str(), "around") || same_text(name.as_str(), "changeandvalidate") {
                return true;
            }
        }
        if end >= chars.len() {
            return false;
        }
        start = end + 1;
    }
    false
}

/// The nearest directive that is offered is one that exists, and a directive that exists is
/// never reported.
pub proof fn law_directive_findings(s: Seq<char>, start: int, end: int, row: nat)
    ensures
        directive_finding(s, start, end, row) matches Some(f) ==> f.suggestion matches Some(d)
            && directive_names().contains(d) && (directive_on_line(s, start, end) matches Some((_, name))
            && !known_directive(name)),
{
    if let Some((_, name)) = directive_on_line(s, start, end) {
        fuzzy::law_typo_is_near(name, directive_names());
    }
}

/// A name is that of a directive exactly where the nearest directive is at distance 0.
pub proof fn law_known_is_at_distance_zero(name: Seq<char>)
    ensures
        distance::nearest(name, directive_names()) matches Some((s, d)) && (known_directive(name)
            <==> d == 0),
{
    let all = directive_names();
    let key = text::lowercase(name);
    distance::law_nearest_is_nearest(name, all);
    let (s, d) = distance::nearest(name, all)->0;
    distance::law_distance_zero(key, text::lowercase(s));
    if d == 0 {
        let i = choose|i: int| 0 <= i < all.len() && all[i] == s;
        assert(text::lowercase(all[i]) == key);
    }
    if known_directive(name) {
        let i = choose|i: int| 0 <= i < all.len() && text::lowercase(#[trigger] all[i]) == key;
        distance::law_distance_zero(key, text::lowercase(all[i]));
    }
}

/// Letter case, Cyrillic included, is of no account: a name whose letters are of the Latin and the
/// Russian alphabet and its lower-case form are known together, and have the same nearest
/// directive.
pub proof fn law_directive_case_does_not_matter(name: Seq<char>)
    requires
        text::plain_text(name),
    ensures
        known_directive(text::lowercase(name)) == known_directive(name),
        distance::nearest(text::lowercase(name), directive_names()) == distance::nearest(
            name,
            directive_names(),
        ),
{
    text::law_lowering_twice_changes_nothing(name);
}

proof fn lemma_directive_names(i: int)
    requires
        0 <= i < directive_names().len(),
    ensures
        text::plain_text(directive_names()[i]),
        directive_names()[i].len() > 0,
        directive_names()[i][0] != '&',
{
    reveal_strlit("НаКлиенте");
    reveal_strlit("НаСервере");
    reveal_strlit("НаСервереБезКонтекста");
    reveal_strlit("НаКлиентеНаСервере");
    reveal_strlit("НаКлиентеНаСервереБезКонтекста");
    reveal_strlit("AtClient");
    reveal_strlit("AtServer");
    reveal_strlit("AtServerNoContext");
    reveal_strlit("AtClientAtServer");
    reveal_strlit("AtClientAtServerNoContext");
    reveal_strlit("Перед");
    reveal_strlit("После");
    reveal_strlit("Вместо");
    reveal_strlit("ИзменениеИКонтроль");
    reveal_strlit("Before");
    reveal_strlit("After");
    reveal_strlit("Around");
    reveal_strlit("ChangeAndValidate");
}

/// The name is taken without the ampersand: with it no name is known.
pub proof fn law_name_stands_without_ampersand(name: Seq<char>)
    requires
        text::plain_text(name),
    ensures
        !known_directive("&"@ + name),
{
    reveal_strlit("&");
    let marked = "&"@ + name;
    assert forall|i: int| 0 <= i < marked.len() implies text::plain(#[trigger] marked[i]) by {
        if i > 0 {
            assert(text::plain(name[i - 1]));
        }
    }
    text::law_lowering_twice_changes_nothing(marked);
    assert(text::lowercase(marked)[0] == '&');
    assert forall|i: int| 0 <= i < directive_names().len() implies text::lowercase(
        #[trigger] directive_names()[i],
    ) != text::lowercase(marked) by {
        lemma_directive_names(i);
        let d = directive_names()[i];
        text::law_lowering_twice_changes_nothing(d);
        assert(text::lowercase(d)[0] == text::lower_form(d[0]));
    }
}

/// With the ampersand before it no directive is known.
pub proof fn law_directive_stands_without_ampersand(i: int)
    requires
        0 <= i < directive_names().len(),
    ensures
        known_directive(directive_names()[i]),
        !known_directive("&"@ + directive_names()[i]),
{
    lemma_directive_names(i);
    assert(text::lowercase(directive_names()[i]) == text::lowercase(directive_names()[i]));
    law_name_stands_without_ampersand(directive_names()[i]);
}

proof fn lemma_directive_shift(pre: Seq<char>, s: Seq<char>, start: int, end: int)
    requires
        0 <= start <= end <= s.len(),
    ensures
        match directive_on_line(s, start, end) {
            Some((at, name)) => start <= at < end && directive_on_line(
                pre + s,
                pre.len() + start,
                pre.len() + end,
            ) == Some((pre.len() + at, name)),
            None => directive_on_line(pre + s, pre.len() + start, pre.len() + end) is None,
        },
{
    let at = text::front(Edge::Space, s, start, end);
    text::lemma_front(Edge::Space, s, start, end);
    text::lemma_front_shift(Edge::Space, pre, s, start, end);
    if at < end {
        assert((pre + s)[pre.len() + at] == s[at]);
        text::lemma_ident_end(s, at + 1);
        text::lemma_ident_end_shift(pre, s, at + 1);
        assert((pre + s).subrange(pre.len() + at + 1, pre.len() + text::ident_end(s, at + 1))
            =~= s.subrange(at + 1, text::ident_end(s, at + 1)));
    }
}

proof fn lemma_directive_alone(line: Seq<char>, rest: Seq<char>)
    ensures
        directive_on_line(line.push('\n') + rest, 0, line.len() as int) == directive_on_line(
            line,
            0,
            line.len() as int,
        ),
{
    let s = line.push('\n') + rest;
    let n = line.len() as int;
    text::lemma_front_same(Edge::Space, s, line, 0, n);
    text::lemma_front(Edge::Space, line, 0, n);
    let at = text::front(Edge::Space, line, 0, n);
    if at < n {
        assert(s[at] == line[at]);
        text::lemma_ident_end(line, at + 1);
        text::lemma_ident_end_in_line(line, rest, at + 1);
        assert(s.subrange(at + 1, text::ident_end(line, at + 1)) =~= line.subrange(
            at + 1,
            text::ident_end(line, at + 1),
        ));
    }
}

proof fn lemma_findings_shift(pre: Seq<char>, s: Seq<char>, start: int, row: nat)
    requires
        0 <= start <= s.len(),
    ensures
        directive_findings(pre + s, pre.len() + start, row) == directive_findings(s, start, row),
        extends_from(pre + s, pre.len() + start) == extends_from(s, start),
    decreases s.len() - start,
{
    if start < s.len() {
        let end = text::line_end(s, start);
        text::lemma_line_end(s, start);
        text::lemma_line_end_shift(pre, s, start);
        lemma_directive_shift(pre, s, start, end);
        text::lemma_byte_at_shift(pre, s, start);
        if let Some((at, name)) = directive_on_line(s, start, end) {
            text::lemma_byte_at_shift(pre, s, at);
        }
        if end < s.len() {
            lemma_findings_shift(pre, s, end + 1, row + 1);
        }
    }
}

/// The lines of a module are looked at one by one: what is found on a line does not depend on the
/// lines behind it, and what is found behind it depends on it by the number of the line only. A
/// module is one of an extension where one of its lines makes it so.
pub proof fn law_directive_lines_are_independent(line: Seq<char>, rest: Seq<char>, row: nat)
    requires
        forall|k: int| 0 <= k < line.len() ==> #[trigger] line[k] != '\n',
    ensures
        directive_findings(line.push('\n') + rest, 0, row) == findings::some_finding(
            directive_finding(line, 0, line.len() as int, row),
        ) + directive_findings(rest, 0, row + 1),
        extension_module(line.push('\n') + rest) <==> (directive_on_line(
            line,
            0,
            line.len() as int,
        ) matches Some((_, name)) && extension_directive(text::lowercase(name))) || extension_module(rest),
{
    let pre = line.push('\n');
    let s = pre + rest;
    let n = line.len() as int;
    assert forall|k: int| 0 <= k < n implies #[trigger] s[k] != '\n' by {
        assert(s[k] == line[k]);
    }
    assert(s[n] == '\n');
    text::lemma_line_end_is(s, 0, n);
    lemma_directive_alone(line, rest);
    lemma_findings_shift(pre, rest, 0, row + 1);
    if let Some((at, name)) = directive_on_line(line, 0, n) {
        text::lemma_front(Edge::Space, line, 0, n);
        assert(s.take(at) =~= line.take(at));
        assert(s.take(0) =~= line.take(0));
    }
}

/// A directive is the name behind an ampersand that begins its line, white space aside: all
/// characters of a name behind it, and nothing that follows them. A line that begins with anything
/// else has none.
pub proof fn law_directive_is_the_name_behind_the_ampersand(pad: Seq<char>, name: Seq<char>, rest: Seq<char>)
    requires
        forall|k: int| 0 <= k < pad.len() ==> text::is_space(#[trigger] pad[k]),
        forall|k: int| 0 <= k < name.len() ==> text::ident_char(#[trigger] name[k]),
        rest.len() > 0 ==> !text::ident_char(rest[0]),
    ensures
        ({
            let line = pad.push('&') + name + rest;
            directive_on_line(line, 0, line.len() as int) == Some((pad.len() as int, name))
        }),
        rest.len() > 0 && rest[0] != '&' && !text::is_space(rest[0]) ==> directive_on_line(
            pad + rest,
            0,
            (pad + rest).len() as int,
        ) is None,
{
    reveal(text::is_space);
    let line = pad.push('&') + name + rest;
    let n = pad.len() as int;
    lemma_past_space(line, 0, n);
    assert(line[n] == '&');
    lemma_name_end(line, n + 1, n + 1 + name.len());
    assert(line.subrange(n + 1, n + 1 + name.len()) =~= name);
    if rest.len() > 0 && rest[0] != '&' && !text::is_space(rest[0]) {
        let other = pad + rest;
        assert(other[n] == rest[0]);
        lemma_past_space(other, 0, n);
    }
}

proof fn lemma_past_space(s: Seq<char>, i: int, at: int)
    requires
        0 <= i <= at < s.len(),
        forall|k: int| i <= k < at ==> text::is_space(#[trigger] s[k]),
        !text::is_space(s[at]),
    ensures
        text::front(Edge::Space, s, i, s.len() as int) == at,
    decreases at - i,
{
    if i < at {
        assert(text::is_space(s[i]));
        lemma_past_space(s, i + 1, at);
    }
}

proof fn lemma_name_end(s: Seq<char>, i: int, end: int)
    requires
        0 <= i <= end <= s.len(),
        forall|k: int| i <= k < end ==> text::ident_char(#[trigger] s[k]),
        end < s.len() ==> !text::ident_char(s[end]),
    ensures
        text::ident_end(s, i) == end,
    decreases end - i,
{
    if i < end {
        assert(text::ident_char(s[i]));
        lemma_name_end(s, i + 1, end);
    }
}

/// A directive that is a typing error for a known one is reported with that one, on its line and
/// in the column of its ampersand; a known one and one that is like none are silent.
pub proof fn law_mistyped_directive_is_reported(pad: Seq<char>, name: Seq<char>, rest: Seq<char>, row: nat)
    requires
        forall|k: int| 0 <= k < pad.len() ==> text::is_space(#[trigger] pad[k]),
        name.len() > 0,
        forall|k: int| 0 <= k < name.len() ==> text::ident_char(#[trigger] name[k]),
        rest.len() > 0 ==> !text::ident_char(rest[0]),
    ensures
        ({
            let line = pad.push('&') + name + rest;
            let found = directive_finding(line, 0, line.len() as int, row);
            match fuzzy::typo_of(name, directive_names()) {
                Some((s, c)) => found matches Some(f) && f.kind == ExprErrorKind::UnknownDirective
                    && f.suggestion == Some(s) && f.confidence == c && f.line == row + 1 && f.col
                    == text::byte_len(pad) + 1,
                None => found is None,
            }
        }),
        (exists|i: int|
            0 <= i < directive_names().len() && text::lowercase(#[trigger] directive_names()[i])
                == text::lowercase(name)) ==> fuzzy::typo_of(name, directive_names()) is None,
{
    let line = pad.push('&') + name + rest;
    law_directive_is_the_name_behind_the_ampersand(pad, name, rest);
    assert(line.take(pad.len() as int) =~= pad);
    assert(line.take(0) =~= Seq::<char>::empty());
    assert(text::byte_len(line.take(0)) == 0);
    if known_directive(name) {
        let i = choose|i: int|
            0 <= i < directive_names().len() && text::lowercase(#[trigger] directive_names()[i])
                == text::lowercase(name);
        fuzzy::law_known_name_is_no_typo(name, directive_names(), i);
    }
}

/// The directives by which an extension changes procedures make a module one of an extension, by
/// their own names; those that say where a procedure runs do not.
#[verifier::rlimit(40)]
pub proof fn law_directives_of_extensions(i: int)
    requires
        0 <= i < directive_names().len(),
    ensures
        extension_directive(text::lowercase(directive_names()[i])) <==> i >= 10,
{
    lemma_directive_names(i);
    text::law_lowering_twice_changes_nothing(directive_names()[i]);
    reveal_strlit("НаКлиенте");
    reveal_strlit("НаСервере");
    reveal_strlit("НаСервереБезКонтекста");
    reveal_strlit("НаКлиентеНаСервере");
    reveal_strlit("НаКлиентеНаСервереБезКонтекста");
    reveal_strlit("AtClient");
    reveal_strlit("AtServer");
    reveal_strlit("AtServerNoContext");
    reveal_strlit("AtClientAtServer");
    reveal_strlit("AtClientAtServerNoContext");
    reveal_strlit("Перед");
    reveal_strlit("После");
    reveal_strlit("Вместо");
    reveal_strlit("ИзменениеИКонтроль");
    reveal_strlit("Before");
    reveal_strlit("After");
    reveal_strlit("Around");
    reveal_strlit("ChangeAndValidate");
    reveal_strlit("перед");
    reveal_strlit("после");
    reveal_strlit("вместо");
    reveal_strlit("изменениеиконтроль");
    reveal_strlit("before");
    reveal_strlit("after");
    reveal_strlit("around");
    reveal_strlit("changeandvalidate");
    let low = text::lowercase(directive_names()[i]);
    if i >= 10 {
        assert(low =~= "перед"@ || low =~= "после"@ || low =~= "вместо"@ || low =~= "изменениеиконтроль"@
            || low =~= "before"@ || low =~= "after"@ || low =~= "around"@ || low =~= "changeandvalidate"@);
    } else {
        assert(low[0] == 'н' || (low[0] == 'a' && low[1] == 't'));
        assert("перед"@[0] == 'п' && "после"@[0] == 'п' && "вместо"@[0] == 'в');
        assert("изменениеиконтроль"@[0] == 'и' && "before"@[0] == 'b' && "changeandvalidate"@[0] == 'c');
        assert("after"@[1] == 'f' && "around"@[1] == 'r');
    }
}

/// What is said of a directive names it and the one that is suggested.
pub proof fn law_messages_name_what_they_speak_of(name: Seq<char>, suggestion: Seq<char>)
    ensures
        text::holds(directive_message(name, suggestion), name),
        text::holds(directive_message(name, suggestion), suggestion),
{
    assert(directive_message(name, suggestion) =~= ("Неизвестная директива '&"@) + name + ("'. Возможно, вы имели в виду '&"@ + suggestion + "'."@));
    text::law_beginnings_and_ends("Неизвестная директива '&"@, name, "'. Возможно, вы имели в виду '&"@ + suggestion + "'."@);
    assert(directive_message(name, suggestion) =~= ("Неизвестная директива '&"@ + name + "'. Возможно, вы имели в виду '&"@) + suggestion + ("'."@));
    text::law_beginnings_and_ends("Неизвестная директива '&"@ + name + "'. Возможно, вы имели в виду '&"@, suggestion, "'."@);
}

} // verus!
