//! Text as sequences of characters, and the operations on it that the checks share.
use vstd::prelude::*;
use vstd::slice::slice_subrange;

verus! {

/// A letter of the Latin alphabet.
pub open spec fn latin(c: char) -> bool {
    'a' <= c <= 'z' || 'A' <= c <= 'Z'
}

/// A letter of the Russian alphabet.
pub open spec fn russian(c: char) -> bool {
    'а' <= c <= 'я' || 'А' <= c <= 'Я' || c == 'ё' || c == 'Ё'
}

/// An ASCII character.
pub open spec fn ascii(c: char) -> bool {
    c as u32 <= 0x7F
}

/// A character whose lower-case and upper-case forms are plain to see: an ASCII character, a
/// letter of the Russian alphabet, or a character that is no letter.
pub open spec fn plain(c: char) -> bool {
    ascii(c) || russian(c) || !is_alpha(c)
}

/// A text of plain characters.
pub open spec fn plain_text(s: Seq<char>) -> bool {
    forall|i: int| 0 <= i < s.len() ==> plain(#[trigger] s[i])
}

/// The lower-case form of a plain character.
pub open spec fn lower_form(c: char) -> char {
    if 'A' <= c <= 'Z' || 'А' <= c <= 'Я' {
        (c as u32 + 32) as char
    } else if c == 'Ё' {
        'ё'
    } else {
        c
    }
}

/// The upper-case form of a plain character.
pub open spec fn upper_form(c: char) -> char {
    if 'a' <= c <= 'z' || 'а' <= c <= 'я' {
        (c as u32 - 32) as char
    } else if c == 'ё' {
        'Ё'
    } else {
        c
    }
}

/// The lower-case form that the standard library gives.
pub uninterp spec fn std_lowercase(s: Seq<char>) -> Seq<char>;

/// The upper-case form that the standard library gives.
pub uninterp spec fn std_uppercase(s: Seq<char>) -> Seq<char>;

/// The lower-case form of a text: of a plain one character by character, of any other one as
/// the standard library has it.
#[verifier::opaque]
pub open spec fn lowercase(s: Seq<char>) -> Seq<char> {
    if plain_text(s) {
        s.map_values(|c: char| lower_form(c))
    } else {
        std_lowercase(s)
    }
}

/// The upper-case form of a text: of a plain one character by character, of any other one as
/// the standard library has it.
#[verifier::opaque]
pub open spec fn uppercase(s: Seq<char>) -> Seq<char> {
    if plain_text(s) {
        s.map_values(|c: char| upper_form(c))
    } else {
        std_uppercase(s)
    }
}

/// Whether a character has the Unicode property White_Space.
#[verifier::opaque]
pub open spec fn is_space(c: char) -> bool {
    let n = c as u32;
    ||| 0x09 <= n <= 0x0D
    ||| n == 0x20 || n == 0x85 || n == 0xA0 || n == 0x1680
    ||| 0x2000 <= n <= 0x200A
    ||| n == 0x2028 || n == 0x2029 || n == 0x202F || n == 0x205F || n == 0x3000
}

/// Whether the standard library takes a character for a letter or a number.
pub uninterp spec fn std_alnum(c: char) -> bool;

/// Whether a character is a Unicode letter or number: of the ASCII characters the letters and
/// the digits are, letters of the Russian alphabet are, any other one as the standard library
/// has it.
#[verifier::opaque]
pub open spec fn is_alnum(c: char) -> bool {
    if ascii(c) {
        latin(c) || '0' <= c <= '9'
    } else {
        russian(c) || std_alnum(c)
    }
}

/// Whether a character is a Unicode letter.
pub uninterp spec fn is_alpha(c: char) -> bool;

/// Whether a character is a lower-case letter.
pub uninterp spec fn is_lower(c: char) -> bool;

/// Whether a character is an upper-case letter.
pub uninterp spec fn is_upper(c: char) -> bool;

/// `str::to_lowercase`: the lower-case form of the text depends on the text alone. Of a text of
/// plain characters it is the text with each letter of the Latin and the Russian alphabet
/// replaced by its lower-case one: a character without the Unicode property Alphabetic has no
/// case, and stays.
#[verifier::external_body]
pub(crate) fn to_lower(s: &str) -> (r: String)
    ensures
        r@ == lowercase(s@),
        !plain_text(s@) ==> r@ == std_lowercase(s@),
{
    s.to_lowercase()
}

/// `str::to_uppercase`: the upper-case form of the text depends on the text alone. Of a text of
/// plain characters it is the text with each letter of the Latin and the Russian alphabet
/// replaced by its upper-case one: a character without the Unicode property Alphabetic has no
/// case, and stays.
#[verifier::external_body]
pub(crate) fn to_upper(s: &str) -> (r: String)
    ensures
        r@ == uppercase(s@),
        !plain_text(s@) ==> r@ == std_uppercase(s@),
{
    s.to_uppercase()
}

/// `char::is_whitespace`: whether the character has the Unicode property White_Space, which 25
/// characters have.
#[verifier::external_body]
pub(crate) fn char_is_space(c: char) -> (r: bool)
    ensures
        r == is_space(c),
{
    c.is_whitespace()
}

/// `char::is_alphanumeric`: a fixed property of the character. The letters of the Latin and the
/// Russian alphabet and the digits have it, other ASCII characters do not.
#[verifier::external_body]
pub(crate) fn char_is_alnum(c: char) -> (r: bool)
    ensures
        r == is_alnum(c),
        !ascii(c) && !russian(c) ==> r == std_alnum(c),
{
    c.is_alphanumeric()
}

/// `char::is_alphabetic`: a fixed property of the character.
#[verifier::external_body]
pub(crate) fn char_is_alpha(c: char) -> (r: bool)
    ensures
        r == is_alpha(c),
{
    c.is_alphabetic()
}

/// `char::is_lowercase`: a fixed property of the character.
#[verifier::external_body]
pub(crate) fn char_is_lower(c: char) -> (r: bool)
    ensures
        r == is_lower(c),
{
    c.is_lowercase()
}

/// `char::is_uppercase`: a fixed property of the character.
#[verifier::external_body]
pub(crate) fn char_is_upper(c: char) -> (r: bool)
    ensures
        r == is_upper(c),
{
    c.is_uppercase()
}

/// Equality of string slices compares the characters.
pub assume_specification[ <str as PartialEq>::eq ](a: &str, b: &str) -> (r: bool)
    ensures
        r == (a@ == b@),
;

/// `String::from_iter` over borrowed characters: the string of these characters in order.
#[verifier::external_body]
pub(crate) fn string_of(chars: &[char]) -> (r: String)
    ensures
        r@ == chars@,
{
    String::from_iter(chars)
}

/// The characters of a text.
pub fn chars_of(s: &str) -> (r: Vec<char>)
    ensures
        r@ == s@,
{
    let mut out: Vec<char> = Vec::new();
    for c in it: s.chars()
        invariant
            it.seq() == s@,
            out@ == s@.take(it.index()),
    {
        out.push(c);
        assert(s@.take(it.index() + 1) == s@.take(it.index()).push(c));
    }
    assert(s@.take(s@.len() as int) == s@);
    out
}

/// The characters from `from` up to `to`, as a string.
pub fn text_range(chars: &Vec<char>, from: usize, to: usize) -> (r: String)
    requires
        from <= to <= chars.len(),
    ensures
        r@ == chars@.subrange(from as int, to as int),
{
    string_of(slice_subrange(chars.as_slice(), from, to))
}

/// Whether two texts hold the same characters.
pub fn same_text(a: &str, b: &str) -> (r: bool)
    ensures
        r == (a@ == b@),
{
    *a == *b
}

/// The number of bytes that a character takes in UTF-8.
pub open spec fn char_width(c: char) -> nat {
    if c as u32 <= 0x7F {
        1
    } else if c as u32 <= 0x7FF {
        2
    } else if c as u32 <= 0xFFFF {
        3
    } else {
        4
    }
}

/// The number of bytes that a text takes in UTF-8.
pub open spec fn byte_len(s: Seq<char>) -> nat
    decreases s.len(),
{
    if s.len() == 0 {
        0
    } else {
        byte_len(s.drop_last()) + char_width(s.last())
    }
}

/// The byte at which character `i` of a text starts.
pub open spec fn byte_at(s: Seq<char>, i: int) -> nat {
    byte_len(s.take(i))
}

proof fn lemma_byte_len_front(c: char, t: Seq<char>)
    ensures
        byte_len(seq![c] + t) == char_width(c) + byte_len(t),
    decreases t.len(),
{
    if t.len() == 0 {
        assert((seq![c] + t).drop_last() == Seq::<char>::empty());
        assert((seq![c] + t).last() == c);
        assert(byte_len(Seq::<char>::empty()) == 0);
    } else {
        lemma_byte_len_front(c, t.drop_last());
        assert((seq![c] + t).drop_last() == seq![c] + t.drop_last());
        assert((seq![c] + t).last() == t.last());
    }
}

/// The byte length of a text is the length of its UTF-8 encoding.
pub proof fn lemma_byte_len(s: Seq<char>)
    ensures
        vstd::utf8::encode_utf8(s).len() == byte_len(s),
    decreases s.len(),
{
    if s.len() > 0 {
        lemma_byte_len(s.drop_first());
        lemma_byte_len_front(s[0], s.drop_first());
        assert(seq![s[0]] + s.drop_first() == s);
        vstd::utf8::char_is_scalar(s[0]);
        assert(vstd::utf8::encode_scalar(s[0] as u32).len() == char_width(s[0]));
    }
}

/// Byte positions do not fall as the character position grows.
pub proof fn lemma_byte_at_mono(s: Seq<char>, i: int, j: int)
    requires
        0 <= i <= j <= s.len(),
    ensures
        byte_at(s, i) + (j - i) <= byte_at(s, j),
    decreases j - i,
{
    if i < j {
        lemma_byte_at_mono(s, i, j - 1);
        lemma_byte_at_step(s, j - 1);
    }
}

/// The byte position after a character is the one before it plus the character's width.
pub proof fn lemma_byte_at_step(s: Seq<char>, i: int)
    requires
        0 <= i < s.len(),
    ensures
        byte_at(s, i + 1) == byte_at(s, i) + char_width(s[i]),
{
    assert(s.take(i + 1).drop_last() == s.take(i));
}

/// Every character of a text starts within its bytes.
pub proof fn lemma_byte_at_bound(s: Seq<char>, i: int)
    requires
        0 <= i <= s.len(),
    ensures
        byte_at(s, i) + (s.len() - i) <= byte_len(s),
{
    lemma_byte_at_mono(s, i, s.len() as int);
    assert(s.take(s.len() as int) == s);
}

/// The number of bytes that a character takes in UTF-8.
pub fn width_of(c: char) -> (r: usize)
    ensures
        r == char_width(c),
{
    let code: u32 = c as u32;
    if code <= 0x7F {
        1
    } else if code <= 0x7FF {
        2
    } else if code <= 0xFFFF {
        3
    } else {
        4
    }
}

/// A text never takes more bytes than a machine address can count.
pub fn byte_len_of(s: &str) -> (r: usize)
    ensures
        r == byte_len(s@),
{
    let b = s.as_bytes();
    proof {
        lemma_byte_len(s@);
    }
    b.len()
}

/// The byte at which each character of a text starts, and the end of its bytes.
pub fn byte_offsets(s: &str, chars: &Vec<char>) -> (r: Vec<usize>)
    requires
        chars@ == s@,
    ensures
        r.len() == chars.len() + 1,
        forall|k: int| 0 <= k <= chars.len() ==> #[trigger] r[k] == byte_at(s@, k),
{
    let total = byte_len_of(s);
    let mut out: Vec<usize> = Vec::new();
    let mut at: usize = 0;
    let mut i: usize = 0;
    out.push(0);
    while i < chars.len()
        invariant
            chars@ == s@,
            total == byte_len(s@),
            i <= chars.len(),
            at == byte_at(s@, i as int),
            out.len() == i + 1,
            forall|k: int| 0 <= k <= i ==> #[trigger] out[k] == byte_at(s@, k),
        decreases chars.len() - i,
    {
        proof {
            lemma_byte_at_step(s@, i as int);
            lemma_byte_at_bound(s@, i + 1);
        }
        at = at + width_of(chars[i]);
        out.push(at);
        i += 1;
    }
    out
}

/// The views of a list of strings.
pub open spec fn texts(v: Seq<String>) -> Seq<Seq<char>> {
    v.map_values(|s: String| s@)
}

pub proof fn lemma_texts_push(v: Seq<String>, x: String)
    ensures
        texts(v.push(x)) == texts(v).push(x@),
{
    assert(texts(v.push(x)) =~= texts(v).push(x@));
}

/// Whether a list of strings holds a text.
pub fn holds_text(list: &Vec<String>, s: &str) -> (r: bool)
    ensures
        r == texts(list@).contains(s@),
{
    let mut i: usize = 0;
    while i < list.len()
        invariant
            i <= list.len(),
            forall|j: int| 0 <= j < i ==> (#[trigger] texts(list@)[j]) != s@,
        decreases list.len() - i,
    {
        if same_text(list[i].as_str(), s) {
            assert(texts(list@)[i as int] == s@);
            return true;
        }
        i += 1;
    }
    false
}

/// The parts of a list, with `sep` between them.
pub open spec fn joined(parts: Seq<Seq<char>>, sep: Seq<char>) -> Seq<char>
    decreases parts.len(),
{
    if parts.len() == 0 {
        seq![]
    } else if parts.len() == 1 {
        parts[0]
    } else {
        joined(parts.drop_last(), sep) + sep + parts.last()
    }
}

/// The strings of a list in one, with `sep` between them.
pub fn join(parts: &Vec<String>, sep: &str) -> (r: String)
    ensures
        r@ == joined(texts(parts@), sep@),
{
    let mut out = String::new();
    let mut i: usize = 0;
    while i < parts.len()
        invariant
            i <= parts.len(),
            out@ == joined(texts(parts@).take(i as int), sep@),
        decreases parts.len() - i,
    {
        if i > 0 {
            out.append(sep);
        }
        out.append(parts[i].as_str());
        proof {
            let t = texts(parts@).take(i + 1);
            assert(t.drop_last() == texts(parts@).take(i as int));
            assert(t.last() == parts[i as int]@);
        }
        i += 1;
    }
    assert(texts(parts@).take(i as int) == texts(parts@));
    out
}

/// A copy of a list of strings.
pub fn copy_texts(list: &Vec<String>) -> (r: Vec<String>)
    ensures
        texts(r@) == texts(list@),
{
    let mut out: Vec<String> = Vec::new();
    let mut i: usize = 0;
    while i < list.len()
        invariant
            i <= list.len(),
            texts(out@) == texts(list@).take(i as int),
        decreases list.len() - i,
    {
        let ghost before = out@;
        out.push(list[i].clone());
        assert(texts(out@) == texts(before).push(list@[i as int]@));
        assert(texts(list@).take(i + 1) == texts(list@).take(i as int).push(list@[i as int]@));
        i += 1;
    }
    assert(texts(list@).take(i as int) == texts(list@));
    out
}

/// The number of characters, from `i` on, that start before a byte.
pub open spec fn chars_before_from(s: Seq<char>, byte: nat, i: int) -> int
    decreases s.len() - i,
{
    if 0 <= i < s.len() && byte_at(s, i) < byte {
        chars_before_from(s, byte, i + 1)
    } else {
        i
    }
}

/// How many characters of a text start before a byte.
pub open spec fn chars_before(s: Seq<char>, byte: nat) -> int {
    chars_before_from(s, byte, 0)
}

proof fn lemma_chars_before_is(s: Seq<char>, byte: nat, i: int, at: int)
    requires
        0 <= i <= at <= s.len(),
        forall|k: int| i <= k < at ==> #[trigger] byte_at(s, k) < byte,
        at == s.len() || byte_at(s, at) >= byte,
    ensures
        chars_before_from(s, byte, i) == at,
    decreases at - i,
{
    if i < at {
        lemma_chars_before_is(s, byte, i + 1, at);
    }
}

/// The number of characters before a byte lies within the text, and grows with the byte.
pub proof fn lemma_chars_before(s: Seq<char>, a: nat, b: nat)
    requires
        a <= b,
    ensures
        0 <= chars_before(s, a) <= chars_before(s, b) <= s.len(),
{
    lemma_chars_before_bounds(s, a, 0);
    lemma_chars_before_bounds(s, b, 0);
    let x = chars_before(s, a);
    let y = chars_before(s, b);
    if x > y {
        assert(byte_at(s, y) < a);
    }
}

/// No more characters start before a byte than stand before one that starts at the byte or
/// behind it.
pub proof fn lemma_byte_at_chars_before(s: Seq<char>, byte: nat, k: int)
    requires
        0 <= k <= s.len(),
        byte <= byte_at(s, k),
    ensures
        0 <= chars_before(s, byte) <= k,
{
    lemma_chars_before_bounds(s, byte, 0);
    if chars_before(s, byte) > k {
        assert(byte_at(s, k) < byte);
    }
}

proof fn lemma_chars_before_bounds(s: Seq<char>, byte: nat, i: int)
    requires
        0 <= i <= s.len(),
    ensures
        i <= chars_before_from(s, byte, i) <= s.len(),
        forall|k: int| i <= k < chars_before_from(s, byte, i) ==> #[trigger] byte_at(s, k) < byte,
        chars_before_from(s, byte, i) < s.len() ==> byte_at(s, chars_before_from(s, byte, i)) >= byte,
    decreases s.len() - i,
{
    if i < s.len() && byte_at(s, i) < byte {
        lemma_chars_before_bounds(s, byte, i + 1);
    }
}

/// How many characters of a text start before a byte, given where each one starts.
pub(crate) fn char_index(offsets: &Vec<usize>, byte: usize, Ghost(s): Ghost<Seq<char>>) -> (r: usize)
    requires
        offsets.len() == s.len() + 1,
        forall|k: int| 0 <= k <= s.len() ==> #[trigger] offsets[k] == byte_at(s, k),
    ensures
        r == chars_before(s, byte as nat),
        r <= s.len(),
{
    let mut low: usize = 0;
    let mut high: usize = offsets.len() - 1;
    while low < high
        invariant
            offsets.len() == s.len() + 1,
            forall|k: int| 0 <= k <= s.len() ==> #[trigger] offsets[k] == byte_at(s, k),
            low <= high <= s.len(),
            forall|k: int| 0 <= k < low ==> #[trigger] byte_at(s, k) < byte,
            high == s.len() || byte_at(s, high as int) >= byte,
        decreases high - low,
    {
        let middle: usize = low + (high - low) / 2;
        if offsets[middle] < byte {
            proof {
                assert forall|k: int| 0 <= k < middle + 1 implies #[trigger] byte_at(s, k) < byte by {
                    lemma_byte_at_mono(s, k, middle as int);
                }
            }
            low = middle + 1;
        } else {
            high = middle;
        }
    }
    proof {
        lemma_chars_before_is(s, byte as nat, 0, low as int);
    }
    low
}

/// What is cut off at the ends of a text.
#[derive(Debug, Clone, Copy, PartialEq, Eq, Structural)]
pub enum Edge {
    /// White space.
    Space,
    /// Backticks.
    Backtick,
    /// Everything of which no name is made.
    NoName,
}

/// The character is cut off at the ends of a text.
pub open spec fn on_edge(edge: Edge, c: char) -> bool {
    match edge {
        Edge::Space => is_space(c),
        Edge::Backtick => c == '`',
        Edge::NoName => !(is_alnum(c) || c == '_'),
    }
}

fn is_on_edge(edge: Edge, c: char) -> (r: bool)
    ensures
        r == on_edge(edge, c),
{
    match edge {
        Edge::Space => char_is_space(c),
        Edge::Backtick => c == '`',
        Edge::NoName => !(char_is_alnum(c) || c == '_'),
    }
}

/// The first position from `i` on, before `end`, whose character is not cut off.
pub open spec fn front(edge: Edge, s: Seq<char>, i: int, end: int) -> int
    decreases end - i,
{
    if i < end && on_edge(edge, s[i]) {
        front(edge, s, i + 1, end)
    } else {
        i
    }
}

/// The position behind the last character, before `end` and from `start` on, that is not
/// cut off.
pub open spec fn back(edge: Edge, s: Seq<char>, start: int, end: int) -> int
    decreases end - start,
{
    if start < end && on_edge(edge, s[end - 1]) {
        back(edge, s, start, end - 1)
    } else {
        end
    }
}

/// A text without what is cut off at its ends.
pub open spec fn trimmed(edge: Edge, s: Seq<char>) -> Seq<char> {
    let start = front(edge, s, 0, s.len() as int);
    s.subrange(start, back(edge, s, start, s.len() as int))
}

/// The first position from `i` on, before `end`, whose character is not cut off.
pub fn front_of(edge: Edge, chars: &Vec<char>, from: usize, end: usize) -> (r: usize)
    requires
        from <= end <= chars.len(),
    ensures
        r == front(edge, chars@, from as int, end as int),
        from <= r <= end,
{
    let mut i = from;
    while i < end && is_on_edge(edge, chars[i])
        invariant
            from <= i <= end <= chars.len(),
            front(edge, chars@, i as int, end as int) == front(edge, chars@, from as int, end as int),
        decreases end - i,
    {
        i += 1;
    }
    i
}

/// The position behind the last character that is not cut off.
pub fn back_of(edge: Edge, chars: &Vec<char>, start: usize, to: usize) -> (r: usize)
    requires
        start <= to <= chars.len(),
    ensures
        r == back(edge, chars@, start as int, to as int),
        start <= r <= to,
{
    let mut end = to;
    while start < end && is_on_edge(edge, chars[end - 1])
        invariant
            start <= end <= to <= chars.len(),
            back(edge, chars@, start as int, end as int) == back(edge, chars@, start as int, to as int),
        decreases end - start,
    {
        end -= 1;
    }
    end
}

/// A text without what is cut off at its ends.
pub fn trim(edge: Edge, s: &str) -> (r: String)
    ensures
        r@ == trimmed(edge, s@),
{
    let chars = chars_of(s);
    let start = front_of(edge, &chars, 0, chars.len());
    let end = back_of(edge, &chars, start, chars.len());
    text_range(&chars, start, end)
}

/// The lower-case form of a character of ASCII; any other character stays.
pub open spec fn ascii_lower_char(c: char) -> char {
    if 'A' <= c <= 'Z' {
        (c as u32 + 32) as char
    } else {
        c
    }
}

/// A text with the letters of ASCII in lower case.
pub open spec fn ascii_lowercase(s: Seq<char>) -> Seq<char> {
    s.map_values(|c: char| ascii_lower_char(c))
}

/// A text with the letters of ASCII in lower case.
pub fn ascii_lower(s: &str) -> (r: String)
    ensures
        r@ == ascii_lowercase(s@),
{
    let chars = chars_of(s);
    let mut out: Vec<char> = Vec::new();
    let mut i: usize = 0;
    while i < chars.len()
        invariant
            chars@ == s@,
            i <= chars.len(),
            out.len() == i,
            forall|k: int| 0 <= k < i ==> #[trigger] out[k] == ascii_lower_char(s@[k]),
        decreases chars.len() - i,
    {
        let c = chars[i];
        if 'A' <= c && c <= 'Z' {
            let lower: u8 = c as u8 + 32;
            out.push(lower as char);
        } else {
            out.push(c);
        }
        i += 1;
    }
    assert(out@ =~= ascii_lowercase(s@));
    string_of(out.as_slice())
}

/// A digit as a character.
pub open spec fn digit_char(d: int) -> char {
    (48 + d) as char
}

/// A number in decimal digits.
pub open spec fn decimal(n: nat) -> Seq<char>
    decreases n,
{
    if n < 10 {
        seq![digit_char(n as int)]
    } else {
        decimal(n / 10).push(digit_char((n % 10) as int))
    }
}

/// A number in decimal digits.
pub fn decimal_of(n: usize) -> (r: String)
    ensures
        r@ == decimal(n as nat),
{
    let digits = digits_of(n);
    string_of(digits.as_slice())
}

fn digits_of(n: usize) -> (r: Vec<char>)
    ensures
        r@ == decimal(n as nat),
    decreases n,
{
    let last: u8 = 48 + (n % 10) as u8;
    if n < 10 {
        let mut out: Vec<char> = Vec::new();
        out.push(last as char);
        out
    } else {
        let mut out = digits_of(n / 10);
        out.push(last as char);
        out
    }
}

/// A text starts with another one.
pub open spec fn starts_with(s: Seq<char>, prefix: Seq<char>) -> bool {
    prefix.len() <= s.len() && s.subrange(0, prefix.len() as int) == prefix
}

/// A text ends with another one.
pub open spec fn ends_with(s: Seq<char>, suffix: Seq<char>) -> bool {
    suffix.len() <= s.len() && s.subrange(s.len() - suffix.len(), s.len() as int) == suffix
}

/// Whether the characters from `at` on begin with a text.
pub fn matches_at(chars: &Vec<char>, at: usize, word: &Vec<char>) -> (r: bool)
    requires
        at <= chars.len(),
    ensures
        r == starts_with(chars@.subrange(at as int, chars.len() as int), word@),
{
    let ghost rest = chars@.subrange(at as int, chars.len() as int);
    if word.len() > chars.len() - at {
        return false;
    }
    let mut i: usize = 0;
    while i < word.len()
        invariant
            at <= chars.len(),
            word.len() <= chars.len() - at,
            rest == chars@.subrange(at as int, chars.len() as int),
            i <= word.len(),
            forall|k: int| 0 <= k < i ==> #[trigger] word[k] == rest[k],
        decreases word.len() - i,
    {
        if chars[at + i] != word[i] {
            assert(rest.subrange(0, word.len() as int)[i as int] != word[i as int]);
            return false;
        }
        i += 1;
    }
    assert(rest.subrange(0, word.len() as int) =~= word@);
    true
}

/// Whether a text starts with another one.
pub fn has_prefix(s: &str, prefix: &str) -> (r: bool)
    ensures
        r == starts_with(s@, prefix@),
{
    let chars = chars_of(s);
    let word = chars_of(prefix);
    assert(chars@.subrange(0, chars.len() as int) =~= s@);
    matches_at(&chars, 0, &word)
}

/// Whether a text ends with another one.
pub fn has_suffix(s: &str, suffix: &str) -> (r: bool)
    ensures
        r == ends_with(s@, suffix@),
{
    let chars = chars_of(s);
    let word = chars_of(suffix);
    if word.len() > chars.len() {
        return false;
    }
    let at: usize = chars.len() - word.len();
    proof {
        let rest = chars@.subrange(at as int, chars.len() as int);
        assert(rest.subrange(0, word.len() as int) =~= rest);
    }
    matches_at(&chars, at, &word)
}

/// A character of which names are made.
pub open spec fn ident_char(c: char) -> bool {
    is_alnum(c) || c == '_'
}

/// The end of the run of name characters that starts at `i`.
pub open spec fn ident_end(src: Seq<char>, i: int) -> int
    decreases src.len() - i,
{
    if 0 <= i < src.len() && ident_char(src[i]) {
        ident_end(src, i + 1)
    } else {
        i
    }
}

/// The first line feed at or after `i`, or the end of the text.
pub open spec fn line_end(src: Seq<char>, i: int) -> int
    decreases src.len() - i,
{
    if 0 <= i < src.len() && src[i] != '\n' {
        line_end(src, i + 1)
    } else {
        i
    }
}

pub proof fn lemma_ident_end(src: Seq<char>, i: int)
    requires
        0 <= i <= src.len(),
    ensures
        i <= ident_end(src, i) <= src.len(),
    decreases src.len() - i,
{
    if i < src.len() && ident_char(src[i]) {
        lemma_ident_end(src, i + 1);
    }
}

pub proof fn lemma_line_end(src: Seq<char>, i: int)
    requires
        0 <= i <= src.len(),
    ensures
        i <= line_end(src, i) <= src.len(),
    decreases src.len() - i,
{
    if i < src.len() && src[i] != '\n' {
        lemma_line_end(src, i + 1);
    }
}

/// Whether names are made of a character.
pub fn is_ident_char(c: char) -> (r: bool)
    ensures
        r == ident_char(c),
{
    char_is_alnum(c) || c == '_'
}

/// The end of the run of name characters that starts at `from`.
pub fn scan_ident(chars: &Vec<char>, from: usize) -> (r: usize)
    requires
        from <= chars.len(),
    ensures
        r == ident_end(chars@, from as int),
        from <= r <= chars.len(),
{
    let mut i = from;
    while i < chars.len() && is_ident_char(chars[i])
        invariant
            from <= i <= chars.len(),
            ident_end(chars@, i as int) == ident_end(chars@, from as int),
        decreases chars.len() - i,
    {
        i += 1;
    }
    i
}

/// The first line feed at or after `from`, or the end of the text.
pub fn scan_line(chars: &Vec<char>, from: usize) -> (r: usize)
    requires
        from <= chars.len(),
    ensures
        r == line_end(chars@, from as int),
        from <= r <= chars.len(),
{
    let mut i = from;
    while i < chars.len() && chars[i] != '\n'
        invariant
            from <= i <= chars.len(),
            line_end(chars@, i as int) == line_end(chars@, from as int),
        decreases chars.len() - i,
    {
        i += 1;
    }
    i
}

/// Whether the characters before `end` end with a text.
pub fn ends_at(chars: &Vec<char>, end: usize, word: &Vec<char>) -> (r: bool)
    requires
        end <= chars.len(),
    ensures
        r == ends_with(chars@.take(end as int), word@),
        r ==> word.len() <= end,
{
    if word.len() > end {
        return false;
    }
    let start: usize = end - word.len();
    proof {
        let rest = chars@.subrange(start as int, chars.len() as int);
        assert(rest.subrange(0, word.len() as int) =~= chars@.take(end as int).subrange(
            start as int,
            end as int,
        ));
    }
    matches_at(chars, start, word)
}

/// The characters of a text, where there is one.
pub open spec fn opt_text(s: Option<String>) -> Option<Seq<char>> {
    match s {
        Some(s) => Some(s@),
        None => None,
    }
}

/// A copy of an optional text.
pub fn copy_opt(s: &Option<String>) -> (r: Option<String>)
    ensures
        opt_text(r) == opt_text(*s),
{
    match s {
        Some(s) => Some(s.as_str().to_string()),
        None => None,
    }
}

/// The characters of a borrowed text, where there is one.
pub open spec fn opt_str(s: Option<&str>) -> Option<Seq<char>> {
    match s {
        Some(s) => Some(s@),
        None => None,
    }
}

/// Two texts are equal but for the letter case of ASCII letters.
pub open spec fn ascii_same(a: Seq<char>, b: Seq<char>) -> bool {
    ascii_lowercase(a) == ascii_lowercase(b)
}

/// Whether two texts are equal but for the letter case of ASCII letters.
pub fn same_ascii(a: &str, b: &str) -> (r: bool)
    ensures
        r == ascii_same(a@, b@),
{
    same_text(ascii_lower(a).as_str(), ascii_lower(b).as_str())
}

/// The first position from `i` on that holds `sep`, or the end of the text.
pub open spec fn sep_at(s: Seq<char>, sep: char, i: int) -> int
    decreases s.len() - i,
{
    if 0 <= i < s.len() && s[i] != sep {
        sep_at(s, sep, i + 1)
    } else {
        i
    }
}

pub proof fn lemma_sep_at(s: Seq<char>, sep: char, i: int)
    requires
        0 <= i <= s.len(),
    ensures
        i <= sep_at(s, sep, i) <= s.len(),
        forall|k: int| i <= k < sep_at(s, sep, i) ==> #[trigger] s[k] != sep,
        sep_at(s, sep, i) < s.len() ==> s[sep_at(s, sep, i)] == sep,
    decreases s.len() - i,
{
    if i < s.len() && s[i] != sep {
        lemma_sep_at(s, sep, i + 1);
    }
}

/// The parts of a text from `i` on, between the characters `sep`.
pub open spec fn parts_from(s: Seq<char>, sep: char, i: int) -> Seq<Seq<char>>
    decreases s.len() - i,
{
    if i < 0 || i > s.len() {
        seq![]
    } else {
        let end = sep_at(s, sep, i);
        proof {
            lemma_sep_at(s, sep, i);
        }
        seq![s.subrange(i, end)] + if end < s.len() {
            parts_from(s, sep, end + 1)
        } else {
            seq![]
        }
    }
}

/// The parts of a text between the characters `sep`. There is always at least one.
pub open spec fn parts(s: Seq<char>, sep: char) -> Seq<Seq<char>> {
    parts_from(s, sep, 0)
}

/// The parts of a text between the characters `sep`.
pub fn split(s: &str, sep: char) -> (r: Vec<String>)
    ensures
        texts(r@) == parts(s@, sep),
        r.len() > 0,
{
    let chars = chars_of(s);
    let mut out: Vec<String> = Vec::new();
    let mut i: usize = 0;
    assert(texts(out@) + parts(s@, sep) =~= parts(s@, sep));
    loop
        invariant
            chars@ == s@,
            i <= chars.len(),
            texts(out@) + parts_from(s@, sep, i as int) == parts(s@, sep),
        decreases chars.len() - i,
    {
        let mut end = i;
        while end < chars.len() && chars[end] != sep
            invariant
                chars@ == s@,
                i <= end <= chars.len(),
                sep_at(s@, sep, i as int) == sep_at(s@, sep, end as int),
            decreases chars.len() - end,
        {
            end += 1;
        }
        let part = text_range(&chars, i, end);
        let ghost before = texts(out@);
        proof {
            lemma_texts_push(out@, part);
        }
        out.push(part);
        if end >= chars.len() {
            assert(before + (seq![part@] + Seq::<Seq<char>>::empty()) =~= before.push(part@));
            return out;
        }
        let ghost rest = parts_from(s@, sep, end + 1);
        assert(before + (seq![part@] + rest) =~= before.push(part@) + rest);
        i = end + 1;
    }
}

/// A text holds another one somewhere.
pub open spec fn holds(s: Seq<char>, word: Seq<char>) -> bool {
    exists|i: int| 0 <= i <= s.len() && #[trigger] starts_with(s.subrange(i, s.len() as int), word)
}

/// The first position from `from` on at which a text stands.
pub fn find_from(chars: &Vec<char>, from: usize, word: &Vec<char>) -> (r: Option<usize>)
    requires
        from <= chars.len(),
    ensures
        match r {
            Some(i) => from <= i <= chars.len() && starts_with(
                chars@.subrange(i as int, chars.len() as int),
                word@,
            ) && forall|k: int|
                from <= k < i ==> !(#[trigger] starts_with(
                    chars@.subrange(k, chars.len() as int),
                    word@,
                )),
            None => forall|k: int|
                from <= k <= chars.len() ==> !(#[trigger] starts_with(
                    chars@.subrange(k, chars.len() as int),
                    word@,
                )),
        },
{
    let mut i = from;
    loop
        invariant
            from <= i <= chars.len(),
            forall|k: int|
                from <= k < i ==> !(#[trigger] starts_with(
                    chars@.subrange(k, chars.len() as int),
                    word@,
                )),
        decreases chars.len() - i,
    {
        if matches_at(chars, i, word) {
            return Some(i);
        }
        if i == chars.len() {
            return None;
        }
        i += 1;
    }
}

/// Whether a text holds another one somewhere.
pub fn has_text(s: &str, word: &str) -> (r: bool)
    ensures
        r == holds(s@, word@),
{
    let chars = chars_of(s);
    let wanted = chars_of(word);
    match find_from(&chars, 0, &wanted) {
        Some(i) => {
            assert(starts_with(s@.subrange(i as int, s@.len() as int), word@));
            true
        },
        None => {
            assert(!holds(s@, word@)) by {
                assert forall|k: int| 0 <= k <= s@.len() implies !(#[trigger] starts_with(
                    s@.subrange(k, s@.len() as int),
                    word@,
                )) by {
                    assert(!starts_with(chars@.subrange(k, chars.len() as int), wanted@));
                }
            }
            false
        },
    }
}

/// The first position from `i` on that holds white space, or the end of the text.
pub open spec fn space_at(s: Seq<char>, i: int) -> int
    decreases s.len() - i,
{
    if 0 <= i < s.len() && !is_space(s[i]) {
        space_at(s, i + 1)
    } else {
        i
    }
}

pub proof fn lemma_space_at(s: Seq<char>, i: int)
    requires
        0 <= i <= s.len(),
    ensures
        i <= space_at(s, i) <= s.len(),
        i < s.len() && !is_space(s[i]) ==> i < space_at(s, i),
    decreases s.len() - i,
{
    if i < s.len() && !is_space(s[i]) {
        lemma_space_at(s, i + 1);
    }
}

pub proof fn lemma_front(edge: Edge, s: Seq<char>, i: int, end: int)
    requires
        0 <= i <= end <= s.len(),
    ensures
        i <= front(edge, s, i, end) <= end,
        front(edge, s, i, end) < end ==> !on_edge(edge, s[front(edge, s, i, end)]),
    decreases end - i,
{
    if i < end && on_edge(edge, s[i]) {
        lemma_front(edge, s, i + 1, end);
    }
}

/// The first position from `from` on that holds white space, or the end of the text.
pub fn scan_word(chars: &Vec<char>, from: usize) -> (r: usize)
    requires
        from <= chars.len(),
    ensures
        r == space_at(chars@, from as int),
        from <= r <= chars.len(),
{
    let mut i = from;
    while i < chars.len() && !char_is_space(chars[i])
        invariant
            from <= i <= chars.len(),
            space_at(chars@, i as int) == space_at(chars@, from as int),
        decreases chars.len() - i,
    {
        i += 1;
    }
    i
}

/// The words of a text from `i` on, white space between them.
pub open spec fn words_from(s: Seq<char>, i: int) -> Seq<Seq<char>>
    decreases s.len() - i,
{
    if i < 0 || i > s.len() {
        seq![]
    } else {
        let start = front(Edge::Space, s, i, s.len() as int);
        let end = space_at(s, start);
        proof {
            lemma_front(Edge::Space, s, i, s.len() as int);
            lemma_space_at(s, start);
        }
        if start >= s.len() {
            seq![]
        } else {
            seq![s.subrange(start, end)] + words_from(s, end)
        }
    }
}

/// The words of a text, white space between them.
pub open spec fn words(s: Seq<char>) -> Seq<Seq<char>> {
    words_from(s, 0)
}

/// The words of a text, white space between them.
pub fn split_words(s: &str) -> (r: Vec<String>)
    ensures
        texts(r@) == words(s@),
{
    let chars = chars_of(s);
    let mut out: Vec<String> = Vec::new();
    let mut i: usize = 0;
    assert(texts(out@) + words(s@) =~= words(s@));
    loop
        invariant
            chars@ == s@,
            i <= chars.len(),
            texts(out@) + words_from(s@, i as int) == words(s@),
        decreases chars.len() - i,
    {
        let start = front_of(Edge::Space, &chars, i, chars.len());
        if start >= chars.len() {
            assert(texts(out@) + Seq::<Seq<char>>::empty() =~= texts(out@));
            return out;
        }
        let end = scan_word(&chars, start);
        proof {
            lemma_front(Edge::Space, s@, i as int, s@.len() as int);
            lemma_space_at(s@, start as int);
        }
        let word = text_range(&chars, start, end);
        let ghost before = texts(out@);
        let ghost rest = words_from(s@, end as int);
        proof {
            lemma_texts_push(out@, word);
            assert(before + (seq![word@] + rest) =~= before.push(word@) + rest);
        }
        out.push(word);
        i = end;
    }
}

/// No part of a text holds the separator.
pub proof fn lemma_parts_have_no_sep(s: Seq<char>, sep: char, i: int, n: int, k: int)
    requires
        0 <= i <= s.len(),
        0 <= n < parts_from(s, sep, i).len(),
        0 <= k < parts_from(s, sep, i)[n].len(),
    ensures
        parts_from(s, sep, i)[n][k] != sep,
    decreases s.len() - i,
{
    let end = sep_at(s, sep, i);
    lemma_sep_at(s, sep, i);
    if n > 0 {
        lemma_parts_have_no_sep(s, sep, end + 1, n - 1, k);
    }
}

proof fn lemma_sep_at_shift(pre: Seq<char>, s: Seq<char>, sep: char, i: int)
    requires
        0 <= i <= s.len(),
    ensures
        sep_at(pre + s, sep, pre.len() + i) == pre.len() + sep_at(s, sep, i),
    decreases s.len() - i,
{
    if i < s.len() && s[i] != sep {
        lemma_sep_at_shift(pre, s, sep, i + 1);
    }
}

proof fn lemma_parts_shift(pre: Seq<char>, s: Seq<char>, sep: char, i: int)
    requires
        0 <= i <= s.len(),
    ensures
        parts_from(pre + s, sep, pre.len() + i) == parts_from(s, sep, i),
    decreases s.len() - i,
{
    let end = sep_at(s, sep, i);
    lemma_sep_at(s, sep, i);
    lemma_sep_at_shift(pre, s, sep, i);
    assert((pre + s).subrange(pre.len() + i, pre.len() + end) =~= s.subrange(i, end));
    if end < s.len() {
        lemma_parts_shift(pre, s, sep, end + 1);
    }
}

proof fn lemma_sep_at_first(s: Seq<char>, sep: char, i: int, end: int)
    requires
        0 <= i <= end <= s.len(),
        forall|k: int| i <= k < end ==> #[trigger] s[k] != sep,
        end < s.len() ==> s[end] == sep,
    ensures
        sep_at(s, sep, i) == end,
    decreases end - i,
{
    if i < end {
        lemma_sep_at_first(s, sep, i + 1, end);
    }
}

/// A part, a separator and a rest have that part and the parts of the rest.
pub proof fn lemma_parts_prepend(a: Seq<char>, sep: char, rest: Seq<char>)
    requires
        forall|k: int| 0 <= k < a.len() ==> #[trigger] a[k] != sep,
    ensures
        parts(a + seq![sep] + rest, sep) == seq![a] + parts(rest, sep),
{
    let s = a + seq![sep] + rest;
    assert forall|k: int| 0 <= k < a.len() implies #[trigger] s[k] != sep by {
        assert(s[k] == a[k]);
    }
    lemma_sep_at_first(s, sep, 0, a.len() as int);
    assert(s.subrange(0, a.len() as int) =~= a);
    lemma_parts_shift(a + seq![sep], rest, sep, 0);
}

/// A text without a separator is its only part.
pub proof fn lemma_parts_single(a: Seq<char>, sep: char)
    requires
        forall|k: int| 0 <= k < a.len() ==> #[trigger] a[k] != sep,
    ensures
        parts(a, sep) == seq![a],
{
    lemma_sep_at_first(a, sep, 0, a.len() as int);
    assert(a.subrange(0, a.len() as int) =~= a);
    assert(seq![a] + Seq::<Seq<char>>::empty() =~= seq![a]);
}

/// The lower-case form of a plain text is plain, as long as the text, and its own lower-case form.
pub proof fn law_lowering_twice_changes_nothing(s: Seq<char>)
    requires
        plain_text(s),
    ensures
        lowercase(s).len() == s.len(),
        forall|i: int| 0 <= i < s.len() ==> #[trigger] lowercase(s)[i] == lower_form(s[i]),
        plain_text(lowercase(s)),
        lowercase(lowercase(s)) == lowercase(s),
{
    reveal(lowercase);
    let t = lowercase(s);
    assert forall|i: int| 0 <= i < t.len() implies plain(#[trigger] t[i]) by {
        assert(plain(s[i]));
    }
    assert(lowercase(t) =~= t);
}

/// The upper-case form of a plain text is as long as the text, and made character by character.
pub proof fn lemma_uppercase(s: Seq<char>)
    requires
        plain_text(s),
    ensures
        uppercase(s) == s.map_values(|c: char| upper_form(c)),
        plain_text(uppercase(s)),
{
    reveal(uppercase);
    let t = uppercase(s);
    assert forall|i: int| 0 <= i < t.len() implies plain(#[trigger] t[i]) by {
        assert(plain(s[i]));
    }
}

/// The bytes of two texts one after the other add up.
pub proof fn lemma_byte_len_add(a: Seq<char>, b: Seq<char>)
    ensures
        byte_len(a + b) == byte_len(a) + byte_len(b),
    decreases b.len(),
{
    if b.len() == 0 {
        assert(a + b =~= a);
    } else {
        lemma_byte_len_add(a, b.drop_last());
        assert((a + b).drop_last() =~= a + b.drop_last());
        assert((a + b).last() == b.last());
    }
}

/// A character keeps its byte behind the bytes of what is put before the text.
pub proof fn lemma_byte_at_shift(pre: Seq<char>, s: Seq<char>, i: int)
    requires
        0 <= i <= s.len(),
    ensures
        byte_at(pre + s, pre.len() + i) == byte_len(pre) + byte_at(s, i),
{
    assert((pre + s).take(pre.len() + i) =~= pre + s.take(i));
    lemma_byte_len_add(pre, s.take(i));
}

pub proof fn lemma_front_shift(edge: Edge, pre: Seq<char>, s: Seq<char>, i: int, end: int)
    requires
        0 <= i,
        end <= s.len(),
    ensures
        front(edge, pre + s, pre.len() + i, pre.len() + end) == pre.len() + front(edge, s, i, end),
    decreases end - i,
{
    if i < end {
        assert((pre + s)[pre.len() + i] == s[i]);
        if on_edge(edge, s[i]) {
            lemma_front_shift(edge, pre, s, i + 1, end);
        }
    }
}

pub proof fn lemma_back_shift(edge: Edge, pre: Seq<char>, s: Seq<char>, start: int, end: int)
    requires
        0 <= start,
        end <= s.len(),
    ensures
        back(edge, pre + s, pre.len() + start, pre.len() + end) == pre.len() + back(edge, s, start, end),
    decreases end - start,
{
    if start < end {
        assert((pre + s)[pre.len() + end - 1] == s[end - 1]);
        if on_edge(edge, s[end - 1]) {
            lemma_back_shift(edge, pre, s, start, end - 1);
        }
    }
}

pub proof fn lemma_line_end_shift(pre: Seq<char>, s: Seq<char>, i: int)
    requires
        0 <= i <= s.len(),
    ensures
        line_end(pre + s, pre.len() + i) == pre.len() + line_end(s, i),
    decreases s.len() - i,
{
    if i < s.len() {
        assert((pre + s)[pre.len() + i] == s[i]);
        if s[i] != '\n' {
            lemma_line_end_shift(pre, s, i + 1);
        }
    }
}

pub proof fn lemma_ident_end_shift(pre: Seq<char>, s: Seq<char>, i: int)
    requires
        0 <= i <= s.len(),
    ensures
        ident_end(pre + s, pre.len() + i) == pre.len() + ident_end(s, i),
    decreases s.len() - i,
{
    if i < s.len() {
        assert((pre + s)[pre.len() + i] == s[i]);
        if ident_char(s[i]) {
            lemma_ident_end_shift(pre, s, i + 1);
        }
    }
}

/// A run of name characters ends where the text before a line feed does at the latest.
pub proof fn lemma_ident_end_in_line(line: Seq<char>, rest: Seq<char>, i: int)
    requires
        0 <= i <= line.len(),
    ensures
        ident_end(line.push('\n') + rest, i) == ident_end(line, i),
    decreases line.len() - i,
{
    let s = line.push('\n') + rest;
    reveal(is_alnum);
    if i < line.len() {
        assert(s[i] == line[i]);
        if ident_char(line[i]) {
            lemma_ident_end_in_line(line, rest, i + 1);
        }
    } else {
        assert(s[i] == '\n');
        assert(!ident_char('\n'));
    }
}

pub proof fn lemma_line_end_is(s: Seq<char>, i: int, end: int)
    requires
        0 <= i <= end <= s.len(),
        end < s.len() ==> s[end] == '\n',
        forall|k: int| i <= k < end ==> #[trigger] s[k] != '\n',
    ensures
        line_end(s, i) == end,
    decreases end - i,
{
    if i < end {
        lemma_line_end_is(s, i + 1, end);
    }
}

pub proof fn lemma_front_same(edge: Edge, s: Seq<char>, t: Seq<char>, i: int, end: int)
    requires
        0 <= i,
        end <= s.len(),
        end <= t.len(),
        forall|k: int| i <= k < end ==> s[k] == t[k],
    ensures
        front(edge, s, i, end) == front(edge, t, i, end),
    decreases end - i,
{
    if i < end {
        assert(s[i] == t[i]);
        lemma_front_same(edge, s, t, i + 1, end);
    }
}

proof fn lemma_front_is(edge: Edge, s: Seq<char>, i: int, end: int, at: int)
    requires
        0 <= i <= at <= end <= s.len(),
        forall|k: int| i <= k < at ==> on_edge(edge, #[trigger] s[k]),
        at < end ==> !on_edge(edge, s[at]),
    ensures
        front(edge, s, i, end) == at,
    decreases at - i,
{
    if i < at {
        assert(on_edge(edge, s[i]));
        lemma_front_is(edge, s, i + 1, end, at);
    }
}

proof fn lemma_back_is(edge: Edge, s: Seq<char>, start: int, end: int, at: int)
    requires
        0 <= start <= at <= end <= s.len(),
        forall|k: int| at <= k < end ==> on_edge(edge, #[trigger] s[k]),
        start < at ==> !on_edge(edge, s[at - 1]),
    ensures
        back(edge, s, start, end) == at,
    decreases end - at,
{
    if at < end {
        assert(on_edge(edge, s[end - 1]));
        lemma_back_is(edge, s, start, end - 1, at);
    }
}

/// Trimming takes off what stands on the edges, all of it and nothing else: what lies between is
/// left as it is, what is on an edge inside it too.
pub proof fn law_trimming_takes_off_the_edges(edge: Edge, a: Seq<char>, s: Seq<char>, b: Seq<char>)
    requires
        forall|k: int| 0 <= k < a.len() ==> on_edge(edge, #[trigger] a[k]),
        forall|k: int| 0 <= k < b.len() ==> on_edge(edge, #[trigger] b[k]),
        s.len() > 0 ==> !on_edge(edge, s[0]) && !on_edge(edge, s.last()),
    ensures
        trimmed(edge, a + s + b) == s,
{
    let t = a + s + b;
    let n = t.len() as int;
    if s.len() == 0 {
        assert forall|k: int| 0 <= k < n implies on_edge(edge, #[trigger] t[k]) by {
            if k < a.len() {
                assert(t[k] == a[k]);
            } else {
                assert(t[k] == b[k - a.len()]);
            }
        }
        lemma_front_is(edge, t, 0, n, n);
        assert(back(edge, t, n, n) == n);
        assert(t.subrange(n, n) =~= s);
    } else {
        let start = a.len() as int;
        let end = start + s.len();
        assert forall|k: int| 0 <= k < start implies on_edge(edge, #[trigger] t[k]) by {
            assert(t[k] == a[k]);
        }
        assert(t[start] == s[0]);
        lemma_front_is(edge, t, 0, n, start);
        assert forall|k: int| end <= k < n implies on_edge(edge, #[trigger] t[k]) by {
            assert(t[k] == b[k - end]);
        }
        assert(t[end - 1] == s.last());
        lemma_back_is(edge, t, start, n, end);
        assert(t.subrange(start, end) =~= s);
    }
}

/// The parts of a text, put together again with the separator between them, are the text.
pub proof fn law_parts_make_up_the_text(s: Seq<char>, sep: char)
    ensures
        joined(parts(s, sep), seq![sep]) == s,
        parts(s, sep).len() > 0,
{
    lemma_parts_joined(s, sep, 0);
    assert(s.subrange(0, s.len() as int) =~= s);
}

proof fn lemma_joined_front(first: Seq<char>, rest: Seq<Seq<char>>, sep: Seq<char>)
    requires
        rest.len() > 0,
    ensures
        joined(seq![first] + rest, sep) == first + sep + joined(rest, sep),
    decreases rest.len(),
{
    let all = seq![first] + rest;
    assert(all.drop_last() =~= seq![first] + rest.drop_last());
    assert(all.last() == rest.last());
    if rest.len() == 1 {
        assert(all.drop_last() =~= seq![first]);
        assert(joined(seq![first], sep) == first);
    } else {
        lemma_joined_front(first, rest.drop_last(), sep);
        assert((first + sep + joined(rest.drop_last(), sep)) + sep + rest.last() =~= first + sep + (joined(
            rest.drop_last(),
            sep,
        ) + sep + rest.last()));
    }
}

proof fn lemma_parts_joined(s: Seq<char>, sep: char, i: int)
    requires
        0 <= i <= s.len(),
    ensures
        joined(parts_from(s, sep, i), seq![sep]) == s.subrange(i, s.len() as int),
        parts_from(s, sep, i).len() > 0,
    decreases s.len() - i,
{
    let end = sep_at(s, sep, i);
    lemma_sep_at(s, sep, i);
    if end < s.len() {
        lemma_parts_joined(s, sep, end + 1);
        lemma_joined_front(s.subrange(i, end), parts_from(s, sep, end + 1), seq![sep]);
        assert(s.subrange(i, end) + seq![sep] + s.subrange(end + 1, s.len() as int) =~= s.subrange(
            i,
            s.len() as int,
        ));
    } else {
        assert(parts_from(s, sep, i) =~= seq![s.subrange(i, end)]);
    }
}

/// Each word of a text is a run of characters without white space, and the words of a word and a
/// rest that white space parts from it are that word and those of the rest. A text of white space
/// has none.
pub proof fn law_words_are_parted_by_white_space(word: Seq<char>, c: char, rest: Seq<char>)
    requires
        word.len() > 0,
        forall|k: int| 0 <= k < word.len() ==> !is_space(#[trigger] word[k]),
        is_space(c),
    ensures
        words(word.push(c) + rest) == seq![word] + words(rest),
        words(seq![c] + rest) == words(rest),
        words(word) == seq![word],
        words(Seq::<char>::empty()).len() == 0,
{
    let s = word.push(c) + rest;
    let n = word.len() as int;
    assert(s[0] == word[0]);
    assert(front(Edge::Space, s, 0, s.len() as int) == 0);
    assert forall|k: int| 0 <= k < n implies !is_space(#[trigger] s[k]) by {
        assert(s[k] == word[k]);
    }
    assert(s[n] == c);
    lemma_space_at_is(s, 0, n);
    assert(s.subrange(0, n) =~= word);
    lemma_words_shift(word.push(c), rest, 0);
    lemma_words_past_space(s, n);
    assert(front(Edge::Space, word, 0, n) == 0) by {
        assert(!is_space(word[0]));
    }
    lemma_space_at_is(word, 0, n);
    assert(word.subrange(0, n) =~= word);
    assert(words_from(word, n).len() == 0);
    assert(seq![word] + words_from(word, n) =~= seq![word]);
    lemma_words_shift(seq![c], rest, 0);
    assert((seq![c] + rest)[0] == c);
    lemma_words_past_space(seq![c] + rest, 0);
}

proof fn lemma_space_at_is(s: Seq<char>, i: int, end: int)
    requires
        0 <= i <= end <= s.len(),
        forall|k: int| i <= k < end ==> !is_space(#[trigger] s[k]),
        end < s.len() ==> is_space(s[end]),
    ensures
        space_at(s, i) == end,
    decreases end - i,
{
    if i < end {
        assert(!is_space(s[i]));
        lemma_space_at_is(s, i + 1, end);
    }
}

proof fn lemma_words_past_space(s: Seq<char>, i: int)
    requires
        0 <= i < s.len(),
        is_space(s[i]),
    ensures
        words_from(s, i) == words_from(s, i + 1),
{
    assert(front(Edge::Space, s, i, s.len() as int) == front(Edge::Space, s, i + 1, s.len() as int));
}

proof fn lemma_space_at_shift(pre: Seq<char>, s: Seq<char>, i: int)
    requires
        0 <= i <= s.len(),
    ensures
        space_at(pre + s, pre.len() + i) == pre.len() + space_at(s, i),
    decreases s.len() - i,
{
    if i < s.len() {
        assert((pre + s)[pre.len() + i] == s[i]);
        if !is_space(s[i]) {
            lemma_space_at_shift(pre, s, i + 1);
        }
    }
}

proof fn lemma_words_shift(pre: Seq<char>, s: Seq<char>, i: int)
    requires
        0 <= i <= s.len(),
    ensures
        words_from(pre + s, pre.len() + i) == words_from(s, i),
    decreases s.len() - i,
{
    let start = front(Edge::Space, s, i, s.len() as int);
    lemma_front(Edge::Space, s, i, s.len() as int);
    lemma_front_shift(Edge::Space, pre, s, i, s.len() as int);
    lemma_space_at(s, start);
    lemma_space_at_shift(pre, s, start);
    let end = space_at(s, start);
    assert((pre + s).subrange(pre.len() + start, pre.len() + end) =~= s.subrange(start, end));
    if start < s.len() {
        lemma_words_shift(pre, s, end);
    }
}

/// A text begins with each of its beginnings, ends with each of its ends and holds whatever lies
/// between, and with nothing else: a text that begins with another one goes on from it.
pub proof fn law_beginnings_and_ends(a: Seq<char>, s: Seq<char>, b: Seq<char>)
    ensures
        starts_with(a + s, a),
        ends_with(a + s, s),
        holds(a + s + b, s),
        starts_with(s, a) ==> s == a + s.skip(a.len() as int),
        ends_with(s, b) ==> s == s.take(s.len() - b.len()) + b,
{
    assert((a + s).subrange(0, a.len() as int) =~= a);
    assert((a + s).subrange((a + s).len() - s.len(), (a + s).len() as int) =~= s);
    let t = a + s + b;
    let n = a.len() as int;
    assert(t.subrange(n, t.len() as int).subrange(0, s.len() as int) =~= s);
    assert(starts_with(t.subrange(n, t.len() as int), s));
    if starts_with(s, a) {
        assert(s =~= a + s.skip(a.len() as int)) by {
            assert(s.subrange(0, a.len() as int) == a);
            assert forall|k: int| 0 <= k < s.len() implies s[k] == (a + s.skip(a.len() as int))[k] by {
                if k < a.len() {
                    assert(s.subrange(0, a.len() as int)[k] == a[k]);
                }
            }
        }
    }
    if ends_with(s, b) {
        let m = s.len() - b.len();
        assert(s =~= s.take(m) + b) by {
            assert forall|k: int| 0 <= k < s.len() implies s[k] == (s.take(m) + b)[k] by {
                if k >= m {
                    assert(s.subrange(m, s.len() as int)[k - m] == b[k - m]);
                }
            }
        }
    }
}

/// Lowering the letters of the Latin alphabet keeps everything else as it is and every character
/// in its place, and a second time changes nothing.
pub proof fn law_ascii_lowering(s: Seq<char>, i: int)
    requires
        0 <= i < s.len(),
    ensures
        ascii_lowercase(s).len() == s.len(),
        !('A' <= s[i] <= 'Z') ==> ascii_lowercase(s)[i] == s[i],
        'A' <= s[i] <= 'Z' ==> ascii_lowercase(s)[i] as u32 == s[i] as u32 + 32,
        ascii_lowercase(ascii_lowercase(s)) == ascii_lowercase(s),
{
    assert(ascii_lowercase(ascii_lowercase(s)) =~= ascii_lowercase(s));
}

} // verus!
