//! What holds of the lexemes of a query text.
use crate::sdbl::lexer;
use crate::sdbl::lexer::TokenView;
use crate::text;
use vstd::prelude::*;

verus! {

/// Two characters are the same one, or letters of one alphabet that a name and white space treat
/// alike.
pub open spec fn alike(a: char, b: char) -> bool {
    a == b || (((text::latin(a) && text::latin(b)) || (text::russian(a) && text::russian(b))) && text::ident_char(a)
        == text::ident_char(b) && text::is_space(a) == text::is_space(b))
}

/// Two texts differ in the case of their letters only: character for character they are alike, and
/// every piece of the one has the upper-case form of that piece of the other.
pub open spec fn same_but_case(s: Seq<char>, t: Seq<char>) -> bool {
    &&& s.len() == t.len()
    &&& forall|i: int| 0 <= i < s.len() ==> alike(#[trigger] s[i], t[i])
    &&& forall|i: int, j: int|
        0 <= i <= j <= s.len() ==> text::uppercase(#[trigger] s.subrange(i, j)) == text::uppercase(
            t.subrange(i, j),
        )
}

/// Two lists of lexemes read alike: lexeme by lexeme they have the same kind, the same offset and
/// the same upper-case form.
pub open spec fn read_alike(x: Seq<TokenView>, y: Seq<TokenView>) -> bool {
    &&& x.len() == y.len()
    &&& forall|k: int|
        0 <= k < x.len() ==> (#[trigger] x[k]).kind == y[k].kind && x[k].offset == y[k].offset
            && text::uppercase(x[k].text) == text::uppercase(y[k].text)
}

proof fn lemma_same_bytes(s: Seq<char>, t: Seq<char>, i: int)
    requires
        same_but_case(s, t),
        0 <= i <= s.len(),
    ensures
        text::byte_at(s, i) == text::byte_at(t, i),
    decreases i,
{
    if i > 0 {
        lemma_same_bytes(s, t, i - 1);
        text::lemma_byte_at_step(s, i - 1);
        text::lemma_byte_at_step(t, i - 1);
        assert(alike(s[i - 1], t[i - 1]));
    } else {
        assert(s.take(0) =~= t.take(0));
    }
}

proof fn lemma_same_ends(s: Seq<char>, t: Seq<char>, i: int)
    requires
        same_but_case(s, t),
        0 <= i <= s.len(),
    ensures
        text::ident_end(s, i) == text::ident_end(t, i),
        text::line_end(s, i) == text::line_end(t, i),
        lexer::number_end(s, i) == lexer::number_end(t, i),
    decreases s.len() - i,
{
    if i < s.len() {
        assert(alike(s[i], t[i]));
        lemma_same_ends(s, t, i + 1);
    }
}

proof fn lemma_same_string_end(s: Seq<char>, t: Seq<char>, i: int)
    requires
        same_but_case(s, t),
        0 <= i <= s.len(),
    ensures
        lexer::string_end(s, i) == lexer::string_end(t, i),
    decreases s.len() - i,
{
    if i < s.len() {
        assert(alike(s[i], t[i]));
        lemma_same_string_end(s, t, i + 1);
        if i + 1 < s.len() {
            assert(alike(s[i + 1], t[i + 1]));
            lemma_same_string_end(s, t, i + 2);
        }
    }
}

proof fn lemma_same_lexeme(s: Seq<char>, t: Seq<char>, i: int)
    requires
        same_but_case(s, t),
        0 <= i < s.len(),
    ensures
        lexer::lexeme_at(s, i) == lexer::lexeme_at(t, i),
        text::uppercase(s.subrange(i, lexer::lexeme_at(s, i).1)) == text::uppercase(
            t.subrange(i, lexer::lexeme_at(s, i).1),
        ),
{
    assert(alike(s[i], t[i]));
    lemma_same_ends(s, t, i);
    lemma_same_ends(s, t, i + 1);
    lemma_same_string_end(s, t, i + 1);
    lexer::lemma_lexeme_at(s, i);
    text::lemma_ident_end(s, i);
    let end = text::ident_end(s, i);
    assert(text::uppercase(s.subrange(i, end)) == text::uppercase(t.subrange(i, end)));
}

proof fn lemma_same_raw(s: Seq<char>, t: Seq<char>, i: int)
    requires
        same_but_case(s, t),
        0 <= i <= s.len(),
    ensures
        read_alike(lexer::raw_tokens(s, i), lexer::raw_tokens(t, i)),
    decreases s.len() - i,
{
    if i < s.len() {
        assert(alike(s[i], t[i]));
        if text::is_space(s[i]) {
            lemma_same_raw(s, t, i + 1);
        } else {
            if i + 1 < s.len() {
                assert(alike(s[i + 1], t[i + 1]));
            }
            assert(lexer::comment_at(s, i) == lexer::comment_at(t, i));
            if lexer::comment_at(s, i) {
                text::lemma_line_end(s, i + 1);
                lemma_same_ends(s, t, i);
                lemma_same_raw(s, t, text::line_end(s, i));
            } else {
                lemma_same_lexeme(s, t, i);
                lemma_same_bytes(s, t, i);
                lexer::lemma_lexeme_at(s, i);
                let (kind, end) = lexer::lexeme_at(s, i);
                lemma_same_raw(s, t, end);
                let x = lexer::raw_tokens(s, i);
                let y = lexer::raw_tokens(t, i);
                assert forall|k: int| 0 <= k < x.len() implies (#[trigger] x[k]).kind == y[k].kind
                    && x[k].offset == y[k].offset && text::uppercase(x[k].text) == text::uppercase(
                    y[k].text,
                ) by {
                    if k > 0 {
                        assert(x[k] == lexer::raw_tokens(s, end)[k - 1]);
                        assert(y[k] == lexer::raw_tokens(t, end)[k - 1]);
                    }
                }
            }
        }
    }
}

/// The same kinds and the same offsets, lexeme by lexeme.
pub open spec fn same_reading(x: Seq<TokenView>, y: Seq<TokenView>) -> bool {
    &&& x.len() == y.len()
    &&& forall|k: int|
        0 <= k < x.len() ==> (#[trigger] x[k]).kind == y[k].kind && x[k].offset == y[k].offset
}

proof fn lemma_same_merged(x: Seq<TokenView>, y: Seq<TokenView>, i: int)
    requires
        read_alike(x, y),
        0 <= i <= x.len(),
    ensures
        same_reading(lexer::merged(x, i), lexer::merged(y, i)),
    decreases x.len() - i,
{
    if i < x.len() {
        assert(x[i].kind == y[i].kind);
        if i + 1 < x.len() {
            assert(x[i + 1].kind == y[i + 1].kind);
        }
        let next = if joins(x, i) {
            i + 2
        } else {
            i + 1
        };
        lemma_same_merged(x, y, next);
        let u = lexer::merged(x, i);
        let v = lexer::merged(y, i);
        assert forall|k: int| 0 <= k < u.len() implies (#[trigger] u[k]).kind == v[k].kind
            && u[k].offset == v[k].offset by {
            if k > 0 {
                assert(u[k] == lexer::merged(x, next)[k - 1]);
                assert(v[k] == lexer::merged(y, next)[k - 1]);
            }
        }
    }
}

/// Letter case never changes how a query is read: texts that differ in it only have the same
/// lexemes, of the same kinds and at the same bytes.
pub proof fn law_letter_case_does_not_matter(s: Seq<char>, t: Seq<char>)
    requires
        same_but_case(s, t),
    ensures
        same_reading(lexer::lexemes(s), lexer::lexemes(t)),
{
    lemma_same_raw(s, t, 0);
    lemma_same_merged(lexer::raw_tokens(s, 0), lexer::raw_tokens(t, 0), 0);
}

proof fn lemma_forms_alike(c: char)
    requires
        text::plain(c),
    ensures
        alike(c, text::lower_form(c)),
        alike(c, text::upper_form(c)),
        text::upper_form(text::lower_form(c)) == text::upper_form(c),
        text::upper_form(text::upper_form(c)) == text::upper_form(c),
{
    reveal(text::is_alnum);
    reveal(text::is_space);
}

proof fn lemma_plain_piece(s: Seq<char>, i: int, j: int)
    requires
        text::plain_text(s),
        0 <= i <= j <= s.len(),
    ensures
        text::plain_text(s.subrange(i, j)),
{
    assert forall|k: int| 0 <= k < j - i implies text::plain(#[trigger] s.subrange(i, j)[k]) by {
        assert(text::plain(s[i + k]));
    }
}

proof fn lemma_lower_same(s: Seq<char>)
    requires
        text::plain_text(s),
    ensures
        same_but_case(s, text::lowercase(s)),
{
    let t = text::lowercase(s);
    text::law_lowering_twice_changes_nothing(s);
    assert forall|i: int| 0 <= i < s.len() implies alike(#[trigger] s[i], t[i]) by {
        assert(text::plain(s[i]));
        lemma_forms_alike(s[i]);
    }
    assert forall|i: int, j: int| 0 <= i <= j <= s.len() implies text::uppercase(
        #[trigger] s.subrange(i, j),
    ) == text::uppercase(t.subrange(i, j)) by {
        lemma_same_upper(s, t, i, j);
    }
}

proof fn lemma_upper_same(s: Seq<char>)
    requires
        text::plain_text(s),
    ensures
        same_but_case(s, text::uppercase(s)),
{
    let t = text::uppercase(s);
    text::lemma_uppercase(s);
    assert forall|i: int| 0 <= i < s.len() implies alike(#[trigger] s[i], t[i]) by {
        assert(text::plain(s[i]));
        lemma_forms_alike(s[i]);
    }
    assert forall|i: int, j: int| 0 <= i <= j <= s.len() implies text::uppercase(
        #[trigger] s.subrange(i, j),
    ) == text::uppercase(t.subrange(i, j)) by {
        lemma_same_upper(s, t, i, j);
    }
}

proof fn lemma_same_upper(s: Seq<char>, t: Seq<char>, i: int, j: int)
    requires
        text::plain_text(s),
        text::plain_text(t),
        s.len() == t.len(),
        forall|k: int|
            0 <= k < s.len() ==> #[trigger] t[k] == text::lower_form(s[k]) || t[k] == text::upper_form(
                s[k],
            ),
        0 <= i <= j <= s.len(),
    ensures
        text::uppercase(s.subrange(i, j)) == text::uppercase(t.subrange(i, j)),
{
    let x = s.subrange(i, j);
    let y = t.subrange(i, j);
    lemma_plain_piece(s, i, j);
    lemma_plain_piece(t, i, j);
    text::lemma_uppercase(x);
    text::lemma_uppercase(y);
    assert forall|k: int| 0 <= k < x.len() implies #[trigger] text::uppercase(x)[k]
        == text::uppercase(y)[k] by {
        assert(text::plain(s[i + k]));
        assert(y[k] == t[i + k]);
        lemma_forms_alike(s[i + k]);
    }
    assert(text::uppercase(x) =~= text::uppercase(y));
}

/// Letter case, Cyrillic included, never changes how a query is read: a text whose letters are of
/// the Latin and the Russian alphabet, its lower-case form and its upper-case form have the same
/// lexemes, of the same kinds and at the same bytes.
pub proof fn law_case_forms_read_alike(s: Seq<char>)
    requires
        text::plain_text(s),
    ensures
        same_reading(lexer::lexemes(s), lexer::lexemes(text::lowercase(s))),
        same_reading(lexer::lexemes(s), lexer::lexemes(text::uppercase(s))),
{
    lemma_lower_same(s);
    lemma_upper_same(s);
    law_letter_case_does_not_matter(s, text::lowercase(s));
    law_letter_case_does_not_matter(s, text::uppercase(s));
}

/// The keyword that the lexemes at `i` and behind it make up.
pub open spec fn pair_at(toks: Seq<TokenView>, i: int) -> Option<lexer::Kw> {
    lexer::compound_for(text::uppercase(toks[i].text), text::uppercase(toks[i + 1].text))
}

/// The lexeme at `i` and the one behind it make up one keyword.
pub open spec fn joins(toks: Seq<TokenView>, i: int) -> bool {
    0 <= i && i + 1 < toks.len() && pair_at(toks, i) is Some
}

/// An upper-case word is one of the two words of a keyword.
pub open spec fn half_keyword(up: Seq<char>) -> bool {
    exists|other: Seq<char>| #[trigger]
        lexer::compound_for(up, other) is Some || lexer::compound_for(other, up) is Some
}

/// Words joined to a keyword are no half of another one.
pub open spec fn joined_are_whole(toks: Seq<TokenView>) -> bool {
    forall|i: int| #[trigger]
        joins(toks, i) ==> !half_keyword(
            text::uppercase(toks[i].text + " "@ + toks[i + 1].text),
        )
}

/// The lexeme at `i` with the words of a keyword joined, and the position behind it.
pub open spec fn joined_at(toks: Seq<TokenView>, i: int) -> (TokenView, int) {
    if joins(toks, i) {
        (
            TokenView {
                kind: lexer::Kind::Keyword(pair_at(toks, i)->0),
                text: toks[i].text + " "@ + toks[i + 1].text,
                offset: toks[i].offset,
            },
            i + 2,
        )
    } else {
        (toks[i], i + 1)
    }
}

pub proof fn lemma_merged_step(toks: Seq<TokenView>, i: int)
    requires
        0 <= i < toks.len(),
    ensures
        lexer::merged(toks, i) == seq![joined_at(toks, i).0] + lexer::merged(
            toks,
            joined_at(toks, i).1,
        ),
{
}

proof fn lemma_nothing_left_to_join(toks: Seq<TokenView>, i: int)
    requires
        0 <= i <= toks.len(),
        joined_are_whole(toks),
    ensures
        forall|k: int| !#[trigger] joins(lexer::merged(toks, i), k),
    decreases toks.len() - i,
{
    if i < toks.len() {
        lemma_merged_step(toks, i);
        let (t, next) = joined_at(toks, i);
        lemma_nothing_left_to_join(toks, next);
        let m = lexer::merged(toks, i);
        let rest = lexer::merged(toks, next);
        assert forall|k: int| !#[trigger] joins(m, k) by {
            if 0 < k && k + 1 < m.len() {
                assert(!joins(rest, k - 1));
                assert(m[k] == rest[k - 1] && m[k + 1] == rest[k]);
            } else if k == 0 && 1 < m.len() {
                lemma_merged_step(toks, next);
                assert(m[0] == t && m[1] == joined_at(toks, next).0);
                if joins(toks, i) {
                    assert(!half_keyword(text::uppercase(t.text)));
                    assert(lexer::compound_for(text::uppercase(t.text), text::uppercase(m[1].text)) is None);
                } else if joins(toks, next) {
                    assert(!half_keyword(text::uppercase(m[1].text)));
                    lemma_half(text::uppercase(t.text), text::uppercase(m[1].text));
                }
            }
        }
    }
}

proof fn lemma_half(a: Seq<char>, b: Seq<char>)
    ensures
        lexer::compound_for(a, b) is Some ==> half_keyword(a) && half_keyword(b),
{
    if lexer::compound_for(a, b) is Some {
        assert(lexer::compound_for(b, a) is Some || lexer::compound_for(a, b) is Some);
    }
}

proof fn lemma_merged_keeps(toks: Seq<TokenView>, i: int)
    requires
        0 <= i <= toks.len(),
        forall|k: int| !#[trigger] joins(toks, k),
    ensures
        lexer::merged(toks, i) == toks.subrange(i, toks.len() as int),
    decreases toks.len() - i,
{
    if i < toks.len() {
        assert(!joins(toks, i));
        lemma_merged_step(toks, i);
        lemma_merged_keeps(toks, i + 1);
    }
    assert(lexer::merged(toks, i) =~= toks.subrange(i, toks.len() as int));
}

/// Joining the words of keywords a second time changes nothing, where joined words are no half of
/// another keyword. No two lexemes in a row are then left that make up one.
pub proof fn law_joining_twice_changes_nothing(toks: Seq<TokenView>)
    requires
        joined_are_whole(toks),
    ensures
        lexer::merged(lexer::merged(toks, 0), 0) == lexer::merged(toks, 0),
        forall|k: int| !#[trigger] joins(lexer::merged(toks, 0), k),
{
    let m = lexer::merged(toks, 0);
    lemma_nothing_left_to_join(toks, 0);
    lemma_merged_keeps(m, 0);
    assert(m.subrange(0, m.len() as int) =~= m);
}

proof fn lemma_half_keyword(up: Seq<char>, i: int)
    requires
        half_keyword(up),
        0 <= i < up.len(),
    ensures
        up[i] != ' ',
        up[i] != ';',
{
    reveal_strlit("СГРУППИРОВАТЬ");
    reveal_strlit("ПО");
    reveal_strlit("GROUP");
    reveal_strlit("BY");
    reveal_strlit("УПОРЯДОЧИТЬ");
    reveal_strlit("ORDER");
    reveal_strlit("ИНДЕКСИРОВАТЬ");
    reveal_strlit("INDEX");
    reveal_strlit("ДЛЯ");
    reveal_strlit("ИЗМЕНЕНИЯ");
    reveal_strlit("FOR");
    reveal_strlit("UPDATE");
}

proof fn lemma_joined_plain(a: Seq<char>, b: Seq<char>)
    requires
        text::plain_text(a),
        text::plain_text(b),
    ensures
        !half_keyword(text::uppercase(a + " "@ + b)),
{
    reveal_strlit(" ");
    let s = a + " "@ + b;
    let n = a.len() as int;
    assert forall|i: int| 0 <= i < s.len() implies text::plain(#[trigger] s[i]) by {
        if i < n {
            assert(text::plain(a[i]));
        } else if i > n {
            assert(text::plain(b[i - n - 1]));
        }
    }
    text::lemma_uppercase(s);
    assert(s[n] == ' ');
    assert(text::uppercase(s)[n] == ' ');
    if half_keyword(text::uppercase(s)) {
        lemma_half_keyword(text::uppercase(s), n);
    }
}

/// Joining the words of keywords a second time changes nothing, where the keywords are written
/// with letters of the Latin and the Russian alphabet.
pub proof fn law_joining_plain_words_twice_changes_nothing(toks: Seq<TokenView>)
    requires
        forall|i: int| #[trigger]
            joins(toks, i) ==> text::plain_text(toks[i].text) && text::plain_text(toks[i + 1].text),
    ensures
        lexer::merged(lexer::merged(toks, 0), 0) == lexer::merged(toks, 0),
        forall|k: int| !#[trigger] joins(lexer::merged(toks, 0), k),
{
    assert forall|i: int| #[trigger] joins(toks, i) implies !half_keyword(
        text::uppercase(toks[i].text + " "@ + toks[i + 1].text),
    ) by {
        lemma_joined_plain(toks[i].text, toks[i + 1].text);
    }
    law_joining_twice_changes_nothing(toks);
}

/// A string literal whose contents go on at `i` is closed before the text ends.
pub open spec fn closed_from(src: Seq<char>, i: int) -> bool
    decreases src.len() - i,
{
    if i < 0 || i >= src.len() {
        false
    } else if src[i] != '"' {
        closed_from(src, i + 1)
    } else if i + 1 < src.len() && src[i + 1] == '"' {
        closed_from(src, i + 2)
    } else {
        true
    }
}

/// The string literals of a text are closed, from character `i` on: it ends outside them.
pub open spec fn strings_closed(src: Seq<char>, i: int) -> bool
    decreases src.len() - i,
{
    if i < 0 || i >= src.len() {
        true
    } else if text::is_space(src[i]) {
        strings_closed(src, i + 1)
    } else if lexer::comment_at(src, i) {
        proof {
            text::lemma_line_end(src, i + 1);
        }
        strings_closed(src, text::line_end(src, i))
    } else {
        proof {
            lexer::lemma_lexeme_at(src, i);
        }
        (src[i] == '"' ==> closed_from(src, i + 1)) && strings_closed(src, lexer::lexeme_at(src, i).1)
    }
}

/// A line feed is white space, a semicolon is a sign of its own, and neither is a part of a name
/// or of a keyword.
proof fn lemma_separators()
    ensures
        text::is_space('\n') && !text::ident_char('\n'),
        !text::is_space(';') && !text::ident_char(';'),
        !half_keyword(text::uppercase(";"@)),
{
    reveal(text::is_space);
    reveal(text::is_alnum);
    reveal_strlit(";");
    assert(text::plain_text(";"@));
    text::lemma_uppercase(";"@);
    assert(text::uppercase(";"@)[0] == ';');
    if half_keyword(text::uppercase(";"@)) {
        lemma_half_keyword(text::uppercase(";"@), 0);
    }
}

/// Two texts with a semicolon between them, on a line of its own.
pub open spec fn with_semicolon(a: Seq<char>, b: Seq<char>) -> Seq<char> {
    a + "\n;\n"@ + b
}

/// The text `c` goes on behind the text `a` with a line feed.
spec fn goes_on(a: Seq<char>, c: Seq<char>) -> bool {
    &&& a.len() < c.len()
    &&& forall|k: int| 0 <= k < a.len() ==> #[trigger] c[k] == a[k]
    &&& c[a.len() as int] == '\n'
}

proof fn lemma_front_ends(a: Seq<char>, c: Seq<char>, i: int)
    requires
        goes_on(a, c),
        !text::ident_char('\n'),
        0 <= i <= a.len(),
    ensures
        text::ident_end(c, i) == text::ident_end(a, i),
        text::line_end(c, i) == text::line_end(a, i),
        lexer::number_end(c, i) == lexer::number_end(a, i),
    decreases a.len() - i,
{
    if i < a.len() {
        assert(c[i] == a[i]);
        lemma_front_ends(a, c, i + 1);
    }
}

proof fn lemma_front_string(a: Seq<char>, c: Seq<char>, i: int)
    requires
        goes_on(a, c),
        0 <= i <= a.len(),
        closed_from(a, i),
    ensures
        lexer::string_end(c, i) == lexer::string_end(a, i),
    decreases a.len() - i,
{
    assert(c[i] == a[i]);
    if a[i] != '"' {
        lemma_front_string(a, c, i + 1);
    } else if i + 1 < a.len() {
        assert(c[i + 1] == a[i + 1]);
        if a[i + 1] == '"' {
            lemma_front_string(a, c, i + 2);
        }
    }
}

proof fn lemma_front(a: Seq<char>, c: Seq<char>, i: int)
    requires
        goes_on(a, c),
        !text::ident_char('\n'),
        0 <= i <= a.len(),
        strings_closed(a, i),
    ensures
        lexer::raw_tokens(c, i) == lexer::raw_tokens(a, i) + lexer::raw_tokens(c, a.len() as int),
    decreases a.len() - i,
{
    let n = a.len() as int;
    if i == n {
        assert(lexer::raw_tokens(c, i) =~= lexer::raw_tokens(a, i) + lexer::raw_tokens(c, n));
    } else {
        assert(c[i] == a[i]);
        if text::is_space(a[i]) {
            lemma_front(a, c, i + 1);
        } else {
            if i + 1 < n {
                assert(c[i + 1] == a[i + 1]);
            }
            assert(lexer::comment_at(c, i) == lexer::comment_at(a, i));
            lemma_front_ends(a, c, i);
            if lexer::comment_at(a, i) {
                text::lemma_line_end(a, i + 1);
                lemma_front(a, c, text::line_end(a, i));
            } else {
                lemma_front_ends(a, c, i + 1);
                if a[i] == '"' {
                    lemma_front_string(a, c, i + 1);
                }
                text::lemma_ident_end(a, i);
                let word = text::ident_end(a, i);
                assert(c.subrange(i, word) =~= a.subrange(i, word));
                assert(lexer::lexeme_at(c, i) == lexer::lexeme_at(a, i));
                lexer::lemma_lexeme_at(a, i);
                let end = lexer::lexeme_at(a, i).1;
                assert(c.subrange(i, end) =~= a.subrange(i, end));
                assert(c.take(i) =~= a.take(i));
                lemma_front(a, c, end);
                assert(lexer::raw_tokens(c, i) =~= lexer::raw_tokens(a, i) + lexer::raw_tokens(c, n));
            }
        }
    }
}

/// The words of two lists of lexemes are the same, the first list starting at `n`.
pub open spec fn same_words(x: Seq<TokenView>, n: int, y: Seq<TokenView>) -> bool {
    &&& 0 <= n
    &&& x.len() == n + y.len()
    &&& forall|k: int|
        0 <= k < y.len() ==> x[n + k].kind == (#[trigger] y[k]).kind && x[n + k].text == y[k].text
}

/// The text `b` is the end of the text `c`, from `m` on.
spec fn ends_in(b: Seq<char>, c: Seq<char>, m: int) -> bool {
    &&& 0 <= m
    &&& c.len() == m + b.len()
    &&& forall|k: int| 0 <= k < b.len() ==> c[m + k] == #[trigger] b[k]
}

proof fn lemma_back_ends(b: Seq<char>, c: Seq<char>, m: int, i: int)
    requires
        ends_in(b, c, m),
        0 <= i <= b.len(),
    ensures
        text::ident_end(c, m + i) == m + text::ident_end(b, i),
        text::line_end(c, m + i) == m + text::line_end(b, i),
        lexer::number_end(c, m + i) == m + lexer::number_end(b, i),
        lexer::string_end(c, m + i) == m + lexer::string_end(b, i),
    decreases b.len() - i,
{
    if i < b.len() {
        assert(c[m + i] == b[i]);
        lemma_back_ends(b, c, m, i + 1);
        if i + 1 < b.len() {
            assert(c[m + (i + 1)] == b[i + 1]);
            lemma_back_ends(b, c, m, i + 2);
        }
    }
}

proof fn lemma_back(b: Seq<char>, c: Seq<char>, m: int, i: int)
    requires
        ends_in(b, c, m),
        0 <= i <= b.len(),
    ensures
        same_words(lexer::raw_tokens(c, m + i), 0, lexer::raw_tokens(b, i)),
    decreases b.len() - i,
{
    if i < b.len() {
        assert(c[m + i] == b[i]);
        if text::is_space(b[i]) {
            lemma_back(b, c, m, i + 1);
        } else {
            if i + 1 < b.len() {
                assert(c[m + (i + 1)] == b[i + 1]);
            }
            assert(lexer::comment_at(c, m + i) == lexer::comment_at(b, i));
            lemma_back_ends(b, c, m, i);
            if lexer::comment_at(b, i) {
                text::lemma_line_end(b, i + 1);
                lemma_back(b, c, m, text::line_end(b, i));
            } else {
                lemma_back_ends(b, c, m, i + 1);
                text::lemma_ident_end(b, i);
                let word = text::ident_end(b, i);
                assert(c.subrange(m + i, m + word) =~= b.subrange(i, word));
                let (kind, end) = lexer::lexeme_at(b, i);
                assert(lexer::lexeme_at(c, m + i) == (kind, m + end));
                lexer::lemma_lexeme_at(b, i);
                assert(c.subrange(m + i, m + end) =~= b.subrange(i, end));
                lemma_back(b, c, m, end);
                let x = lexer::raw_tokens(c, m + i);
                let y = lexer::raw_tokens(b, i);
                assert forall|k: int| 0 <= k < y.len() implies x[0 + k].kind == (#[trigger] y[k]).kind
                    && x[0 + k].text == y[k].text by {
                    if k > 0 {
                        assert(x[k] == lexer::raw_tokens(c, m + end)[k - 1]);
                        assert(y[k] == lexer::raw_tokens(b, end)[k - 1]);
                    }
                }
            }
        }
    }
}

proof fn lemma_merged_front(x: Seq<TokenView>, a: Seq<TokenView>, i: int)
    requires
        0 <= i <= a.len() < x.len(),
        forall|k: int| 0 <= k < a.len() ==> #[trigger] x[k] == a[k],
        !half_keyword(text::uppercase(x[a.len() as int].text)),
    ensures
        lexer::merged(x, i) == lexer::merged(a, i) + lexer::merged(x, a.len() as int),
    decreases a.len() - i,
{
    let n = a.len() as int;
    if i == n {
        assert(lexer::merged(x, i) =~= lexer::merged(a, i) + lexer::merged(x, n));
    } else {
        assert(x[i] == a[i]);
        if i + 1 < n {
            assert(x[i + 1] == a[i + 1]);
        } else {
            lemma_half(text::uppercase(x[i].text), text::uppercase(x[n].text));
        }
        assert(joins(x, i) == joins(a, i));
        lemma_merged_step(x, i);
        lemma_merged_step(a, i);
        lemma_merged_front(x, a, joined_at(a, i).1);
        assert(lexer::merged(x, i) =~= lexer::merged(a, i) + lexer::merged(x, n));
    }
}

proof fn lemma_merged_back(x: Seq<TokenView>, n: int, y: Seq<TokenView>, i: int)
    requires
        same_words(x, n, y),
        0 <= i <= y.len(),
    ensures
        same_words(lexer::merged(x, n + i), 0, lexer::merged(y, i)),
    decreases y.len() - i,
{
    if i < y.len() {
        assert(x[n + i].text == y[i].text);
        if i + 1 < y.len() {
            assert(x[n + (i + 1)].text == y[i + 1].text);
        }
        assert(joins(x, n + i) == joins(y, i));
        lemma_merged_step(x, n + i);
        lemma_merged_step(y, i);
        let next = joined_at(y, i).1;
        lemma_merged_back(x, n, y, next);
        let u = lexer::merged(x, n + i);
        let v = lexer::merged(y, i);
        assert forall|k: int| 0 <= k < v.len() implies u[0 + k].kind == (#[trigger] v[k]).kind
            && u[0 + k].text == v[k].text by {
            if k > 0 {
                assert(u[k] == lexer::merged(x, n + next)[k - 1]);
                assert(v[k] == lexer::merged(y, next)[k - 1]);
            }
        }
    }
}

/// The lexemes of two texts with a semicolon between them are those of the first text, where it
/// ends outside a string literal, the semicolon, and the words of the second text.
pub proof fn law_lexemes_of_joined_texts(a: Seq<char>, b: Seq<char>)
    requires
        strings_closed(a, 0),
    ensures
        ({
            let x = lexer::lexemes(with_semicolon(a, b));
            let n = lexer::lexemes(a).len() as int;
            &&& same_words(x, n + 1, lexer::lexemes(b))
            &&& x.take(n) == lexer::lexemes(a)
            &&& x[n].is_sign(';')
        }),
{
    lemma_separators();
    reveal_strlit("\n;\n");
    reveal_strlit(";");
    let c = with_semicolon(a, b);
    let n = a.len() as int;
    assert(c[n] == '\n' && c[n + 1] == ';' && c[n + 2] == '\n');
    assert(goes_on(a, c));
    lemma_front(a, c, 0);
    assert(ends_in(b, c, n + 3));
    lemma_back(b, c, n + 3, 0);
    let first = lexer::raw_tokens(a, 0);
    let second = lexer::raw_tokens(b, 0);
    let rest = lexer::raw_tokens(c, n + 3);
    let sign = TokenView {
        kind: lexer::Kind::Punct,
        text: c.subrange(n + 1, n + 2),
        offset: text::byte_at(c, n + 1),
    };
    assert(lexer::lexeme_at(c, n + 1) == (lexer::Kind::Punct, n + 2));
    assert(lexer::raw_tokens(c, n + 2) == rest);
    assert(lexer::raw_tokens(c, n + 1) == seq![sign] + rest);
    assert(lexer::raw_tokens(c, n) == lexer::raw_tokens(c, n + 1));
    assert(sign.text =~= ";"@);
    let x = lexer::raw_tokens(c, 0);
    let k = first.len() as int;
    assert(x == first + (seq![sign] + rest));
    assert(x[k] == sign);
    lemma_merged_front(x, first, 0);
    lemma_merged_step(x, k);
    if k + 1 < x.len() {
        lemma_half(text::uppercase(x[k].text), text::uppercase(x[k + 1].text));
    }
    assert(same_words(x, k + 1, second)) by {
        assert forall|j: int| 0 <= j < second.len() implies x[k + 1 + j].kind == (
        #[trigger] second[j]).kind && x[k + 1 + j].text == second[j].text by {
            assert(x[k + 1 + j] == rest[j]);
        }
    }
    lemma_merged_back(x, k + 1, second, 0);
    let out = lexer::lexemes(c);
    let front = lexer::lexemes(a);
    let back = lexer::merged(x, k + 1);
    assert(out =~= front + (seq![sign] + back));
    assert(out.take(front.len() as int) =~= front);
    assert forall|j: int| 0 <= j < lexer::lexemes(b).len() implies out[front.len() + 1 + j].kind == (
    #[trigger] lexer::lexemes(b)[j]).kind && out[front.len() + 1 + j].text == lexer::lexemes(
        b,
    )[j].text by {
        assert(out[front.len() + 1 + j] == back[j]);
    }
}

/// A word is read whole: all characters of a name from its first one on, where that is no digit.
/// It is a keyword where it is the spelling of one in any letter case, and a plain word otherwise;
/// it has its own text and the offset at which it starts, and what follows is read from its end on.
pub proof fn law_word_is_read_whole(pre: Seq<char>, word: Seq<char>, rest: Seq<char>)
    requires
        word.len() > 0,
        forall|k: int| 0 <= k < word.len() ==> text::ident_char(#[trigger] word[k]),
        !('0' <= word[0] <= '9'),
        !text::is_space(word[0]),
        rest.len() > 0 ==> !text::ident_char(rest[0]),
    ensures
        ({
            let src = pre + word + rest;
            let at = pre.len() as int;
            lexer::raw_tokens(src, at) == seq![
                TokenView {
                    kind: match lexer::keyword_for(text::uppercase(word)) {
                        Some(kw) => lexer::Kind::Keyword(kw),
                        None => lexer::Kind::Ident,
                    },
                    text: word,
                    offset: text::byte_len(pre),
                },
            ] + lexer::raw_tokens(src, at + word.len())
        }),
{
    reveal(text::is_alnum);
    let src = pre + word + rest;
    let at = pre.len() as int;
    let end = at + word.len();
    assert(src[at] == word[0]);
    assert(text::ident_char(src[at]));
    assert forall|k: int| at <= k < end implies text::ident_char(#[trigger] src[k]) by {
        assert(src[k] == word[k - at]);
    }
    if rest.len() > 0 {
        assert(src[end] == rest[0]);
    }
    lemma_run_of_name(src, at, end);
    assert(src.subrange(at, end) =~= word);
    assert(src.take(at) =~= pre);
}

proof fn lemma_run_of_name(s: Seq<char>, i: int, end: int)
    requires
        0 <= i <= end <= s.len(),
        forall|k: int| i <= k < end ==> text::ident_char(#[trigger] s[k]),
        end < s.len() ==> !text::ident_char(s[end]),
    ensures
        text::ident_end(s, i) == end,
    decreases end - i,
{
    if i < end {
        assert(text::ident_char(s[i]));
        lemma_run_of_name(s, i + 1, end);
    }
}

/// A parameter is an ampersand and the word behind it, read as one.
pub proof fn law_parameter_is_read_whole(pre: Seq<char>, word: Seq<char>, rest: Seq<char>)
    requires
        forall|k: int| 0 <= k < word.len() ==> text::ident_char(#[trigger] word[k]),
        rest.len() > 0 ==> !text::ident_char(rest[0]),
    ensures
        ({
            let src = pre.push('&') + word + rest;
            let at = pre.len() as int;
            lexer::raw_tokens(src, at) == seq![
                TokenView {
                    kind: lexer::Kind::Param,
                    text: seq!['&'] + word,
                    offset: text::byte_len(pre),
                },
            ] + lexer::raw_tokens(src, at + 1 + word.len())
        }),
{
    reveal(text::is_space);
    let src = pre.push('&') + word + rest;
    let at = pre.len() as int;
    let end = at + 1 + word.len();
    assert(src[at] == '&');
    assert forall|k: int| at + 1 <= k < end implies text::ident_char(#[trigger] src[k]) by {
        assert(src[k] == word[k - at - 1]);
    }
    if rest.len() > 0 {
        assert(src[end] == rest[0]);
    }
    lemma_run_of_name(src, at + 1, end);
    assert(src.subrange(at, end) =~= seq!['&'] + word);
    assert(src.take(at) =~= pre);
}

/// A text in quotes is read as one, quotes and all, whatever stands in it: words, signs, white
/// space and what would be a comment elsewhere.
pub proof fn law_text_in_quotes_is_read_whole(pre: Seq<char>, inner: Seq<char>, rest: Seq<char>)
    requires
        forall|k: int| 0 <= k < inner.len() ==> #[trigger] inner[k] != '"',
        rest.len() > 0 ==> rest[0] != '"',
    ensures
        ({
            let src = pre.push('"') + inner.push('"') + rest;
            let at = pre.len() as int;
            lexer::raw_tokens(src, at) == seq![
                TokenView {
                    kind: lexer::Kind::Str,
                    text: seq!['"'] + inner.push('"'),
                    offset: text::byte_len(pre),
                },
            ] + lexer::raw_tokens(src, at + 2 + inner.len())
        }),
{
    reveal(text::is_space);
    let src = pre.push('"') + inner.push('"') + rest;
    let at = pre.len() as int;
    let close = at + 1 + inner.len();
    assert(src[at] == '"');
    assert(src[close] == '"');
    assert forall|k: int| at + 1 <= k < close implies #[trigger] src[k] != '"' by {
        assert(src[k] == inner[k - at - 1]);
    }
    if rest.len() > 0 {
        assert(src[close + 1] == rest[0]);
    }
    lemma_closing_quote(src, at + 1, close);
    assert(src.subrange(at, close + 1) =~= seq!['"'] + inner.push('"'));
    assert(src.take(at) =~= pre);
}

proof fn lemma_closing_quote(s: Seq<char>, i: int, close: int)
    requires
        0 <= i <= close < s.len(),
        s[close] == '"',
        forall|k: int| i <= k < close ==> #[trigger] s[k] != '"',
        close + 1 < s.len() ==> s[close + 1] != '"',
    ensures
        lexer::string_end(s, i) == close + 1,
    decreases close - i,
{
    if i < close {
        assert(s[i] != '"');
        lemma_closing_quote(s, i + 1, close);
    }
}

/// White space is passed over, and so is a comment up to the end of its line; neither leaves a
/// lexeme.
pub proof fn law_white_space_and_comments_leave_nothing(pre: Seq<char>, comment: Seq<char>, rest: Seq<char>)
    requires
        forall|k: int| 0 <= k < comment.len() ==> #[trigger] comment[k] != '\n',
    ensures
        ({
            let src = pre + ("//"@ + comment).push('\n') + rest;
            let at = pre.len() as int;
            lexer::raw_tokens(src, at) == lexer::raw_tokens(src, at + 3 + comment.len())
        }),
        forall|src: Seq<char>, i: int|
            0 <= i < src.len() && text::is_space(src[i]) ==> #[trigger] lexer::raw_tokens(src, i)
                == lexer::raw_tokens(src, i + 1),
{
    reveal(text::is_space);
    reveal_strlit("//");
    let note = "//"@ + comment;
    let src = pre + note.push('\n') + rest;
    let at = pre.len() as int;
    let end = at + note.len();
    assert(src[at] == note[0] && src[at + 1] == note[1]);
    assert(note[0] == '/' && note[1] == '/');
    assert(lexer::comment_at(src, at));
    assert(src[end] == '\n');
    assert forall|k: int| at <= k < end implies #[trigger] src[k] != '\n' by {
        assert(src[k] == note[k - at]);
        if k >= at + 2 {
            assert(note[k - at] == comment[k - at - 2]);
        }
    }
    text::lemma_line_end_is(src, at, end);
    assert(lexer::raw_tokens(src, at) == lexer::raw_tokens(src, end));
    assert(lexer::raw_tokens(src, end) == lexer::raw_tokens(src, end + 1));
}

/// Two words that make one keyword are read as that keyword, at the first of them; other lexemes
/// stay as they are and in their order.
pub proof fn law_two_words_make_one_keyword(toks: Seq<TokenView>, i: int)
    requires
        0 <= i < toks.len(),
    ensures
        i + 1 < toks.len() && (lexer::compound_for(
            text::uppercase(toks[i].text),
            text::uppercase(toks[i + 1].text),
        ) matches Some(kw)) ==> lexer::merged(toks, i)[0].kind == lexer::Kind::Keyword(
            lexer::compound_for(text::uppercase(toks[i].text), text::uppercase(toks[i + 1].text))->0,
        ) && lexer::merged(toks, i)[0].offset == toks[i].offset && lexer::merged(toks, i).skip(1)
            == lexer::merged(toks, i + 2),
        i + 1 == toks.len() || lexer::compound_for(
            text::uppercase(toks[i].text),
            text::uppercase(toks[i + 1].text),
        ) is None ==> lexer::merged(toks, i)[0] == toks[i] && lexer::merged(toks, i).skip(1)
            == lexer::merged(toks, i + 1),
{
    let all = lexer::merged(toks, i);
    if joins(toks, i) {
        assert(all.skip(1) =~= lexer::merged(toks, i + 2));
    } else {
        assert(all.skip(1) =~= lexer::merged(toks, i + 1));
    }
}

/// The keywords of one word, in Russian and in English.
pub open spec fn keywords_in_two_languages() -> Seq<(Seq<char>, Seq<char>, lexer::Kw)> {
    seq![
        ("ВЫБРАТЬ"@, "SELECT"@, lexer::Kw::Select),
        ("РАЗРЕШЕННЫЕ"@, "ALLOWED"@, lexer::Kw::Allowed),
        ("РАЗЛИЧНЫЕ"@, "DISTINCT"@, lexer::Kw::Distinct),
        ("ПЕРВЫЕ"@, "TOP"@, lexer::Kw::Top),
        ("ПОМЕСТИТЬ"@, "INTO"@, lexer::Kw::Into),
        ("ИЗ"@, "FROM"@, lexer::Kw::From),
        ("ГДЕ"@, "WHERE"@, lexer::Kw::Where),
        ("ИМЕЮЩИЕ"@, "HAVING"@, lexer::Kw::Having),
        ("ИТОГИ"@, "TOTALS"@, lexer::Kw::Totals),
        ("ПО"@, "ON"@, lexer::Kw::On),
        ("ОБЪЕДИНИТЬ"@, "UNION"@, lexer::Kw::Union),
        ("ВСЕ"@, "ALL"@, lexer::Kw::All),
        ("СОЕДИНЕНИЕ"@, "JOIN"@, lexer::Kw::Join),
        ("ЛЕВОЕ"@, "LEFT"@, lexer::Kw::Left),
        ("ПРАВОЕ"@, "RIGHT"@, lexer::Kw::Right),
        ("ПОЛНОЕ"@, "FULL"@, lexer::Kw::Full),
        ("ВНУТРЕННЕЕ"@, "INNER"@, lexer::Kw::Inner),
        ("ВНЕШНЕЕ"@, "OUTER"@, lexer::Kw::Outer),
        ("КАК"@, "AS"@, lexer::Kw::As),
        ("И"@, "AND"@, lexer::Kw::And),
        ("ИЛИ"@, "OR"@, lexer::Kw::Or),
        ("НЕ"@, "NOT"@, lexer::Kw::Not),
        ("УНИЧТОЖИТЬ"@, "DROP"@, lexer::Kw::Drop),
        ("ВЫБОР"@, "CASE"@, lexer::Kw::Case),
        ("КОГДА"@, "WHEN"@, lexer::Kw::When),
        ("ТОГДА"@, "THEN"@, lexer::Kw::Then),
        ("ИНАЧЕ"@, "ELSE"@, lexer::Kw::Else),
        ("КОНЕЦ"@, "END"@, lexer::Kw::End),
        ("ИЕРАРХИЯ"@, "HIERARCHY"@, lexer::Kw::Hierarchy),
        ("В"@, "IN"@, lexer::Kw::In),
        ("ЕСТЬ"@, "IS"@, lexer::Kw::Is),
        ("NULL"@, "NULL"@, lexer::Kw::Null),
        ("ПОДОБНО"@, "LIKE"@, lexer::Kw::Like),
        ("МЕЖДУ"@, "BETWEEN"@, lexer::Kw::Between),
        ("АВТОУПОРЯДОЧИВАНИЕ"@, "AUTOORDER"@, lexer::Kw::AutoOrder),
    ]
}

/// A keyword means the same in both languages.
#[verifier::rlimit(40)]
pub proof fn law_keywords_mean_the_same_in_both_languages(i: int)
    requires
        0 <= i < keywords_in_two_languages().len(),
    ensures
        lexer::keyword_for(keywords_in_two_languages()[i].0) == Some(keywords_in_two_languages()[i].2),
        lexer::keyword_for(keywords_in_two_languages()[i].1) == Some(keywords_in_two_languages()[i].2),
{
    reveal_strlit("ВЫБРАТЬ");
    reveal_strlit("SELECT");
    reveal_strlit("РАЗРЕШЕННЫЕ");
    reveal_strlit("ALLOWED");
    reveal_strlit("РАЗЛИЧНЫЕ");
    reveal_strlit("DISTINCT");
    reveal_strlit("ПЕРВЫЕ");
    reveal_strlit("TOP");
    reveal_strlit("ПОМЕСТИТЬ");
    reveal_strlit("INTO");
    reveal_strlit("ИЗ");
    reveal_strlit("FROM");
    reveal_strlit("ГДЕ");
    reveal_strlit("WHERE");
    reveal_strlit("ИМЕЮЩИЕ");
    reveal_strlit("HAVING");
    reveal_strlit("ИТОГИ");
    reveal_strlit("TOTALS");
    reveal_strlit("ПО");
    reveal_strlit("ON");
    reveal_strlit("ОБЪЕДИНИТЬ");
    reveal_strlit("UNION");
    reveal_strlit("ВСЕ");
    reveal_strlit("ALL");
    reveal_strlit("СОЕДИНЕНИЕ");
    reveal_strlit("JOIN");
    reveal_strlit("ЛЕВОЕ");
    reveal_strlit("LEFT");
    reveal_strlit("ПРАВОЕ");
    reveal_strlit("RIGHT");
    reveal_strlit("ПОЛНОЕ");
    reveal_strlit("FULL");
    reveal_strlit("ВНУТРЕННЕЕ");
    reveal_strlit("INNER");
    reveal_strlit("ВНЕШНЕЕ");
    reveal_strlit("OUTER");
    reveal_strlit("КАК");
    reveal_strlit("AS");
    reveal_strlit("И");
    reveal_strlit("AND");
    reveal_strlit("ИЛИ");
    reveal_strlit("OR");
    reveal_strlit("НЕ");
    reveal_strlit("NOT");
    reveal_strlit("УНИЧТОЖИТЬ");
    reveal_strlit("DROP");
    reveal_strlit("ВЫБОР");
    reveal_strlit("CASE");
    reveal_strlit("КОГДА");
    reveal_strlit("WHEN");
    reveal_strlit("ТОГДА");
    reveal_strlit("THEN");
    reveal_strlit("ИНАЧЕ");
    reveal_strlit("ELSE");
    reveal_strlit("КОНЕЦ");
    reveal_strlit("END");
    reveal_strlit("ИЕРАРХИЯ");
    reveal_strlit("HIERARCHY");
    reveal_strlit("В");
    reveal_strlit("IN");
    reveal_strlit("ЕСТЬ");
    reveal_strlit("IS");
    reveal_strlit("NULL");
    reveal_strlit("ПОДОБНО");
    reveal_strlit("LIKE");
    reveal_strlit("МЕЖДУ");
    reveal_strlit("BETWEEN");
    reveal_strlit("АВТОУПОРЯДОЧИВАНИЕ");
    reveal_strlit("AUTOORDER");
    assert("ВЫБРАТЬ"@.len() == 7);
    assert("SELECT"@.len() == 6);
    assert("РАЗРЕШЕННЫЕ"@.len() == 11);
    assert("ALLOWED"@.len() == 7);
    assert("РАЗЛИЧНЫЕ"@.len() == 9);
    assert("DISTINCT"@.len() == 8);
    assert("ПЕРВЫЕ"@.len() == 6);
    assert("TOP"@.len() == 3);
    assert("ПОМЕСТИТЬ"@.len() == 9);
    assert("INTO"@.len() == 4);
    assert("ИЗ"@.len() == 2);
    assert("FROM"@.len() == 4);
    assert("ГДЕ"@.len() == 3);
    assert("WHERE"@.len() == 5);
    assert("ИМЕЮЩИЕ"@.len() == 7);
    assert("HAVING"@.len() == 6);
    assert("ИТОГИ"@.len() == 5);
    assert("TOTALS"@.len() == 6);
    assert("ПО"@.len() == 2);
    assert("ON"@.len() == 2);
    assert("ОБЪЕДИНИТЬ"@.len() == 10);
    assert("UNION"@.len() == 5);
    assert("ВСЕ"@.len() == 3);
    assert("ALL"@.len() == 3);
    assert("СОЕДИНЕНИЕ"@.len() == 10);
    assert("JOIN"@.len() == 4);
    assert("ЛЕВОЕ"@.len() == 5);
    assert("LEFT"@.len() == 4);
    assert("ПРАВОЕ"@.len() == 6);
    assert("RIGHT"@.len() == 5);
    assert("ПОЛНОЕ"@.len() == 6);
    assert("FULL"@.len() == 4);
    assert("ВНУТРЕННЕЕ"@.len() == 10);
    assert("INNER"@.len() == 5);
    assert("ВНЕШНЕЕ"@.len() == 7);
    assert("OUTER"@.len() == 5);
    assert("КАК"@.len() == 3);
    assert("AS"@.len() == 2);
    assert("И"@.len() == 1);
    assert("AND"@.len() == 3);
    assert("ИЛИ"@.len() == 3);
    assert("OR"@.len() == 2);
    assert("НЕ"@.len() == 2);
    assert("NOT"@.len() == 3);
    assert("УНИЧТОЖИТЬ"@.len() == 10);
    assert("DROP"@.len() == 4);
    assert("ВЫБОР"@.len() == 5);
    assert("CASE"@.len() == 4);
    assert("КОГДА"@.len() == 5);
    assert("WHEN"@.len() == 4);
    assert("ТОГДА"@.len() == 5);
    assert("THEN"@.len() == 4);
    assert("ИНАЧЕ"@.len() == 5);
    assert("ELSE"@.len() == 4);
    assert("КОНЕЦ"@.len() == 5);
    assert("END"@.len() == 3);
    assert("ИЕРАРХИЯ"@.len() == 8);
    assert("HIERARCHY"@.len() == 9);
    assert("В"@.len() == 1);
    assert("IN"@.len() == 2);
    assert("ЕСТЬ"@.len() == 4);
    assert("IS"@.len() == 2);
    assert("NULL"@.len() == 4);
    assert("ПОДОБНО"@.len() == 7);
    assert("LIKE"@.len() == 4);
    assert("МЕЖДУ"@.len() == 5);
    assert("BETWEEN"@.len() == 7);
    assert("АВТОУПОРЯДОЧИВАНИЕ"@.len() == 18);
    assert("AUTOORDER"@.len() == 9);
    assert("ВЫБРАТЬ"@[0] == 'В' && "ВЫБРАТЬ"@[1] == 'Ы');
    assert("SELECT"@[0] == 'S');
    assert("ALLOWED"@[0] == 'A');
    assert("РАЗЛИЧНЫЕ"@[0] == 'Р');
    assert("DISTINCT"@[0] == 'D');
    assert("ПЕРВЫЕ"@[0] == 'П' && "ПЕРВЫЕ"@[1] == 'Е');
    assert("TOP"@[0] == 'T');
    assert("ПОМЕСТИТЬ"@[0] == 'П');
    assert("INTO"@[0] == 'I');
    assert("ИЗ"@[0] == 'И');
    assert("FROM"@[0] == 'F' && "FROM"@[1] == 'R');
    assert("ГДЕ"@[0] == 'Г');
    assert("WHERE"@[0] == 'W');
    assert("ИМЕЮЩИЕ"@[0] == 'И');
    assert("HAVING"@[0] == 'H');
    assert("ИТОГИ"@[0] == 'И' && "ИТОГИ"@[1] == 'Т');
    assert("TOTALS"@[0] == 'T');
    assert("ПО"@[0] == 'П');
    assert("ON"@[0] == 'O' && "ON"@[1] == 'N');
    assert("ОБЪЕДИНИТЬ"@[0] == 'О');
    assert("UNION"@[0] == 'U');
    assert("ВСЕ"@[0] == 'В');
    assert("ALL"@[0] == 'A' && "ALL"@[1] == 'L');
    assert("СОЕДИНЕНИЕ"@[0] == 'С');
    assert("JOIN"@[0] == 'J');
    assert("ЛЕВОЕ"@[0] == 'Л');
    assert("LEFT"@[0] == 'L' && "LEFT"@[1] == 'E');
    assert("ПРАВОЕ"@[0] == 'П' && "ПРАВОЕ"@[1] == 'Р');
    assert("RIGHT"@[0] == 'R');
    assert("ПОЛНОЕ"@[0] == 'П' && "ПОЛНОЕ"@[1] == 'О');
    assert("FULL"@[0] == 'F' && "FULL"@[1] == 'U');
    assert("ВНУТРЕННЕЕ"@[0] == 'В');
    assert("INNER"@[0] == 'I');
    assert("ВНЕШНЕЕ"@[0] == 'В' && "ВНЕШНЕЕ"@[1] == 'Н');
    assert("OUTER"@[0] == 'O');
    assert("КАК"@[0] == 'К');
    assert("AS"@[0] == 'A');
    assert("И"@[0] == 'И');
    assert("AND"@[0] == 'A' && "AND"@[1] == 'N');
    assert("ИЛИ"@[0] == 'И');
    assert("OR"@[0] == 'O' && "OR"@[1] == 'R');
    assert("НЕ"@[0] == 'Н');
    assert("NOT"@[0] == 'N');
    assert("УНИЧТОЖИТЬ"@[0] == 'У');
    assert("DROP"@[0] == 'D');
    assert("ВЫБОР"@[0] == 'В');
    assert("CASE"@[0] == 'C');
    assert("КОГДА"@[0] == 'К' && "КОГДА"@[2] == 'Г');
    assert("WHEN"@[0] == 'W');
    assert("ТОГДА"@[0] == 'Т');
    assert("THEN"@[0] == 'T');
    assert("ИНАЧЕ"@[0] == 'И' && "ИНАЧЕ"@[1] == 'Н');
    assert("ELSE"@[0] == 'E');
    assert("КОНЕЦ"@[0] == 'К' && "КОНЕЦ"@[2] == 'Н');
    assert("END"@[0] == 'E');
    assert("ИЕРАРХИЯ"@[0] == 'И');
    assert("HIERARCHY"@[0] == 'H');
    assert("В"@[0] == 'В');
    assert("IN"@[0] == 'I' && "IN"@[1] == 'N');
    assert("ЕСТЬ"@[0] == 'Е');
    assert("IS"@[0] == 'I' && "IS"@[1] == 'S');
    assert("NULL"@[0] == 'N');
    assert("ПОДОБНО"@[0] == 'П');
    assert("LIKE"@[0] == 'L' && "LIKE"@[1] == 'I');
    assert("МЕЖДУ"@[0] == 'М');
    assert("BETWEEN"@[0] == 'B');
    assert("AUTOORDER"@[0] == 'A');
}


/// Keywords of two words mean the same in both languages.
pub proof fn law_two_words_mean_the_same_in_both_languages()
    ensures
        lexer::compound_for("СГРУППИРОВАТЬ"@, "ПО"@) == Some(lexer::Kw::GroupBy),
        lexer::compound_for("GROUP"@, "BY"@) == Some(lexer::Kw::GroupBy),
        lexer::compound_for("УПОРЯДОЧИТЬ"@, "ПО"@) == Some(lexer::Kw::OrderBy),
        lexer::compound_for("ORDER"@, "BY"@) == Some(lexer::Kw::OrderBy),
        lexer::compound_for("ИНДЕКСИРОВАТЬ"@, "ПО"@) == Some(lexer::Kw::IndexBy),
        lexer::compound_for("INDEX"@, "BY"@) == Some(lexer::Kw::IndexBy),
        lexer::compound_for("ДЛЯ"@, "ИЗМЕНЕНИЯ"@) == Some(lexer::Kw::ForUpdate),
        lexer::compound_for("FOR"@, "UPDATE"@) == Some(lexer::Kw::ForUpdate),
{
    reveal_strlit("СГРУППИРОВАТЬ");
    reveal_strlit("ПО");
    reveal_strlit("GROUP");
    reveal_strlit("BY");
    reveal_strlit("УПОРЯДОЧИТЬ");
    reveal_strlit("ORDER");
    reveal_strlit("ИНДЕКСИРОВАТЬ");
    reveal_strlit("INDEX");
    reveal_strlit("ДЛЯ");
    reveal_strlit("ИЗМЕНЕНИЯ");
    reveal_strlit("FOR");
    reveal_strlit("UPDATE");
    assert("СГРУППИРОВАТЬ"@.len() == 13);
    assert("ПО"@.len() == 2);
    assert("GROUP"@.len() == 5);
    assert("BY"@.len() == 2);
    assert("УПОРЯДОЧИТЬ"@.len() == 11);
    assert("ORDER"@.len() == 5);
    assert("ИНДЕКСИРОВАТЬ"@.len() == 13);
    assert("INDEX"@.len() == 5);
    assert("ДЛЯ"@.len() == 3);
    assert("ИЗМЕНЕНИЯ"@.len() == 9);
    assert("FOR"@.len() == 3);
    assert("UPDATE"@.len() == 6);
    assert("СГРУППИРОВАТЬ"@[0] == 'С');
    assert("ПО"@[0] == 'П');
    assert("GROUP"@[0] == 'G');
    assert("BY"@[0] == 'B');
    assert("УПОРЯДОЧИТЬ"@[0] == 'У');
    assert("ORDER"@[0] == 'O');
    assert("ИНДЕКСИРОВАТЬ"@[0] == 'И');
    assert("INDEX"@[0] == 'I');
    assert("ДЛЯ"@[0] == 'Д');
    assert("ИЗМЕНЕНИЯ"@[0] == 'И');
    assert("FOR"@[0] == 'F');
    assert("UPDATE"@[0] == 'U');
}

} // verus!
