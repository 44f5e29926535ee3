//! Declarations of procedures and functions, and whether their blocks are closed.
//!
//! The text is read, not the tree of a parser: modules with these errors are just those that
//! a parser does not get through.
use crate::findings;
use crate::findings::{add_finding, pos_at, Confidence, ExprError, ExprErrorKind};
use crate::text;
use crate::text::{
    back_of, byte_offsets, char_is_space, chars_of, decimal_of, ends_at, front_of, is_ident_char, matches_at,
    same_text, scan_line, text_range, to_lower, Edge,
};
use vstd::prelude::*;

verus! {

/// Keywords of the language, in lower case: no procedure can have such a name.
pub open spec fn keyword(lower: Seq<char>) -> bool {
    ||| lower == "если"@
    ||| lower == "тогда"@
    ||| lower == "иначе"@
    ||| lower == "иначеесли"@
    ||| lower == "конецесли"@
    ||| lower == "для"@
    ||| lower == "каждого"@
    ||| lower == "из"@
    ||| lower == "по"@
    ||| lower == "цикл"@
    ||| lower == "конеццикла"@
    ||| lower == "пока"@
    ||| lower == "прервать"@
    ||| lower == "продолжить"@
    ||| lower == "процедура"@
    ||| lower == "функция"@
    ||| lower == "конецпроцедуры"@
    ||| lower == "конецфункции"@
    ||| lower == "перем"@
    ||| lower == "возврат"@
    ||| lower == "попытка"@
    ||| lower == "исключение"@
    ||| lower == "конецпопытки"@
    ||| lower == "вызватьисключение"@
    ||| lower == "экспорт"@
    ||| lower == "знач"@
    ||| lower == "новый"@
    ||| lower == "выполнить"@
    ||| lower == "перейти"@
    ||| lower == "и"@
    ||| lower == "или"@
    ||| lower == "не"@
    ||| lower == "истина"@
    ||| lower == "ложь"@
    ||| lower == "неопределено"@
    ||| lower == "null"@
    ||| lower == "if"@
    ||| lower == "then"@
    ||| lower == "else"@
    ||| lower == "elsif"@
    ||| lower == "endif"@
    ||| lower == "for"@
    ||| lower == "each"@
    ||| lower == "in"@
    ||| lower == "to"@
    ||| lower == "do"@
    ||| lower == "enddo"@
    ||| lower == "while"@
    ||| lower == "break"@
    ||| lower == "continue"@
    ||| lower == "procedure"@
    ||| lower == "function"@
    ||| lower == "endprocedure"@
    ||| lower == "endfunction"@
    ||| lower == "var"@
    ||| lower == "return"@
    ||| lower == "try"@
    ||| lower == "except"@
    ||| lower == "endtry"@
    ||| lower == "raise"@
    ||| lower == "export"@
    ||| lower == "val"@
    ||| lower == "new"@
    ||| lower == "execute"@
    ||| lower == "goto"@
    ||| lower == "and"@
    ||| lower == "or"@
    ||| lower == "not"@
    ||| lower == "true"@
    ||| lower == "false"@
    ||| lower == "undefined"@
}

fn is_keyword(lower: &str) -> (r: bool)
    ensures
        r == keyword(lower@),
{
    same_text(lower, "если")
        || same_text(lower, "тогда")
        || same_text(lower, "иначе")
        || same_text(lower, "иначеесли")
        || same_text(lower, "конецесли")
        || same_text(lower, "для")
        || same_text(lower, "каждого")
        || same_text(lower, "из")
        || same_text(lower, "по")
        || same_text(lower, "цикл")
        || same_text(lower, "конеццикла")
        || same_text(lower, "пока")
        || same_text(lower, "прервать")
        || same_text(lower, "продолжить")
        || same_text(lower, "процедура")
        || same_text(lower, "функция")
        || same_text(lower, "конецпроцедуры")
        || same_text(lower, "конецфункции")
        || same_text(lower, "перем")
        || same_text(lower, "возврат")
        || same_text(lower, "попытка")
        || same_text(lower, "исключение")
        || same_text(lower, "конецпопытки")
        || same_text(lower, "вызватьисключение")
        || same_text(lower, "экспорт")
        || same_text(lower, "знач")
        || same_text(lower, "новый")
        || same_text(lower, "выполнить")
        || same_text(lower, "перейти")
        || same_text(lower, "и")
        || same_text(lower, "или")
        || same_text(lower, "не")
        || same_text(lower, "истина")
        || same_text(lower, "ложь")
        || same_text(lower, "неопределено")
        || same_text(lower, "null")
        || same_text(lower, "if")
        || same_text(lower, "then")
        || same_text(lower, "else")
        || same_text(lower, "elsif")
        || same_text(lower, "endif")
        || same_text(lower, "for")
        || same_text(lower, "each")
        || same_text(lower, "in")
        || same_text(lower, "to")
        || same_text(lower, "do")
        || same_text(lower, "enddo")
        || same_text(lower, "while")
        || same_text(lower, "break")
        || same_text(lower, "continue")
        || same_text(lower, "procedure")
        || same_text(lower, "function")
        || same_text(lower, "endprocedure")
        || same_text(lower, "endfunction")
        || same_text(lower, "var")
        || same_text(lower, "return")
        || same_text(lower, "try")
        || same_text(lower, "except")
        || same_text(lower, "endtry")
        || same_text(lower, "raise")
        || same_text(lower, "export")
        || same_text(lower, "val")
        || same_text(lower, "new")
        || same_text(lower, "execute")
        || same_text(lower, "goto")
        || same_text(lower, "and")
        || same_text(lower, "or")
        || same_text(lower, "not")
        || same_text(lower, "true")
        || same_text(lower, "false")
        || same_text(lower, "undefined")
}

/// Names that the platform rejects though they are no keywords, in lower case.
pub open spec fn platform_rejected(lower: Seq<char>) -> bool {
    lower == "найти"@
}

/// White space within a line, or a byte order mark.
pub open spec fn indent_char(c: char) -> bool {
    (text::is_space(c) && c != '\n' && c != '\r') || c == '\u{FEFF}'
}

/// Whether a character is white space within a line, or a byte order mark.
pub fn is_indent_char(c: char) -> (r: bool)
    ensures
        r == indent_char(c),
{
    (char_is_space(c) && c != '\n' && c != '\r') || c == '\u{FEFF}'
}

/// A word that matters for the structure of a module.
#[derive(Debug, Clone, Copy, PartialEq, Eq, Structural)]
pub enum Token {
    /// The start of a procedure or a function.
    Header,
    /// The end of one.
    End,
}

/// The words that open and close blocks, in lower case: the first four close one.
pub open spec fn structure_word(k: int) -> Seq<char> {
    if k == 0 {
        "конецпроцедуры"@
    } else if k == 1 {
        "конецфункции"@
    } else if k == 2 {
        "endprocedure"@
    } else if k == 3 {
        "endfunction"@
    } else if k == 4 {
        "процедура"@
    } else if k == 5 {
        "функция"@
    } else if k == 6 {
        "procedure"@
    } else {
        "function"@
    }
}

/// What a word means.
pub open spec fn word_token(k: int) -> Token {
    if k < 4 {
        Token::End
    } else {
        Token::Header
    }
}

pub proof fn lemma_word_len(k: int)
    ensures
        structure_word(k).len() > 0,
{
    reveal_strlit("конецпроцедуры");
    reveal_strlit("конецфункции");
    reveal_strlit("endprocedure");
    reveal_strlit("endfunction");
    reveal_strlit("процедура");
    reveal_strlit("функция");
    reveal_strlit("procedure");
    reveal_strlit("function");
}

fn structure_words() -> (r: Vec<Vec<char>>)
    ensures
        r.len() == 8,
        forall|k: int| 0 <= k < 8 ==> (#[trigger] r[k])@ == structure_word(k),
{
    vec![
        chars_of("конецпроцедуры"),
        chars_of("конецфункции"),
        chars_of("endprocedure"),
        chars_of("endfunction"),
        chars_of("процедура"),
        chars_of("функция"),
        chars_of("procedure"),
        chars_of("function"),
    ]
}

/// The first word, from number `k` on, that stands at `i`.
pub open spec fn word_at(s: Seq<char>, i: int, k: int) -> Option<int>
    decreases 8 - k,
{
    if k < 0 || k >= 8 {
        None
    } else if text::starts_with(s.subrange(i, s.len() as int), structure_word(k)) {
        Some(k)
    } else {
        word_at(s, i, k + 1)
    }
}

/// The end of the text before `end` without white space and byte order marks behind it.
pub open spec fn before_indent(s: Seq<char>, end: int) -> int
    decreases end,
{
    if end > 0 && indent_char(s[end - 1]) {
        before_indent(s, end - 1)
    } else {
        end
    }
}

/// The word `word` ends at `end`, and no longer word does.
pub open spec fn word_ends_at(s: Seq<char>, end: int, word: Seq<char>) -> bool {
    let start = end - word.len();
    &&& text::ends_with(s.take(end), word)
    &&& start == 0 || !text::ident_char(s[start - 1])
}

/// The end of what precedes a header at `at`: white space is skipped, and the word that marks
/// an asynchronous method where white space follows it.
pub open spec fn left_of(s: Seq<char>, at: int) -> int {
    let end = before_indent(s, at);
    if end == at {
        end
    } else if word_ends_at(s, end, "асинх"@) {
        before_indent(s, end - "асинх"@.len())
    } else if word_ends_at(s, end, "async"@) {
        before_indent(s, end - "async"@.len())
    } else {
        end
    }
}

/// A word at `at` starts a statement: only white space precedes it in the text, behind a line
/// break, behind a semicolon, or behind the word that was taken last (which ends at
/// `prev_end`).
pub open spec fn statement_starts(s: Seq<char>, at: int, prev_end: int) -> bool {
    let left = left_of(s, at);
    ||| left <= 0
    ||| (left == prev_end && prev_end > 0)
    ||| s[left - 1] == '\n'
    ||| s[left - 1] == '\r'
    ||| s[left - 1] == ';'
}

/// The words that open and close blocks, from `i` on, each with the byte at which it stands.
/// A word counts where it starts a statement and no name goes on behind it.
pub open spec fn structure_from(s: Seq<char>, i: int, prev_end: int) -> Seq<(nat, Token)>
    decreases s.len() - i,
{
    if i < 0 || i >= s.len() {
        seq![]
    } else {
        match word_at(s, i, 0) {
            None => structure_from(s, i + 1, prev_end),
            Some(k) => {
                let after = i + structure_word(k).len();
                proof {
                    lemma_word_len(k);
                }
                if (after >= s.len() || !text::ident_char(s[after])) && statement_starts(s, i, prev_end) {
                    if after <= s.len() {
                        seq![(text::byte_at(s, i), word_token(k))] + structure_from(s, after, after)
                    } else {
                        seq![]
                    }
                } else {
                    structure_from(s, i + 1, prev_end)
                }
            },
        }
    }
}

/// The words that open and close the blocks of a text, whatever their letter case.
pub open spec fn structure_of(cleaned: Seq<char>) -> Seq<(nat, Token)> {
    structure_from(text::lowercase(cleaned), 0, 0)
}

fn trim_indent(chars: &Vec<char>, to: usize) -> (r: usize)
    requires
        to <= chars.len(),
    ensures
        r == before_indent(chars@, to as int),
        r <= to,
{
    let mut end = to;
    while end > 0 && is_indent_char(chars[end - 1])
        invariant
            end <= to <= chars.len(),
            before_indent(chars@, end as int) == before_indent(chars@, to as int),
        decreases end,
    {
        end -= 1;
    }
    end
}

fn ends_in_word(chars: &Vec<char>, end: usize, word: &Vec<char>) -> (r: bool)
    requires
        end <= chars.len(),
    ensures
        r == word_ends_at(chars@, end as int, word@),
        r ==> word.len() <= end,
{
    if !ends_at(chars, end, word) {
        return false;
    }
    let start = end - word.len();
    start == 0 || !is_ident_char(chars[start - 1])
}

fn starts_statement(
    chars: &Vec<char>,
    at: usize,
    prev_end: usize,
    async_ru: &Vec<char>,
    async_en: &Vec<char>,
) -> (r: bool)
    requires
        at <= chars.len(),
        async_ru@ == "асинх"@,
        async_en@ == "async"@,
    ensures
        r == statement_starts(chars@, at as int, prev_end as int),
{
    let mut left = trim_indent(chars, at);
    if left < at {
        if ends_in_word(chars, left, async_ru) {
            left = trim_indent(chars, left - async_ru.len());
        } else if ends_in_word(chars, left, async_en) {
            left = trim_indent(chars, left - async_en.len());
        }
    }
    if left == 0 {
        return true;
    }
    if left == prev_end && prev_end > 0 {
        return true;
    }
    let last = chars[left - 1];
    last == '\n' || last == '\r' || last == ';'
}

fn find_word(chars: &Vec<char>, i: usize, words: &Vec<Vec<char>>) -> (r: Option<usize>)
    requires
        i <= chars.len(),
        words.len() == 8,
        forall|k: int| 0 <= k < 8 ==> (#[trigger] words[k])@ == structure_word(k),
    ensures
        match r {
            Some(k) => word_at(chars@, i as int, 0) == Some(k as int) && k < 8 && i
                + structure_word(k as int).len() <= chars.len(),
            None => word_at(chars@, i as int, 0) is None,
        },
{
    let mut k: usize = 0;
    while k < 8
        invariant
            i <= chars.len(),
            words.len() == 8,
            forall|j: int| 0 <= j < 8 ==> (#[trigger] words[j])@ == structure_word(j),
            k <= 8,
            word_at(chars@, i as int, 0) == word_at(chars@, i as int, k as int),
        decreases 8 - k,
    {
        if matches_at(chars, i, &words[k]) {
            return Some(k);
        }
        k += 1;
    }
    None
}

/// The contents of a list of structure words.
pub open spec fn structure_views(v: Seq<(usize, Token)>) -> Seq<(nat, Token)> {
    v.map_values(|t: (usize, Token)| (t.0 as nat, t.1))
}

/// The words that open and close the blocks of a text in which strings and comments are
/// blanked, each with the byte at which it stands.
pub fn scan_structure_tokens(cleaned: &str) -> (r: Vec<(usize, Token)>)
    ensures
        structure_views(r@) == structure_of(cleaned@),
{
    let lower = to_lower(cleaned);
    let chars = chars_of(lower.as_str());
    let offsets = byte_offsets(lower.as_str(), &chars);
    let words = structure_words();
    let async_ru = chars_of("асинх");
    let async_en = chars_of("async");
    let ghost s = lower@;
    let mut out: Vec<(usize, Token)> = Vec::new();
    let mut i: usize = 0;
    let mut prev_end: usize = 0;
    assert(structure_views(out@) + structure_from(s, 0, 0) =~= structure_from(s, 0, 0));
    while i < chars.len()
        invariant
            s == lower@,
            s == text::lowercase(cleaned@),
            chars@ == s,
            offsets.len() == chars.len() + 1,
            forall|k: int| 0 <= k <= chars.len() ==> #[trigger] offsets[k] == text::byte_at(s, k),
            words.len() == 8,
            forall|k: int| 0 <= k < 8 ==> (#[trigger] words[k])@ == structure_word(k),
            async_ru@ == "асинх"@,
            async_en@ == "async"@,
            i <= chars.len(),
            structure_views(out@) + structure_from(s, i as int, prev_end as int) == structure_of(cleaned@),
        decreases chars.len() - i,
    {
        match find_word(&chars, i, &words) {
            Some(k) => {
                proof {
                    lemma_word_len(k as int);
                }
                let after = i + words[k].len();
                let right_ok = after >= chars.len() || !is_ident_char(chars[after]);
                if right_ok && starts_statement(&chars, i, prev_end, &async_ru, &async_en) {
                    let token = if k < 4 {
                        Token::End
                    } else {
                        Token::Header
                    };
                    let found = (offsets[i], token);
                    let ghost before = structure_views(out@);
                    let ghost rest = structure_from(s, after as int, after as int);
                    let ghost one = (found.0 as nat, found.1);
                    out.push(found);
                    assert(structure_views(out@) =~= before.push(one));
                    assert(before + (seq![one] + rest) =~= before.push(one) + rest);
                    prev_end = after;
                    i = after;
                } else {
                    i += 1;
                }
            },
            None => {
                i += 1;
            },
        }
    }
    assert(structure_views(out@) + Seq::<(nat, Token)>::empty() =~= structure_views(out@));
    out
}

/// What is said of a block that the next header stands in.
pub open spec fn unclosed_message() -> Seq<char> {
    "Блок процедуры/функции не закрыт: следующий заголовок начинается раньше, чем встретился «КонецПроцедуры»/«КонецФункции»."@
}

/// What is said of the end of a block without a header.
pub open spec fn extra_end_message() -> Seq<char> {
    "Лишний «КонецПроцедуры»/«КонецФункции»: соответствующего заголовка нет. Платформа обрывает модуль на этом месте («Обнаружено логическое завершение исходного текста модуля»), всё написанное ниже теряется."@
}

/// What is said of a block that the module ends in.
pub open spec fn open_end_message() -> Seq<char> {
    "Блок процедуры/функции не закрыт до конца модуля — не хватает «КонецПроцедуры»/«КонецФункции»."@
}

pub open spec fn block_finding(src: Seq<char>, byte: nat, message: Seq<char>) -> findings::FindingView {
    findings::finding_at(
        src,
        byte,
        ExprErrorKind::UnbalancedModuleBlock,
        message,
        Confidence::High,
        None,
    )
}

/// The findings of the words from number `k` on, `open` being the byte of the header of the
/// block that is open. A header in an open block, an end without one, and a block that is
/// open at the end are reported.
pub open spec fn structure_findings(
    src: Seq<char>,
    toks: Seq<(nat, Token)>,
    k: int,
    open: Option<nat>,
) -> Seq<findings::FindingView>
    decreases toks.len() - k,
{
    if k < 0 || k >= toks.len() {
        match open {
            Some(byte) => seq![block_finding(src, byte, open_end_message())],
            None => seq![],
        }
    } else {
        match (toks[k].1, open) {
            (Token::Header, Some(byte)) => seq![block_finding(src, byte, unclosed_message())]
                + structure_findings(src, toks, k + 1, open),
            (Token::Header, None) => structure_findings(src, toks, k + 1, Some(toks[k].0)),
            (Token::End, Some(_)) => structure_findings(src, toks, k + 1, None),
            (Token::End, None) => seq![block_finding(src, toks[k].0, extra_end_message())]
                + structure_findings(src, toks, k + 1, None),
        }
    }
}

fn report_block(src: &str, byte: usize, message: &str) -> (r: ExprError)
    requires
        findings::countable(src@),
    ensures
        r@ == block_finding(src@, byte as nat, message@),
{
    ExprError::at(
        src,
        byte,
        ExprErrorKind::UnbalancedModuleBlock,
        message.to_owned(),
        Confidence::High,
        None,
    )
}

/// Check that the blocks of a module are closed.
pub fn check_module_structure(source: &str, cleaned: &str, errors: &mut Vec<ExprError>)
    requires
        findings::countable(source@),
    ensures
        findings::finding_views(final(errors)@) == findings::finding_views(old(errors)@)
            + structure_findings(source@, structure_of(cleaned@), 0, None),
{
    let tokens = scan_structure_tokens(cleaned);
    let ghost toks = structure_views(tokens@);
    let ghost first = findings::finding_views(errors@);
    let ghost all = structure_findings(source@, toks, 0, None);
    let mut open: Option<usize> = None;
    let mut i: usize = 0;
    while i < tokens.len()
        invariant
            findings::countable(source@),
            toks == structure_views(tokens@),
            i <= tokens.len(),
            findings::finding_views(errors@) + structure_findings(
                source@,
                toks,
                i as int,
                (match open {
                    Some(b) => Some(b as nat),
                    None => None,
                }),
            ) == first + all,
        decreases tokens.len() - i,
    {
        let (byte, token) = tokens[i];
        assert(toks[i as int] == (byte as nat, token));
        let ghost before = findings::finding_views(errors@);
        match token {
            Token::Header => {
                match open {
                    Some(start) => {
                        let found = report_block(
                            source,
                            start,
                            "Блок процедуры/функции не закрыт: следующий заголовок начинается раньше, чем встретился «КонецПроцедуры»/«КонецФункции».",
                        );
                        let ghost rest = structure_findings(source@, toks, i + 1, Some(start as nat));
                        assert(before + (seq![found@] + rest) =~= (before + seq![found@]) + rest);
                        add_finding(errors, Some(found));
                    },
                    None => {
                        open = Some(byte);
                    },
                }
            },
            Token::End => {
                if open.is_none() {
                    let found = report_block(
                        source,
                        byte,
                        "Лишний «КонецПроцедуры»/«КонецФункции»: соответствующего заголовка нет. Платформа обрывает модуль на этом месте («Обнаружено логическое завершение исходного текста модуля»), всё написанное ниже теряется.",
                    );
                    let ghost rest = structure_findings(source@, toks, i + 1, None);
                    assert(before + (seq![found@] + rest) =~= (before + seq![found@]) + rest);
                    add_finding(errors, Some(found));
                }
                open = None;
            },
        }
        i += 1;
    }
    if let Some(start) = open {
        let found = report_block(
            source,
            start,
            "Блок процедуры/функции не закрыт до конца модуля — не хватает «КонецПроцедуры»/«КонецФункции».",
        );
        add_finding(errors, Some(found));
    } else {
        assert(findings::finding_views(errors@) + Seq::<findings::FindingView>::empty()
            =~= findings::finding_views(errors@));
    }
}

/// A declaration of a procedure or a function.
#[derive(Debug, Clone)]
pub struct DeclFact {
    /// The name as the text writes it.
    pub name: String,
    pub name_lower: String,
    /// The byte at which the name starts.
    pub byte: usize,
}

/// The contents of a [`DeclFact`].
#[verifier::ext_equal]
pub struct DeclView {
    pub name: Seq<char>,
    pub byte: nat,
}

/// The contents of a list of declarations.
pub open spec fn decl_views(v: Seq<DeclFact>) -> Seq<DeclView> {
    v.map_values(|d: DeclFact| DeclView { name: d.name@, byte: d.byte as nat })
}

/// The first position from `i` on, before `end`, that holds neither white space nor a byte
/// order mark.
pub open spec fn past_lead(s: Seq<char>, i: int, end: int) -> int
    decreases end - i,
{
    if i < end && (text::is_space(s[i]) || s[i] == '\u{FEFF}') {
        past_lead(s, i + 1, end)
    } else {
        i
    }
}

/// The word `word` stands at `i`, whatever its letter case, and white space follows it on the
/// line.
pub open spec fn spaced_word(s: Seq<char>, i: int, end: int, word: Seq<char>) -> bool {
    i + word.len() < end && text::lowercase(s.subrange(i, i + word.len())) == word && text::is_space(
        s[i + word.len()],
    )
}

/// The position behind the word that marks an asynchronous method, and the white space behind
/// it.
pub open spec fn past_async(s: Seq<char>, i: int, end: int) -> int {
    if spaced_word(s, i, end, "асинх"@) {
        text::front(Edge::Space, s, i + "асинх"@.len(), end)
    } else if spaced_word(s, i, end, "async"@) {
        text::front(Edge::Space, s, i + "async"@.len(), end)
    } else {
        i
    }
}

/// The position behind the word that starts a declaration.
pub open spec fn past_header(s: Seq<char>, i: int, end: int) -> Option<int> {
    if spaced_word(s, i, end, "процедура"@) {
        Some(i + "процедура"@.len())
    } else if spaced_word(s, i, end, "функция"@) {
        Some(i + "функция"@.len())
    } else if spaced_word(s, i, end, "procedure"@) {
        Some(i + "procedure"@.len())
    } else if spaced_word(s, i, end, "function"@) {
        Some(i + "function"@.len())
    } else {
        None
    }
}

/// The first opening bracket from `i` on, before `end`; `end` where there is none.
pub open spec fn bracket_at(s: Seq<char>, i: int, end: int) -> int
    decreases end - i,
{
    if i < end && s[i] != '(' {
        bracket_at(s, i + 1, end)
    } else {
        i
    }
}

/// No character from `i` up to `end` is white space.
pub open spec fn unbroken(s: Seq<char>, i: int, end: int) -> bool {
    forall|k: int| i <= k < end ==> !text::is_space(#[trigger] s[k])
}

/// The declaration on the line from `start` up to `end`: the word for a procedure or a
/// function, white space, and a name of one word before an opening bracket.
pub open spec fn decl_on_line(s: Seq<char>, start: int, end: int) -> Option<DeclView> {
    let lead = past_lead(s, start, end);
    match past_header(s, past_async(s, lead, end), end) {
        None => None,
        Some(i) => {
            let bracket = bracket_at(s, i, end);
            let from = text::front(Edge::Space, s, i, bracket);
            let to = text::back(Edge::Space, s, from, bracket);
            if bracket < end && from < to && unbroken(s, from, to) {
                Some(DeclView { name: s.subrange(from, to), byte: text::byte_at(s, from) })
            } else {
                None
            }
        },
    }
}

/// The declarations that an optional one makes.
pub open spec fn some_decl(o: Option<DeclView>) -> Seq<DeclView> {
    match o {
        Some(d) => seq![d],
        None => seq![],
    }
}

/// The declarations on the lines from `start` on.
pub open spec fn decls_from(s: Seq<char>, start: int) -> Seq<DeclView>
    decreases s.len() - start,
{
    if start < 0 || start >= s.len() {
        seq![]
    } else {
        let end = text::line_end(s, start);
        proof {
            text::lemma_line_end(s, start);
        }
        some_decl(decl_on_line(s, start, end)) + if end < s.len() {
            decls_from(s, end + 1)
        } else {
            seq![]
        }
    }
}

/// The declarations of a text, in its order.
pub open spec fn decls_of(cleaned: Seq<char>) -> Seq<DeclView> {
    decls_from(cleaned, 0)
}

fn is_spaced_word(chars: &Vec<char>, i: usize, end: usize, word: &str) -> (r: bool)
    requires
        i <= end <= chars.len(),
    ensures
        r == spaced_word(chars@, i as int, end as int, word@),
        r ==> i + word@.len() < end,
{
    let n = word.unicode_len();
    if n >= end - i {
        return false;
    }
    let part = text_range(chars, i, i + n);
    same_text(to_lower(part.as_str()).as_str(), word) && char_is_space(chars[i + n])
}

fn skip_async(chars: &Vec<char>, i: usize, end: usize) -> (r: usize)
    requires
        i <= end <= chars.len(),
    ensures
        r == past_async(chars@, i as int, end as int),
        i <= r <= end,
{
    if is_spaced_word(chars, i, end, "асинх") {
        let n = "асинх".unicode_len();
        front_of(Edge::Space, chars, i + n, end)
    } else if is_spaced_word(chars, i, end, "async") {
        let n = "async".unicode_len();
        front_of(Edge::Space, chars, i + n, end)
    } else {
        i
    }
}

fn skip_header(chars: &Vec<char>, i: usize, end: usize) -> (r: Option<usize>)
    requires
        i <= end <= chars.len(),
    ensures
        match r {
            Some(k) => past_header(chars@, i as int, end as int) == Some(k as int) && k <= end,
            None => past_header(chars@, i as int, end as int) is None,
        },
{
    if is_spaced_word(chars, i, end, "процедура") {
        Some(i + "процедура".unicode_len())
    } else if is_spaced_word(chars, i, end, "функция") {
        Some(i + "функция".unicode_len())
    } else if is_spaced_word(chars, i, end, "procedure") {
        Some(i + "procedure".unicode_len())
    } else if is_spaced_word(chars, i, end, "function") {
        Some(i + "function".unicode_len())
    } else {
        None
    }
}

fn is_unbroken(chars: &Vec<char>, from: usize, to: usize) -> (r: bool)
    requires
        from <= to <= chars.len(),
    ensures
        r == unbroken(chars@, from as int, to as int),
{
    let mut i = from;
    while i < to
        invariant
            from <= i <= to <= chars.len(),
            forall|k: int| from <= k < i ==> !text::is_space(#[trigger] chars@[k]),
        decreases to - i,
    {
        if char_is_space(chars[i]) {
            return false;
        }
        i += 1;
    }
    true
}

fn read_declaration(
    chars: &Vec<char>,
    offsets: &Vec<usize>,
    start: usize,
    end: usize,
    Ghost(s): Ghost<Seq<char>>,
) -> (r: Option<DeclFact>)
    requires
        chars@ == s,
        offsets.len() == s.len() + 1,
        forall|k: int| 0 <= k <= s.len() ==> #[trigger] offsets[k] == text::byte_at(s, k),
        start <= end <= s.len(),
    ensures
        match r {
            Some(d) => decl_on_line(s, start as int, end as int) == Some(
                DeclView { name: d.name@, byte: d.byte as nat },
            ) && d.name_lower@ == text::lowercase(d.name@),
            None => decl_on_line(s, start as int, end as int) is None,
        },
{
    let mut lead = start;
    while lead < end && (char_is_space(chars[lead]) || chars[lead] == '\u{FEFF}')
        invariant
            chars@ == s,
            start <= lead <= end <= s.len(),
            past_lead(s, start as int, end as int) == past_lead(s, lead as int, end as int),
        decreases end - lead,
    {
        lead += 1;
    }
    let at = skip_async(chars, lead, end);
    let i = match skip_header(chars, at, end) {
        Some(i) => i,
        None => return None,
    };
    let mut bracket = i;
    while bracket < end && chars[bracket] != '('
        invariant
            chars@ == s,
            i <= bracket <= end <= s.len(),
            bracket_at(s, i as int, end as int) == bracket_at(s, bracket as int, end as int),
        decreases end - bracket,
    {
        bracket += 1;
    }
    let from = front_of(Edge::Space, chars, i, bracket);
    let to = back_of(Edge::Space, chars, from, bracket);
    if bracket < end && from < to && is_unbroken(chars, from, to) {
        let name = text_range(chars, from, to);
        let name_lower = to_lower(name.as_str());
        Some(DeclFact { name, name_lower, byte: offsets[from] })
    } else {
        None
    }
}

/// The declarations of a text in which strings and comments are blanked.
pub fn scan_declarations_with_pos(cleaned: &str) -> (r: Vec<DeclFact>)
    ensures
        decl_views(r@) == decls_of(cleaned@),
        forall|i: int| 0 <= i < r.len() ==> (#[trigger] r[i]).name_lower@ == text::lowercase(r[i].name@),
{
    let chars = chars_of(cleaned);
    let offsets = byte_offsets(cleaned, &chars);
    let mut out: Vec<DeclFact> = Vec::new();
    let mut start: usize = 0;
    assert(decl_views(out@) + decls_of(cleaned@) =~= decls_of(cleaned@));
    while start < chars.len()
        invariant
            chars@ == cleaned@,
            offsets.len() == chars.len() + 1,
            forall|k: int| 0 <= k <= chars.len() ==> #[trigger] offsets[k] == text::byte_at(cleaned@, k),
            forall|i: int|
                0 <= i < out.len() ==> (#[trigger] out[i]).name_lower@ == text::lowercase(out[i].name@),
            decl_views(out@) + decls_from(cleaned@, start as int) == decls_of(cleaned@),
        decreases chars.len() - start,
    {
        let end = scan_line(&chars, start);
        let ghost before = decl_views(out@);
        let ghost rest = if end < chars.len() {
            decls_from(cleaned@, end + 1)
        } else {
            seq![]
        };
        let ghost one = some_decl(decl_on_line(cleaned@, start as int, end as int));
        if let Some(d) = read_declaration(&chars, &offsets, start, end, Ghost(cleaned@)) {
            out.push(d);
        }
        assert(decl_views(out@) =~= before + one);
        assert(before + (one + rest) =~= (before + one) + rest);
        if end >= chars.len() {
            assert((before + one) + rest =~= before + one);
            return out;
        }
        start = end + 1;
    }
    assert(decl_views(out@) + Seq::<DeclView>::empty() =~= decl_views(out@));
    out
}

/// What is said of a procedure whose name is a keyword.
pub open spec fn keyword_message(name: Seq<char>) -> Seq<char> {
    "'"@ + name
        + "' — ключевое слово языка, платформа не примет его как имя процедуры («Ожидается имя процедуры»). Переименуйте, например '"@
        + name + "Команда'."@
}

/// What is said of a procedure whose name the platform rejects.
pub open spec fn rejected_message(name: Seq<char>) -> Seq<char> {
    "'"@ + name
        + "' платформа не принимает как имя процедуры («Ожидается имя процедуры») — проверено на реальных обработках. Переименуйте, например '"@
        + name + "Команда'."@
}

/// What is said of a second declaration of a name.
pub open spec fn duplicate_message(name: Seq<char>, line: nat) -> Seq<char> {
    "Процедура или функция '"@ + name + "' уже объявлена в этом модуле (строка "@ + text::decimal(line)
        + "). Платформа откажется компилировать модуль."@
}

/// The finding that the name of a declaration makes by itself.
pub open spec fn reserved_finding(src: Seq<char>, d: DeclView) -> Option<findings::FindingView> {
    let lower = text::lowercase(d.name);
    if keyword(lower) {
        Some(
            findings::finding_at(
                src,
                d.byte,
                ExprErrorKind::ReservedProcedureName,
                keyword_message(d.name),
                Confidence::High,
                None,
            ),
        )
    } else if platform_rejected(lower) {
        Some(
            findings::finding_at(
                src,
                d.byte,
                ExprErrorKind::ReservedProcedureName,
                rejected_message(d.name),
                Confidence::High,
                None,
            ),
        )
    } else {
        None
    }
}

/// The first declaration, from number `k` on, of a name in lower case.
pub open spec fn first_decl(decls: Seq<DeclView>, lower: Seq<char>, k: int) -> int
    decreases decls.len() - k,
{
    if 0 <= k < decls.len() && text::lowercase(decls[k].name) != lower {
        first_decl(decls, lower, k + 1)
    } else {
        k
    }
}

/// The finding that declaration number `i` makes where an earlier one has the same name,
/// whatever the letter case.
pub open spec fn duplicate_finding(src: Seq<char>, decls: Seq<DeclView>, i: int) -> Option<
    findings::FindingView,
> {
    let first = first_decl(decls, text::lowercase(decls[i].name), 0);
    if first < i {
        Some(
            findings::finding_at(
                src,
                decls[i].byte,
                ExprErrorKind::DuplicateDeclaration,
                duplicate_message(decls[i].name, findings::position(src, decls[first].byte).0),
                Confidence::High,
                None,
            ),
        )
    } else {
        None
    }
}

/// The findings of the first `n` declarations.
pub open spec fn declaration_findings(src: Seq<char>, decls: Seq<DeclView>, n: int) -> Seq<
    findings::FindingView,
>
    decreases n,
{
    if n <= 0 {
        seq![]
    } else {
        declaration_findings(src, decls, n - 1) + findings::some_finding(
            reserved_finding(src, decls[n - 1]),
        ) + findings::some_finding(duplicate_finding(src, decls, n - 1))
    }
}

fn check_reserved(src: &str, d: &DeclFact) -> (r: Option<ExprError>)
    requires
        findings::countable(src@),
        d.name_lower@ == text::lowercase(d.name@),
    ensures
        findings::opt_finding(r) == reserved_finding(
            src@,
            DeclView { name: d.name@, byte: d.byte as nat },
        ),
{
    let name = d.name.as_str();
    let lower = d.name_lower.as_str();
    let mut message = "'".to_owned();
    message.append(name);
    if is_keyword(lower) {
        message.append(
            "' — ключевое слово языка, платформа не примет его как имя процедуры («Ожидается имя процедуры»). Переименуйте, например '",
        );
    } else if same_text(lower, "найти") {
        message.append(
            "' платформа не принимает как имя процедуры («Ожидается имя процедуры») — проверено на реальных обработках. Переименуйте, например '",
        );
    } else {
        return None;
    }
    message.append(name);
    message.append("Команда'.");
    Some(
        ExprError::at(
            src,
            d.byte,
            ExprErrorKind::ReservedProcedureName,
            message,
            Confidence::High,
            None,
        ),
    )
}

fn check_duplicate(src: &str, decls: &Vec<DeclFact>, i: usize) -> (r: Option<ExprError>)
    requires
        findings::countable(src@),
        i < decls.len(),
        forall|k: int|
            0 <= k < decls.len() ==> (#[trigger] decls[k]).name_lower@ == text::lowercase(decls[k].name@),
    ensures
        findings::opt_finding(r) == duplicate_finding(src@, decl_views(decls@), i as int),
{
    let ghost views = decl_views(decls@);
    let lower = decls[i].name_lower.as_str();
    let mut first: usize = 0;
    while first < i && !same_text(decls[first].name_lower.as_str(), lower)
        invariant
            views == decl_views(decls@),
            i < decls.len(),
            forall|k: int|
                0 <= k < decls.len() ==> (#[trigger] decls[k]).name_lower@ == text::lowercase(
                    decls[k].name@,
                ),
            lower@ == text::lowercase(views[i as int].name),
            first <= i,
            first_decl(views, lower@, 0) == first_decl(views, lower@, first as int),
        decreases i - first,
    {
        first += 1;
    }
    if first == i {
        assert(views[i as int].name == decls[i as int].name@);
        return None;
    }
    let (line, _) = pos_at(src, decls[first].byte);
    let mut message = "Процедура или функция '".to_owned();
    message.append(decls[i].name.as_str());
    message.append("' уже объявлена в этом модуле (строка ");
    message.append(decimal_of(line as usize).as_str());
    message.append("). Платформа откажется компилировать модуль.");
    Some(
        ExprError::at(
            src,
            decls[i].byte,
            ExprErrorKind::DuplicateDeclaration,
            message,
            Confidence::High,
            None,
        ),
    )
}

/// Check the names of the declared procedures and functions: no keyword, no name that the
/// platform rejects, and no name twice.
pub fn check_declarations(source: &str, cleaned: &str, errors: &mut Vec<ExprError>)
    requires
        findings::countable(source@),
    ensures
        findings::finding_views(final(errors)@) == findings::finding_views(old(errors)@)
            + declaration_findings(
            source@,
            decls_of(cleaned@),
            decls_of(cleaned@).len() as int,
        ),
{
    let decls = scan_declarations_with_pos(cleaned);
    let ghost views = decl_views(decls@);
    let ghost start = findings::finding_views(errors@);
    assert(start + Seq::<findings::FindingView>::empty() =~= start);
    let mut i: usize = 0;
    while i < decls.len()
        invariant
            findings::countable(source@),
            views == decl_views(decls@),
            forall|k: int|
                0 <= k < decls.len() ==> (#[trigger] decls[k]).name_lower@ == text::lowercase(
                    decls[k].name@,
                ),
            i <= decls.len(),
            findings::finding_views(errors@) == start + declaration_findings(source@, views, i as int),
        decreases decls.len() - i,
    {
        let ghost before = declaration_findings(source@, views, i as int);
        let reserved = check_reserved(source, &decls[i]);
        let ghost one = findings::some_finding(findings::opt_finding(reserved));
        let duplicate = check_duplicate(source, &decls, i);
        let ghost two = findings::some_finding(findings::opt_finding(duplicate));
        add_finding(errors, reserved);
        add_finding(errors, duplicate);
        assert(((start + before) + one) + two =~= start + ((before + one) + two));
        i += 1;
    }
}

proof fn lemma_first_decl(decls: Seq<DeclView>, lower: Seq<char>, k: int)
    requires
        0 <= k <= decls.len(),
    ensures
        k <= first_decl(decls, lower, k) <= decls.len(),
        forall|j: int| k <= j < first_decl(decls, lower, k) ==> text::lowercase((#[trigger] decls[j]).name) != lower,
        first_decl(decls, lower, k) < decls.len() ==> text::lowercase(
            decls[first_decl(decls, lower, k)].name,
        ) == lower,
    decreases decls.len() - k,
{
    if k < decls.len() && text::lowercase(decls[k].name) != lower {
        lemma_first_decl(decls, lower, k + 1);
    }
}

/// A declaration is reported as a second one exactly where an earlier one has its name,
/// whatever the letter case.
pub proof fn law_duplicate_iff_declared_before(src: Seq<char>, decls: Seq<DeclView>, i: int)
    requires
        0 <= i < decls.len(),
    ensures
        duplicate_finding(src, decls, i) is Some <==> exists|j: int|
            0 <= j < i && text::lowercase((#[trigger] decls[j]).name) == text::lowercase(decls[i].name),
{
    lemma_first_decl(decls, text::lowercase(decls[i].name), 0);
}

/// The words of a module alternate: a header, its end, a header, its end.
pub open spec fn balanced(toks: Seq<(nat, Token)>, k: int, open: bool) -> bool
    decreases toks.len() - k,
{
    if k < 0 || k >= toks.len() {
        !open
    } else if open {
        toks[k].1 == Token::End && balanced(toks, k + 1, false)
    } else {
        toks[k].1 == Token::Header && balanced(toks, k + 1, true)
    }
}

/// The blocks of a module are reported exactly where headers and ends do not alternate.
pub proof fn law_unbalanced_iff_reported(
    src: Seq<char>,
    toks: Seq<(nat, Token)>,
    k: int,
    open: Option<nat>,
)
    requires
        0 <= k <= toks.len(),
    ensures
        structure_findings(src, toks, k, open).len() == 0 <==> balanced(toks, k, open is Some),
    decreases toks.len() - k,
{
    if k < toks.len() {
        let next = match (toks[k].1, open) {
            (Token::Header, Some(_)) => open,
            (Token::Header, None) => Some(toks[k].0),
            _ => None,
        };
        law_unbalanced_iff_reported(src, toks, k + 1, next);
    }
}

/// The characters from `start` up to `end` stand in another text `d` further.
spec fn stands_at(s: Seq<char>, t: Seq<char>, d: int, start: int, end: int) -> bool {
    &&& 0 <= start <= end <= s.len()
    &&& 0 <= d
    &&& d + end <= t.len()
    &&& forall|k: int| start <= k < end ==> t[d + k] == #[trigger] s[k]
}

proof fn lemma_same_lead(s: Seq<char>, t: Seq<char>, d: int, i: int, end: int)
    requires
        stands_at(s, t, d, i, end),
    ensures
        past_lead(t, d + i, d + end) == d + past_lead(s, i, end),
        i <= past_lead(s, i, end) <= end,
    decreases end - i,
{
    if i < end {
        assert(t[d + i] == s[i]);
        lemma_same_lead(s, t, d, i + 1, end);
    }
}

proof fn lemma_same_front(s: Seq<char>, t: Seq<char>, d: int, i: int, end: int)
    requires
        stands_at(s, t, d, i, end),
    ensures
        text::front(Edge::Space, t, d + i, d + end) == d + text::front(Edge::Space, s, i, end),
        i <= text::front(Edge::Space, s, i, end) <= end,
    decreases end - i,
{
    if i < end {
        assert(t[d + i] == s[i]);
        lemma_same_front(s, t, d, i + 1, end);
    }
}

proof fn lemma_same_back(s: Seq<char>, t: Seq<char>, d: int, i: int, end: int)
    requires
        stands_at(s, t, d, i, end),
    ensures
        text::back(Edge::Space, t, d + i, d + end) == d + text::back(Edge::Space, s, i, end),
        i <= text::back(Edge::Space, s, i, end) <= end,
    decreases end - i,
{
    if i < end {
        assert(t[d + (end - 1)] == s[end - 1]);
        lemma_same_back(s, t, d, i, end - 1);
    }
}

proof fn lemma_same_bracket(s: Seq<char>, t: Seq<char>, d: int, i: int, end: int)
    requires
        stands_at(s, t, d, i, end),
    ensures
        bracket_at(t, d + i, d + end) == d + bracket_at(s, i, end),
        i <= bracket_at(s, i, end) <= end,
    decreases end - i,
{
    if i < end {
        assert(t[d + i] == s[i]);
        lemma_same_bracket(s, t, d, i + 1, end);
    }
}

proof fn lemma_same_word(s: Seq<char>, t: Seq<char>, d: int, i: int, end: int, word: Seq<char>)
    requires
        stands_at(s, t, d, i, end),
    ensures
        spaced_word(t, d + i, d + end, word) == spaced_word(s, i, end, word),
{
    if i + word.len() < end {
        assert(t.subrange(d + i, d + i + word.len()) =~= s.subrange(i, i + word.len()));
        assert(t[d + (i + word.len())] == s[i + word.len()]);
    }
}

#[verifier::rlimit(40)]
proof fn lemma_same_decl(s: Seq<char>, t: Seq<char>, d: int, start: int, end: int)
    requires
        stands_at(s, t, d, start, end),
    ensures
        match decl_on_line(s, start, end) {
            Some(v) => exists|from: int|
                start <= from < end && v.byte == #[trigger] text::byte_at(s, from) && decl_on_line(
                    t,
                    d + start,
                    d + end,
                ) == Some(DeclView { name: v.name, byte: text::byte_at(t, d + from) }),
            None => decl_on_line(t, d + start, d + end) is None,
        },
{
    let lead = past_lead(s, start, end);
    lemma_same_lead(s, t, d, start, end);
    assert(stands_at(s, t, d, lead, end));
    lemma_same_word(s, t, d, lead, end, "асинх"@);
    lemma_same_word(s, t, d, lead, end, "async"@);
    let word = if spaced_word(s, lead, end, "асинх"@) {
        "асинх"@
    } else {
        "async"@
    };
    if spaced_word(s, lead, end, word) {
        lemma_same_front(s, t, d, lead + word.len(), end);
    }
    let head = past_async(s, lead, end);
    assert(past_async(t, d + lead, d + end) == d + head);
    assert(start <= head <= end);
    assert(stands_at(s, t, d, head, end));
    lemma_same_word(s, t, d, head, end, "процедура"@);
    lemma_same_word(s, t, d, head, end, "функция"@);
    lemma_same_word(s, t, d, head, end, "procedure"@);
    lemma_same_word(s, t, d, head, end, "function"@);
    if let Some(i) = past_header(s, head, end) {
        assert(past_header(t, d + head, d + end) == Some(d + i));
        assert(stands_at(s, t, d, i, end));
        lemma_same_bracket(s, t, d, i, end);
        let bracket = bracket_at(s, i, end);
        assert(stands_at(s, t, d, i, bracket));
        lemma_same_front(s, t, d, i, bracket);
        let from = text::front(Edge::Space, s, i, bracket);
        assert(stands_at(s, t, d, from, bracket));
        lemma_same_back(s, t, d, from, bracket);
        let to = text::back(Edge::Space, s, from, bracket);
        assert(t.subrange(d + from, d + to) =~= s.subrange(from, to));
        assert(unbroken(t, d + from, d + to) == unbroken(s, from, to)) by {
            if unbroken(s, from, to) {
                assert forall|k: int| d + from <= k < d + to implies !text::is_space(#[trigger] t[k]) by {
                    assert(t[d + (k - d)] == s[k - d]);
                }
            }
            if unbroken(t, d + from, d + to) {
                assert forall|k: int| from <= k < to implies !text::is_space(#[trigger] s[k]) by {
                    assert(t[d + k] == s[k]);
                }
            }
        }
        if bracket < end && from < to && unbroken(s, from, to) {
            assert(decl_on_line(s, start, end)->0.byte == text::byte_at(s, from));
        }
    }
}

/// The declarations of a text that `bytes` bytes are put before.
pub open spec fn moved(decls: Seq<DeclView>, bytes: nat) -> Seq<DeclView> {
    decls.map_values(|d: DeclView| DeclView { name: d.name, byte: d.byte + bytes })
}

proof fn lemma_decls_shift(pre: Seq<char>, s: Seq<char>, start: int)
    requires
        0 <= start <= s.len(),
    ensures
        decls_from(pre + s, pre.len() + start) == moved(decls_from(s, start), text::byte_len(pre)),
    decreases s.len() - start,
{
    let t = pre + s;
    let n = pre.len() as int;
    if start < s.len() {
        let end = text::line_end(s, start);
        text::lemma_line_end(s, start);
        text::lemma_line_end_shift(pre, s, start);
        assert(stands_at(s, t, n, start, end));
        lemma_same_decl(s, t, n, start, end);
        if let Some(v) = decl_on_line(s, start, end) {
            let from = choose|from: int|
                start <= from < end && v.byte == #[trigger] text::byte_at(s, from) && decl_on_line(
                    t,
                    n + start,
                    n + end,
                ) == Some(DeclView { name: v.name, byte: text::byte_at(t, n + from) });
            text::lemma_byte_at_shift(pre, s, from);
        }
        if end < s.len() {
            lemma_decls_shift(pre, s, end + 1);
        }
        let rest = if end < s.len() {
            decls_from(s, end + 1)
        } else {
            seq![]
        };
        let one = some_decl(decl_on_line(s, start, end));
        assert(moved(one + rest, text::byte_len(pre)) =~= moved(one, text::byte_len(pre)) + moved(
            rest,
            text::byte_len(pre),
        ));
        assert(moved(one, text::byte_len(pre)) =~= some_decl(decl_on_line(t, n + start, n + end)));
    } else {
        assert(moved(decls_from(s, start), text::byte_len(pre)) =~= seq![]);
    }
}

/// The lines of a module are read one by one: a line declares what it declares alone, and the
/// lines behind it declare what they do without it, its bytes further.
pub proof fn law_declaration_lines_are_independent(line: Seq<char>, rest: Seq<char>)
    requires
        forall|k: int| 0 <= k < line.len() ==> #[trigger] line[k] != '\n',
    ensures
        decls_of(line.push('\n') + rest) == some_decl(decl_on_line(line, 0, line.len() as int)) + moved(
            decls_of(rest),
            text::byte_len(line) + 1,
        ),
{
    let pre = line.push('\n');
    let s = pre + rest;
    let n = line.len() as int;
    assert forall|k: int| 0 <= k < n implies #[trigger] s[k] != '\n' by {
        assert(s[k] == line[k]);
    }
    assert(s[n] == '\n');
    text::lemma_line_end_is(s, 0, n);
    assert(stands_at(line, s, 0, 0, n));
    lemma_same_decl(line, s, 0, 0, n);
    if let Some(v) = decl_on_line(line, 0, n) {
        let from = choose|from: int|
            0 <= from < n && v.byte == #[trigger] text::byte_at(line, from) && decl_on_line(s, 0, n)
                == Some(DeclView { name: v.name, byte: text::byte_at(s, from) });
        assert(s.take(from) =~= line.take(from));
    }
    lemma_decls_shift(pre, rest, 0);
    assert(pre.drop_last() =~= line);
    assert(text::byte_len(pre) == text::byte_len(line) + 1);
}

/// A header declares its name: the word for a procedure or a function, whatever its letter case, a
/// blank, the name and a bracket, whatever follows. The name is told as it is written, with the
/// byte at which it starts.
#[verifier::rlimit(40)]
pub proof fn law_header_declares_its_name(word: Seq<char>, name: Seq<char>, rest: Seq<char>)
    requires
        text::plain_text(word),
        text::plain_text(name),
        text::plain_text(rest),
        text::lowercase(word) == "процедура"@ || text::lowercase(word) == "функция"@ || text::lowercase(word)
            == "procedure"@ || text::lowercase(word) == "function"@,
        name.len() > 0,
        forall|k: int| 0 <= k < name.len() ==> !text::is_space(#[trigger] name[k]) && name[k] != '(',
    ensures
        ({
            let line = word.push(' ') + name.push('(') + rest;
            decl_on_line(line, 0, line.len() as int) == Some(
                DeclView { name, byte: text::byte_len(word) + 1 },
            )
        }),
{
    let line = word.push(' ') + name.push('(') + rest;
    let end = line.len() as int;
    let w = word.len() as int;
    let b = w + 1 + name.len();
    text::law_lowering_twice_changes_nothing(word);
    reveal_strlit("процедура");
    reveal_strlit("функция");
    reveal_strlit("procedure");
    reveal_strlit("function");
    reveal_strlit("асинх");
    reveal_strlit("async");
    reveal(text::is_space);
    assert(text::plain(' ') && text::plain('('));
    assert forall|k: int| 0 <= k < line.len() implies text::plain(#[trigger] line[k]) by {
        if k < w {
            assert(line[k] == word[k]);
        } else if k == w {
        } else if k < b {
            assert(line[k] == name[k - w - 1]);
        } else if k == b {
        } else {
            assert(line[k] == rest[k - b - 1]);
        }
    }
    assert(line[0] == word[0]);
    assert(text::lowercase(word)[0] == text::lower_form(word[0]));
    assert(!text::is_space(line[0]) && line[0] != '\u{FEFF}');
    assert(past_lead(line, 0, end) == 0);
    assert forall|other: Seq<char>|
        0 < other.len() <= w + 1 && other[0] != text::lower_form(word[0]) implies !(#[trigger] spaced_word(
        line,
        0,
        end,
        other,
    )) by {
        let part = line.subrange(0, other.len() as int);
        assert(text::plain_text(part)) by {
            assert forall|k: int| 0 <= k < part.len() implies text::plain(#[trigger] part[k]) by {
                assert(part[k] == line[k]);
            }
        }
        text::law_lowering_twice_changes_nothing(part);
        assert(text::lowercase(part)[0] == text::lower_form(part[0]));
    }
    assert(past_async(line, 0, end) == 0);
    assert(line.subrange(0, w) =~= word);
    assert(line[w] == ' ');
    assert(spaced_word(line, 0, end, text::lowercase(word)));
    if text::lowercase(word) == "функция"@ {
        lemma_other_header(line, word, "процедура"@);
    }
    if text::lowercase(word) == "function"@ {
        lemma_other_header(line, word, "процедура"@);
        lemma_other_header(line, word, "функция"@);
        lemma_other_header(line, word, "procedure"@);
    }
    if text::lowercase(word) == "procedure"@ {
        lemma_other_header(line, word, "процедура"@);
        lemma_other_header(line, word, "функция"@);
    }
    assert(past_header(line, 0, end) == Some(w));
    lemma_bracket_is(line, w, end, b);
    assert(line[w + 1] == name[0]);
    assert(text::front(Edge::Space, line, w + 1, b) == w + 1);
    assert(text::front(Edge::Space, line, w, b) == w + 1);
    assert(line[b - 1] == name[name.len() - 1]);
    assert(text::back(Edge::Space, line, w + 1, b) == b);
    assert(line.subrange(w + 1, b) =~= name);
    assert forall|k: int| w + 1 <= k < b implies !text::is_space(#[trigger] line[k]) by {
        assert(line[k] == name[k - w - 1]);
    }
    assert(line.take(w + 1) =~= word.push(' '));
    assert(word.push(' ').drop_last() =~= word);
}

proof fn lemma_other_header(line: Seq<char>, word: Seq<char>, other: Seq<char>)
    requires
        text::plain_text(line),
        word.len() > 0,
        line.len() > 0,
        line[0] == word[0],
        other.len() > 0,
        other[0] != text::lower_form(word[0]),
    ensures
        !spaced_word(line, 0, line.len() as int, other),
{
    if other.len() < line.len() {
        let part = line.subrange(0, other.len() as int);
        assert(text::plain_text(part)) by {
            assert forall|k: int| 0 <= k < part.len() implies text::plain(#[trigger] part[k]) by {
                assert(part[k] == line[k]);
            }
        }
        text::law_lowering_twice_changes_nothing(part);
        assert(text::lowercase(part)[0] == text::lower_form(part[0]));
    }
}

proof fn lemma_bracket_is(s: Seq<char>, i: int, end: int, at: int)
    requires
        0 <= i <= at < end <= s.len(),
        s[at] == '(',
        forall|k: int| i <= k < at ==> #[trigger] s[k] != '(',
    ensures
        bracket_at(s, i, end) == at,
    decreases at - i,
{
    if i < at {
        lemma_bracket_is(s, i + 1, end, at);
    }
}

/// A second declaration is told the line of the first one of the name, whatever its letter case,
/// and stands at its own name.
pub proof fn law_duplicate_names_the_first_line(src: Seq<char>, decls: Seq<DeclView>, i: int, j: int)
    requires
        0 <= j < i < decls.len(),
        text::lowercase(decls[j].name) == text::lowercase(decls[i].name),
        forall|k: int| 0 <= k < j ==> text::lowercase((#[trigger] decls[k]).name) != text::lowercase(decls[i].name),
    ensures
        duplicate_finding(src, decls, i) matches Some(f) && f.kind == ExprErrorKind::DuplicateDeclaration
            && f.confidence == Confidence::High && (f.line, f.col) == findings::position(src, decls[i].byte)
            && f.message == duplicate_message(
            decls[i].name,
            findings::position(src, decls[j].byte).0,
        ),
{
    let lower = text::lowercase(decls[i].name);
    lemma_first_decl(decls, lower, 0);
    let first = first_decl(decls, lower, 0);
    if first < j {
        assert(text::lowercase(decls[first].name) == lower);
    }
}

/// A finding stands among those of the declarations exactly where some declaration has a name
/// that is reserved or that an earlier one has.
pub proof fn law_declarations_are_checked_one_by_one(
    src: Seq<char>,
    decls: Seq<DeclView>,
    n: int,
    f: findings::FindingView,
)
    requires
        0 <= n <= decls.len(),
    ensures
        declaration_findings(src, decls, n).contains(f) <==> exists|i: int|
            0 <= i < n && (reserved_finding(src, #[trigger] decls[i]) == Some(f) || duplicate_finding(
                src,
                decls,
                i,
            ) == Some(f)),
        declaration_findings(src, decls, n).len() <= 2 * n,
    decreases n,
{
    if n > 0 {
        law_declarations_are_checked_one_by_one(src, decls, n - 1, f);
        let before = declaration_findings(src, decls, n - 1);
        let with_reserved = before + findings::some_finding(reserved_finding(src, decls[n - 1]));
        findings::lemma_one_more(before, reserved_finding(src, decls[n - 1]));
        findings::lemma_one_more(with_reserved, duplicate_finding(src, decls, n - 1));
        assert(declaration_findings(src, decls, n).contains(f) <==> with_reserved.contains(f)
            || duplicate_finding(src, decls, n - 1) == Some(f));
        assert(with_reserved.contains(f) <==> before.contains(f) || reserved_finding(src, decls[n - 1])
            == Some(f));
        assert(decls[n - 1] == decls[n - 1]);
    }
}

/// A word of the language, and the one word that the platform refuses beside them, is reported as
/// the name of a procedure whatever its letter case, at the name; every other name is silent.
pub proof fn law_reserved_name_is_reported(src: Seq<char>, d: DeclView)
    ensures
        reserved_finding(src, d) is Some <==> keyword(text::lowercase(d.name)) || text::lowercase(d.name)
            == "найти"@,
        reserved_finding(src, d) matches Some(f) ==> f.kind == ExprErrorKind::ReservedProcedureName
            && f.confidence == Confidence::High && (f.line, f.col) == findings::position(src, d.byte),
{
}

/// Blocks that are complete say nothing of those behind them: what is found behind a list of
/// headers with their ends is what is found without it.
pub proof fn law_complete_blocks_do_not_matter(src: Seq<char>, toks: Seq<(nat, Token)>, k: int, n: int)
    requires
        0 <= k,
        0 <= n,
        k + 2 * n <= toks.len(),
        forall|i: int| 0 <= i < n ==> (#[trigger] toks[k + 2 * i]).1 == Token::Header,
        forall|i: int| 0 <= i < n ==> (#[trigger] toks[k + 2 * i + 1]).1 == Token::End,
    ensures
        structure_findings(src, toks, k, None) == structure_findings(src, toks, k + 2 * n, None),
    decreases n,
{
    if n > 0 {
        assert(toks[k + 2 * 0].1 == Token::Header);
        assert(toks[k + 2 * 0 + 1].1 == Token::End);
        assert forall|i: int| 0 <= i < n - 1 implies (#[trigger] toks[k + 2 + 2 * i]).1 == Token::Header by {
            assert(toks[k + 2 * (i + 1)].1 == Token::Header);
        }
        assert forall|i: int| 0 <= i < n - 1 implies (#[trigger] toks[k + 2 + 2 * i + 1]).1 == Token::End by {
            assert(toks[k + 2 * (i + 1) + 1].1 == Token::End);
        }
        law_complete_blocks_do_not_matter(src, toks, k + 2, n - 1);
        reveal_with_fuel(structure_findings, 3);
    }
}

/// Where a block that is not complete is reported. An end without a header is reported at itself.
/// A header before whose end another one stands is reported at itself, not at the other one, and
/// the next end closes it. A header that no end follows is reported at itself.
pub proof fn law_incomplete_block_is_reported_at_itself(src: Seq<char>, a: nat, b: nat, c: nat)
    ensures
        structure_findings(src, seq![(a, Token::End)], 0, None) == seq![
            block_finding(src, a, extra_end_message()),
        ],
        structure_findings(src, seq![(a, Token::Header)], 0, None) == seq![
            block_finding(src, a, open_end_message()),
        ],
        structure_findings(src, seq![(a, Token::Header), (b, Token::Header), (c, Token::End)], 0, None)
            == seq![block_finding(src, a, unclosed_message())],
        structure_findings(src, seq![(a, Token::Header), (b, Token::End), (c, Token::End)], 0, None) == seq![
            block_finding(src, c, extra_end_message()),
        ],
        (block_finding(src, a, extra_end_message()).line, block_finding(src, a, extra_end_message()).col)
            == findings::position(src, a),
        block_finding(src, a, unclosed_message()).confidence == Confidence::High,
{
    reveal_with_fuel(structure_findings, 5);
    assert(structure_findings(src, seq![(a, Token::End)], 0, None) =~= seq![
        block_finding(src, a, extra_end_message()),
    ]);
    assert(structure_findings(
        src,
        seq![(a, Token::Header), (b, Token::Header), (c, Token::End)],
        0,
        None,
    ) =~= seq![block_finding(src, a, unclosed_message())]);
    assert(structure_findings(src, seq![(a, Token::Header), (b, Token::End), (c, Token::End)], 0, None)
        =~= seq![block_finding(src, c, extra_end_message())]);
}

/// The words of the language that cannot name a procedure, in Russian and in English.
pub open spec fn keywords_in_two_languages() -> Seq<(Seq<char>, Seq<char>)> {
    seq![
        ("если"@, "if"@),
        ("тогда"@, "then"@),
        ("иначе"@, "else"@),
        ("иначеесли"@, "elsif"@),
        ("конецесли"@, "endif"@),
        ("для"@, "for"@),
        ("каждого"@, "each"@),
        ("из"@, "in"@),
        ("по"@, "to"@),
        ("цикл"@, "do"@),
        ("конеццикла"@, "enddo"@),
        ("пока"@, "while"@),
        ("прервать"@, "break"@),
        ("продолжить"@, "continue"@),
        ("процедура"@, "procedure"@),
        ("функция"@, "function"@),
        ("конецпроцедуры"@, "endprocedure"@),
        ("конецфункции"@, "endfunction"@),
        ("перем"@, "var"@),
        ("возврат"@, "return"@),
        ("попытка"@, "try"@),
        ("исключение"@, "except"@),
        ("конецпопытки"@, "endtry"@),
        ("вызватьисключение"@, "raise"@),
        ("экспорт"@, "export"@),
        ("знач"@, "val"@),
        ("новый"@, "new"@),
        ("выполнить"@, "execute"@),
        ("перейти"@, "goto"@),
        ("и"@, "and"@),
        ("или"@, "or"@),
        ("не"@, "not"@),
        ("истина"@, "true"@),
        ("ложь"@, "false"@),
        ("неопределено"@, "undefined"@),
        ("null"@, "null"@),
    ]
}

/// A word of the language is reserved in both languages, and no other word is.
#[verifier::rlimit(40)]
pub proof fn law_keywords_are_reserved_in_both_languages(i: int, word: Seq<char>)
    requires
        0 <= i < keywords_in_two_languages().len(),
    ensures
        keyword(keywords_in_two_languages()[i].0) && keyword(keywords_in_two_languages()[i].1),
        keyword(word) ==> exists|k: int|
            0 <= k < keywords_in_two_languages().len() && ((#[trigger] keywords_in_two_languages()[k]).0 == word
                || keywords_in_two_languages()[k].1 == word),
{
    let all = keywords_in_two_languages();
    assert(all.len() == 36);
    if keyword(word) {
        assert(all[0] == ("если"@, "if"@));
        assert(all[1] == ("тогда"@, "then"@));
        assert(all[2] == ("иначе"@, "else"@));
        assert(all[3] == ("иначеесли"@, "elsif"@));
        assert(all[4] == ("конецесли"@, "endif"@));
        assert(all[5] == ("для"@, "for"@));
        assert(all[6] == ("каждого"@, "each"@));
        assert(all[7] == ("из"@, "in"@));
        assert(all[8] == ("по"@, "to"@));
        assert(all[9] == ("цикл"@, "do"@));
        assert(all[10] == ("конеццикла"@, "enddo"@));
        assert(all[11] == ("пока"@, "while"@));
        assert(all[12] == ("прервать"@, "break"@));
        assert(all[13] == ("продолжить"@, "continue"@));
        assert(all[14] == ("процедура"@, "procedure"@));
        assert(all[15] == ("функция"@, "function"@));
        assert(all[16] == ("конецпроцедуры"@, "endprocedure"@));
        assert(all[17] == ("конецфункции"@, "endfunction"@));
        assert(all[18] == ("перем"@, "var"@));
        assert(all[19] == ("возврат"@, "return"@));
        assert(all[20] == ("попытка"@, "try"@));
        assert(all[21] == ("исключение"@, "except"@));
        assert(all[22] == ("конецпопытки"@, "endtry"@));
        assert(all[23] == ("вызватьисключение"@, "raise"@));
        assert(all[24] == ("экспорт"@, "export"@));
        assert(all[25] == ("знач"@, "val"@));
        assert(all[26] == ("новый"@, "new"@));
        assert(all[27] == ("выполнить"@, "execute"@));
        assert(all[28] == ("перейти"@, "goto"@));
        assert(all[29] == ("и"@, "and"@));
        assert(all[30] == ("или"@, "or"@));
        assert(all[31] == ("не"@, "not"@));
        assert(all[32] == ("истина"@, "true"@));
        assert(all[33] == ("ложь"@, "false"@));
        assert(all[34] == ("неопределено"@, "undefined"@));
        assert(all[35] == ("null"@, "null"@));
    }
}

/// The words that open and close a procedure are words of the language; those that close one end
/// it, and those that open one begin it.
pub proof fn law_words_of_blocks(k: int)
    requires
        0 <= k < 8,
    ensures
        keyword(structure_word(k)),
        word_token(k) == Token::End <==> (structure_word(k) == "конецпроцедуры"@ || structure_word(k)
            == "конецфункции"@ || structure_word(k) == "endprocedure"@ || structure_word(k) == "endfunction"@),
{
    reveal_strlit("конецпроцедуры");
    reveal_strlit("конецфункции");
    reveal_strlit("endprocedure");
    reveal_strlit("endfunction");
    reveal_strlit("процедура");
    reveal_strlit("функция");
    reveal_strlit("procedure");
    reveal_strlit("function");
    assert("конецпроцедуры"@.len() == 14 && "конецфункции"@.len() == 12 && "endprocedure"@.len() == 12);
    assert("endfunction"@.len() == 11 && "процедура"@.len() == 9 && "функция"@.len() == 7);
    assert("procedure"@.len() == 9 && "function"@.len() == 8);
}

proof fn lemma_word_at(s: Seq<char>, i: int, k: int, from: int)
    requires
        0 <= i <= s.len(),
        0 <= from <= k < 8,
        text::starts_with(s.subrange(i, s.len() as int), structure_word(k)),
    ensures
        word_at(s, i, from) == Some(k),
    decreases k - from,
{
    if from < k {
        let t = s.subrange(i, s.len() as int);
        reveal_strlit("конецпроцедуры");
        reveal_strlit("конецфункции");
        reveal_strlit("endprocedure");
        reveal_strlit("endfunction");
        reveal_strlit("процедура");
        reveal_strlit("функция");
        reveal_strlit("procedure");
        reveal_strlit("function");
        let a = structure_word(from);
        let b = structure_word(k);
        assert(a.len() >= 7 && b.len() >= 7);
        assert(a[0] != b[0] || a[3] != b[3] || a[5] != b[5]) by {
            assert("конецпроцедуры"@[0] == 'к' && "конецпроцедуры"@[5] == 'п');
            assert("конецфункции"@[0] == 'к' && "конецфункции"@[5] == 'ф');
            assert("endprocedure"@[0] == 'e' && "endprocedure"@[3] == 'p');
            assert("endfunction"@[0] == 'e' && "endfunction"@[3] == 'f');
            assert("процедура"@[0] == 'п');
            assert("функция"@[0] == 'ф');
            assert("procedure"@[0] == 'p');
            assert("function"@[0] == 'f');
        }
        if text::starts_with(t, a) {
            assert(t.subrange(0, a.len() as int)[0] == t[0] && t.subrange(0, b.len() as int)[0] == t[0]);
            assert(t.subrange(0, a.len() as int)[3] == t[3] && t.subrange(0, b.len() as int)[3] == t[3]);
            assert(t.subrange(0, a.len() as int)[5] == t[5] && t.subrange(0, b.len() as int)[5] == t[5]);
        }
        lemma_word_at(s, i, k, from + 1);
    }
}

/// A word of a block counts where a statement can start: at the start of the text, of a line or of
/// a statement. There a header or an end is seen at its first byte, whatever came before, and the
/// text is read on behind it; the word has to be whole.
pub proof fn law_word_of_a_block_is_seen(s: Seq<char>, i: int, k: int, prev_end: int)
    requires
        0 <= i < s.len(),
        0 <= k < 8,
        text::starts_with(s.subrange(i, s.len() as int), structure_word(k)),
        i == 0 || s[i - 1] == '\n' || s[i - 1] == '\r' || s[i - 1] == ';',
    ensures
        i + structure_word(k).len() == s.len() || !text::ident_char(s[i + structure_word(k).len()])
            ==> structure_from(s, i, prev_end) == seq![(text::byte_at(s, i), word_token(k))] + structure_from(
            s,
            i + structure_word(k).len(),
            i + structure_word(k).len(),
        ),
        i + structure_word(k).len() < s.len() && text::ident_char(s[i + structure_word(k).len()])
            ==> structure_from(s, i, prev_end) == structure_from(s, i + 1, prev_end),
{
    reveal(text::is_space);
    lemma_word_len(k);
    lemma_word_at(s, i, k, 0);
    if i > 0 {
        assert(!indent_char(s[i - 1]));
    }
    assert(before_indent(s, i) == i);
    assert(left_of(s, i) == i);
    assert(statement_starts(s, i, prev_end));
}

/// A word of a block in the middle of a statement is none: behind any character that is neither
/// white space nor the end of a line or of a statement.
pub proof fn law_word_in_a_statement_is_not_seen(s: Seq<char>, i: int, prev_end: int)
    requires
        0 < i < s.len(),
        i != prev_end,
        !text::is_space(s[i - 1]) && s[i - 1] != '\u{FEFF}' && s[i - 1] != ';' && s[i - 1] != '\n' && s[i
            - 1] != '\r',
    ensures
        structure_from(s, i, prev_end) == structure_from(s, i + 1, prev_end),
{
    assert(before_indent(s, i) == i);
    assert(left_of(s, i) == i);
    assert(!statement_starts(s, i, prev_end));
    if let Some(k) = word_at(s, i, 0) {
        lemma_word_at_some(s, i, 0);
        lemma_word_len(k);
    }
}

proof fn lemma_word_at_some(s: Seq<char>, i: int, k: int)
    requires
        0 <= k,
    ensures
        word_at(s, i, k) matches Some(w) ==> k <= w < 8,
    decreases 8 - k,
{
    if k < 8 {
        lemma_word_at_some(s, i, k + 1);
    }
}

/// A header that is not closed is reported once for each further header before its end, and always
/// at itself: the further ones open nothing.
pub proof fn law_open_block_is_reported_for_each_header(
    src: Seq<char>,
    toks: Seq<(nat, Token)>,
    k: int,
    n: nat,
    byte: nat,
)
    requires
        0 <= k,
        k + n <= toks.len(),
        forall|i: int| k <= i < k + n ==> (#[trigger] toks[i]).1 == Token::Header,
    ensures
        structure_findings(src, toks, k, Some(byte)) == Seq::new(
            n,
            |i: int| block_finding(src, byte, unclosed_message()),
        ) + structure_findings(src, toks, k + n, Some(byte)),
        k + n < toks.len() && toks[k + n].1 == Token::End ==> structure_findings(src, toks, k + n, Some(byte))
            == structure_findings(src, toks, k + n + 1, None),
        k + n == toks.len() ==> structure_findings(src, toks, k + n, Some(byte)) == seq![
            block_finding(src, byte, open_end_message()),
        ],
    decreases n,
{
    let one = block_finding(src, byte, unclosed_message());
    if n > 0 {
        assert(toks[k].1 == Token::Header);
        law_open_block_is_reported_for_each_header(src, toks, k + 1, (n - 1) as nat, byte);
        let rest = structure_findings(src, toks, k + n, Some(byte));
        assert(seq![one] + (Seq::new((n - 1) as nat, |i: int| one) + rest) =~= Seq::new(n, |i: int| one) + rest);
    } else {
        assert(Seq::new(0, |i: int| one) + structure_findings(src, toks, k, Some(byte)) =~= structure_findings(
            src,
            toks,
            k,
            Some(byte),
        ));
    }
}

/// What is said of a declaration names it as it is written, and the line of the first one.
pub proof fn law_messages_name_what_they_speak_of(name: Seq<char>, line: nat)
    ensures
        text::holds(keyword_message(name), name),
        text::holds(rejected_message(name), name),
        text::holds(duplicate_message(name, line), name),
        text::holds(duplicate_message(name, line), text::decimal(line)),
{
    assert(keyword_message(name) =~= ("'"@) + name + ("' — ключевое слово языка, платформа не примет его как имя процедуры («Ожидается имя процедуры»). Переименуйте, например '"@ + name + "Команда'."@));
    text::law_beginnings_and_ends("'"@, name, "' — ключевое слово языка, платформа не примет его как имя процедуры («Ожидается имя процедуры»). Переименуйте, например '"@ + name + "Команда'."@);
    assert(rejected_message(name) =~= ("'"@) + name + ("' платформа не принимает как имя процедуры («Ожидается имя процедуры») — проверено на реальных обработках. Переименуйте, например '"@ + name + "Команда'."@));
    text::law_beginnings_and_ends("'"@, name, "' платформа не принимает как имя процедуры («Ожидается имя процедуры») — проверено на реальных обработках. Переименуйте, например '"@ + name + "Команда'."@);
    assert(duplicate_message(name, line) =~= ("Процедура или функция '"@) + name + ("' уже объявлена в этом модуле (строка "@ + text::decimal(line) + "). Платформа откажется компилировать модуль."@));
    text::law_beginnings_and_ends("Процедура или функция '"@, name, "' уже объявлена в этом модуле (строка "@ + text::decimal(line) + "). Платформа откажется компилировать модуль."@);
    assert(duplicate_message(name, line) =~= ("Процедура или функция '"@ + name + "' уже объявлена в этом модуле (строка "@) + text::decimal(line) + ("). Платформа откажется компилировать модуль."@));
    text::law_beginnings_and_ends("Процедура или функция '"@ + name + "' уже объявлена в этом модуле (строка "@, text::decimal(line), "). Платформа откажется компилировать модуль."@);
}

} // verus!
