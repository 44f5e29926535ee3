//! Query text as lexemes.
//!
//! The query language is bilingual: each keyword has a Russian and an English form,
//! and letter case carries no meaning.
use crate::text;
use crate::text::{
    byte_offsets, char_is_space, chars_of, is_ident_char, same_text, scan_ident, scan_line, text_range,
    to_upper,
};
use vstd::prelude::*;

verus! {

/// The kind of a lexeme.
#[derive(Debug, Clone, Copy, PartialEq, Eq, Structural)]
pub enum Kind {
    /// A name: of a table, a field or an alias. A dot is a lexeme of its own.
    Ident,
    Keyword(Kw),
    Number,
    /// A string literal inside the query.
    Str,
    /// A parameter of the query: `&Date`.
    Param,
    /// A single other character.
    Punct,
}

/// The keywords that are told apart. Every other word is a name.
#[derive(Debug, Clone, Copy, PartialEq, Eq, Structural)]
pub enum Kw {
    Select,
    Allowed,
    Distinct,
    Top,
    Into,
    From,
    Where,
    GroupBy,
    Having,
    OrderBy,
    Totals,
    IndexBy,
    Union,
    All,
    Join,
    Left,
    Right,
    Full,
    Inner,
    Outer,
    On,
    As,
    And,
    Or,
    Not,
    Drop,
    Case,
    When,
    Then,
    Else,
    End,
    Hierarchy,
    In,
    Is,
    Null,
    Like,
    Between,
    ForUpdate,
    AutoOrder,
}

/// A lexeme of a query text.
#[derive(Debug, Clone)]
pub struct Token {
    pub kind: Kind,
    /// The lexeme as the query writes it.
    pub text: String,
    /// The byte of the query text at which the lexeme starts.
    pub offset: usize,
}

/// The contents of a [`Token`].
#[verifier::ext_equal]
pub struct TokenView {
    pub kind: Kind,
    pub text: Seq<char>,
    pub offset: nat,
}

impl TokenView {
    /// Whether the lexeme is the given keyword.
    pub open spec fn is_kw(self, kw: Kw) -> bool {
        self.kind == Kind::Keyword(kw)
    }

    /// Whether the lexeme is the given sign.
    pub open spec fn is_sign(self, c: char) -> bool {
        self.kind == Kind::Punct && self.text.len() > 0 && self.text[0] == c
    }
}

impl View for Token {
    type V = TokenView;

    open spec fn view(&self) -> TokenView {
        TokenView { kind: self.kind, text: self.text@, offset: self.offset as nat }
    }
}

impl Token {
    /// Whether the lexeme is the given keyword.
    pub fn is(&self, kw: Kw) -> (r: bool)
        ensures
            r == self@.is_kw(kw),
    {
        self.kind == Kind::Keyword(kw)
    }

    /// Whether the lexeme is the given sign.
    pub fn is_punct(&self, c: char) -> (r: bool)
        ensures
            r == self@.is_sign(c),
    {
        self.kind == Kind::Punct && !self.text.as_str().is_empty() && self.text.as_str().get_char(0) == c
    }
}

/// A copy of a lexeme.
pub fn copy_token(t: &Token) -> (r: Token)
    ensures
        r@ == t@,
{
    Token { kind: t.kind, text: t.text.clone(), offset: t.offset }
}

/// The contents of a list of lexemes.
pub open spec fn token_views(v: Seq<Token>) -> Seq<TokenView> {
    v.map_values(|t: Token| t@)
}

/// The keyword that an upper-case word is.
pub open spec fn keyword_for(up: Seq<char>) -> Option<Kw> {
    if up == "ВЫБРАТЬ"@ || up == "SELECT"@ {
        Some(Kw::Select)
    } else if up == "РАЗРЕШЕННЫЕ"@ || up == "ALLOWED"@ {
        Some(Kw::Allowed)
    } else if up == "РАЗЛИЧНЫЕ"@ || up == "DISTINCT"@ {
        Some(Kw::Distinct)
    } else if up == "ПЕРВЫЕ"@ || up == "TOP"@ {
        Some(Kw::Top)
    } else if up == "ПОМЕСТИТЬ"@ || up == "INTO"@ {
        Some(Kw::Into)
    } else if up == "ИЗ"@ || up == "FROM"@ {
        Some(Kw::From)
    } else if up == "ГДЕ"@ || up == "WHERE"@ {
        Some(Kw::Where)
    } else if up == "ИМЕЮЩИЕ"@ || up == "HAVING"@ {
        Some(Kw::Having)
    } else if up == "ИТОГИ"@ || up == "TOTALS"@ {
        Some(Kw::Totals)
    } else if up == "ПО"@ || up == "ON"@ {
        Some(Kw::On)
    } else if up == "ОБЪЕДИНИТЬ"@ || up == "UNION"@ {
        Some(Kw::Union)
    } else if up == "ВСЕ"@ || up == "ALL"@ {
        Some(Kw::All)
    } else if up == "СОЕДИНЕНИЕ"@ || up == "JOIN"@ {
        Some(Kw::Join)
    } else if up == "ЛЕВОЕ"@ || up == "LEFT"@ {
        Some(Kw::Left)
    } else if up == "ПРАВОЕ"@ || up == "RIGHT"@ {
        Some(Kw::Right)
    } else if up == "ПОЛНОЕ"@ || up == "FULL"@ {
        Some(Kw::Full)
    } else if up == "ВНУТРЕННЕЕ"@ || up == "INNER"@ {
        Some(Kw::Inner)
    } else if up == "ВНЕШНЕЕ"@ || up == "OUTER"@ {
        Some(Kw::Outer)
    } else if up == "КАК"@ || up == "AS"@ {
        Some(Kw::As)
    } else if up == "И"@ || up == "AND"@ {
        Some(Kw::And)
    } else if up == "ИЛИ"@ || up == "OR"@ {
        Some(Kw::Or)
    } else if up == "НЕ"@ || up == "NOT"@ {
        Some(Kw::Not)
    } else if up == "УНИЧТОЖИТЬ"@ || up == "DROP"@ {
        Some(Kw::Drop)
    } else if up == "ВЫБОР"@ || up == "CASE"@ {
        Some(Kw::Case)
    } else if up == "КОГДА"@ || up == "WHEN"@ {
        Some(Kw::When)
    } else if up == "ТОГДА"@ || up == "THEN"@ {
        Some(Kw::Then)
    } else if up == "ИНАЧЕ"@ || up == "ELSE"@ {
        Some(Kw::Else)
    } else if up == "КОНЕЦ"@ || up == "END"@ {
        Some(Kw::End)
    } else if up == "ИЕРАРХИЯ"@ || up == "HIERARCHY"@ {
        Some(Kw::Hierarchy)
    } else if up == "В"@ || up == "IN"@ {
        Some(Kw::In)
    } else if up == "ЕСТЬ"@ || up == "IS"@ {
        Some(Kw::Is)
    } else if up == "NULL"@ || up == "NULL"@ {
        Some(Kw::Null)
    } else if up == "ПОДОБНО"@ || up == "LIKE"@ {
        Some(Kw::Like)
    } else if up == "МЕЖДУ"@ || up == "BETWEEN"@ {
        Some(Kw::Between)
    } else if up == "АВТОУПОРЯДОЧИВАНИЕ"@ || up == "AUTOORDER"@ {
        Some(Kw::AutoOrder)
    } else {
        None
    }
}

/// The keyword that two upper-case words in a row are.
pub open spec fn compound_for(a: Seq<char>, b: Seq<char>) -> Option<Kw> {
    if (a == "СГРУППИРОВАТЬ"@ && b == "ПО"@) || (a == "GROUP"@ && b == "BY"@) {
        Some(Kw::GroupBy)
    } else if (a == "УПОРЯДОЧИТЬ"@ && b == "ПО"@) || (a == "ORDER"@ && b == "BY"@) {
        Some(Kw::OrderBy)
    } else if (a == "ИНДЕКСИРОВАТЬ"@ && b == "ПО"@) || (a == "INDEX"@ && b == "BY"@) {
        Some(Kw::IndexBy)
    } else if (a == "ДЛЯ"@ && b == "ИЗМЕНЕНИЯ"@) || (a == "FOR"@ && b == "UPDATE"@) {
        Some(Kw::ForUpdate)
    } else {
        None
    }
}

/// The keyword that a word is, whatever its letter case.
fn keyword_of(word: &str) -> (r: Option<Kw>)
    ensures
        r == keyword_for(text::uppercase(word@)),
{
    let up = to_upper(word);
    let w = up.as_str();
    if same_text(w, "ВЫБРАТЬ") || same_text(w, "SELECT") {
        Some(Kw::Select)
    } else if same_text(w, "РАЗРЕШЕННЫЕ") || same_text(w, "ALLOWED") {
        Some(Kw::Allowed)
    } else if same_text(w, "РАЗЛИЧНЫЕ") || same_text(w, "DISTINCT") {
        Some(Kw::Distinct)
    } else if same_text(w, "ПЕРВЫЕ") || same_text(w, "TOP") {
        Some(Kw::Top)
    } else if same_text(w, "ПОМЕСТИТЬ") || same_text(w, "INTO") {
        Some(Kw::Into)
    } else if same_text(w, "ИЗ") || same_text(w, "FROM") {
        Some(Kw::From)
    } else if same_text(w, "ГДЕ") || same_text(w, "WHERE") {
        Some(Kw::Where)
    } else if same_text(w, "ИМЕЮЩИЕ") || same_text(w, "HAVING") {
        Some(Kw::Having)
    } else if same_text(w, "ИТОГИ") || same_text(w, "TOTALS") {
        Some(Kw::Totals)
    } else if same_text(w, "ПО") || same_text(w, "ON") {
        Some(Kw::On)
    } else if same_text(w, "ОБЪЕДИНИТЬ") || same_text(w, "UNION") {
        Some(Kw::Union)
    } else if same_text(w, "ВСЕ") || same_text(w, "ALL") {
        Some(Kw::All)
    } else if same_text(w, "СОЕДИНЕНИЕ") || same_text(w, "JOIN") {
        Some(Kw::Join)
    } else if same_text(w, "ЛЕВОЕ") || same_text(w, "LEFT") {
        Some(Kw::Left)
    } else if same_text(w, "ПРАВОЕ") || same_text(w, "RIGHT") {
        Some(Kw::Right)
    } else if same_text(w, "ПОЛНОЕ") || same_text(w, "FULL") {
        Some(Kw::Full)
    } else if same_text(w, "ВНУТРЕННЕЕ") || same_text(w, "INNER") {
        Some(Kw::Inner)
    } else if same_text(w, "ВНЕШНЕЕ") || same_text(w, "OUTER") {
        Some(Kw::Outer)
    } else if same_text(w, "КАК") || same_text(w, "AS") {
        Some(Kw::As)
    } else if same_text(w, "И") || same_text(w, "AND") {
        Some(Kw::And)
    } else if same_text(w, "ИЛИ") || same_text(w, "OR") {
        Some(Kw::Or)
    } else if same_text(w, "НЕ") || same_text(w, "NOT") {
        Some(Kw::Not)
    } else if same_text(w, "УНИЧТОЖИТЬ") || same_text(w, "DROP") {
        Some(Kw::Drop)
    } else if same_text(w, "ВЫБОР") || same_text(w, "CASE") {
        Some(Kw::Case)
    } else if same_text(w, "КОГДА") || same_text(w, "WHEN") {
        Some(Kw::When)
    } else if same_text(w, "ТОГДА") || same_text(w, "THEN") {
        Some(Kw::Then)
    } else if same_text(w, "ИНАЧЕ") || same_text(w, "ELSE") {
        Some(Kw::Else)
    } else if same_text(w, "КОНЕЦ") || same_text(w, "END") {
        Some(Kw::End)
    } else if same_text(w, "ИЕРАРХИЯ") || same_text(w, "HIERARCHY") {
        Some(Kw::Hierarchy)
    } else if same_text(w, "В") || same_text(w, "IN") {
        Some(Kw::In)
    } else if same_text(w, "ЕСТЬ") || same_text(w, "IS") {
        Some(Kw::Is)
    } else if same_text(w, "NULL") || same_text(w, "NULL") {
        Some(Kw::Null)
    } else if same_text(w, "ПОДОБНО") || same_text(w, "LIKE") {
        Some(Kw::Like)
    } else if same_text(w, "МЕЖДУ") || same_text(w, "BETWEEN") {
        Some(Kw::Between)
    } else if same_text(w, "АВТОУПОРЯДОЧИВАНИЕ") || same_text(w, "AUTOORDER") {
        Some(Kw::AutoOrder)
    } else {
        None
    }
}

/// The keyword that two upper-case words in a row are.
fn compound_of(a: &str, b: &str) -> (r: Option<Kw>)
    ensures
        r == compound_for(a@, b@),
{
    if (same_text(a, "СГРУППИРОВАТЬ") && same_text(b, "ПО"))
        || (same_text(a, "GROUP") && same_text(b, "BY")) {
        Some(Kw::GroupBy)
    } else if (same_text(a, "УПОРЯДОЧИТЬ") && same_text(b, "ПО"))
        || (same_text(a, "ORDER") && same_text(b, "BY")) {
        Some(Kw::OrderBy)
    } else if (same_text(a, "ИНДЕКСИРОВАТЬ") && same_text(b, "ПО"))
        || (same_text(a, "INDEX") && same_text(b, "BY")) {
        Some(Kw::IndexBy)
    } else if (same_text(a, "ДЛЯ") && same_text(b, "ИЗМЕНЕНИЯ"))
        || (same_text(a, "FOR") && same_text(b, "UPDATE")) {
        Some(Kw::ForUpdate)
    } else {
        None
    }
}

/// A decimal digit.
pub open spec fn digit(c: char) -> bool {
    '0' <= c <= '9'
}

/// The end of the run of digits and dots that starts at `i`.
pub open spec fn number_end(src: Seq<char>, i: int) -> int
    decreases src.len() - i,
{
    if 0 <= i < src.len() && (digit(src[i]) || src[i] == '.') {
        number_end(src, i + 1)
    } else {
        i
    }
}

/// The end of the string literal whose contents go on at `i`. A doubled quote stands
/// for one inside the literal; a literal that is not closed ends with the text.
pub open spec fn string_end(src: Seq<char>, i: int) -> int
    decreases src.len() - i,
{
    if i < 0 || i >= src.len() {
        i
    } else if src[i] != '"' {
        string_end(src, i + 1)
    } else if i + 1 < src.len() && src[i + 1] == '"' {
        string_end(src, i + 2)
    } else {
        i + 1
    }
}

/// A comment starts at `i`.
pub open spec fn comment_at(src: Seq<char>, i: int) -> bool {
    src[i] == '/' && i + 1 < src.len() && src[i + 1] == '/'
}

/// The kind and the end of the lexeme that starts at `i`.
pub open spec fn lexeme_at(src: Seq<char>, i: int) -> (Kind, int) {
    let c = src[i];
    if c == '"' {
        (Kind::Str, string_end(src, i + 1))
    } else if c == '&' {
        (Kind::Param, text::ident_end(src, i + 1))
    } else if digit(c) {
        (Kind::Number, number_end(src, i))
    } else if text::ident_char(c) {
        let end = text::ident_end(src, i);
        let kind = match keyword_for(text::uppercase(src.subrange(i, end))) {
            Some(kw) => Kind::Keyword(kw),
            None => Kind::Ident,
        };
        (kind, end)
    } else {
        (Kind::Punct, i + 1)
    }
}

pub proof fn lemma_number_end(src: Seq<char>, i: int)
    requires
        0 <= i <= src.len(),
    ensures
        i <= number_end(src, i) <= src.len(),
    decreases src.len() - i,
{
    if i < src.len() && (digit(src[i]) || src[i] == '.') {
        lemma_number_end(src, i + 1);
    }
}

pub proof fn lemma_string_end(src: Seq<char>, i: int)
    requires
        0 <= i <= src.len(),
    ensures
        i <= string_end(src, i) <= src.len(),
    decreases src.len() - i,
{
    if i < src.len() {
        if src[i] != '"' {
            lemma_string_end(src, i + 1);
        } else if i + 1 < src.len() && src[i + 1] == '"' {
            lemma_string_end(src, i + 2);
        }
    }
}

/// Every lexeme takes at least one character, and ends within the text.
pub proof fn lemma_lexeme_at(src: Seq<char>, i: int)
    requires
        0 <= i < src.len(),
    ensures
        i < lexeme_at(src, i).1 <= src.len(),
{
    lemma_string_end(src, i + 1);
    text::lemma_ident_end(src, i + 1);
    lemma_number_end(src, i + 1);
}

/// The lexemes of a text from character `i` on, before words are joined to compound keywords.
pub open spec fn raw_tokens(src: Seq<char>, i: int) -> Seq<TokenView>
    decreases src.len() - i,
{
    if i < 0 || i >= src.len() {
        seq![]
    } else if text::is_space(src[i]) {
        raw_tokens(src, i + 1)
    } else if comment_at(src, i) {
        proof {
            text::lemma_line_end(src, i + 1);
        }
        raw_tokens(src, text::line_end(src, i))
    } else {
        let (kind, end) = lexeme_at(src, i);
        let token = TokenView {
            kind,
            text: src.subrange(i, end),
            offset: text::byte_at(src, i),
        };
        proof {
            lemma_lexeme_at(src, i);
        }
        seq![token] + raw_tokens(src, end)
    }
}

/// The lexemes from position `i` on, with the words of compound keywords joined.
pub open spec fn merged(toks: Seq<TokenView>, i: int) -> Seq<TokenView>
    decreases toks.len() - i,
{
    if i < 0 || i >= toks.len() {
        seq![]
    } else {
        let compound = if i + 1 < toks.len() {
            compound_for(text::uppercase(toks[i].text), text::uppercase(toks[i + 1].text))
        } else {
            None
        };
        match compound {
            Some(kw) => {
                let token = TokenView {
                    kind: Kind::Keyword(kw),
                    text: toks[i].text + " "@ + toks[i + 1].text,
                    offset: toks[i].offset,
                };
                seq![token] + merged(toks, i + 2)
            },
            None => seq![toks[i]] + merged(toks, i + 1),
        }
    }
}

/// The lexemes of a query text.
pub open spec fn lexemes(src: Seq<char>) -> Seq<TokenView> {
    merged(raw_tokens(src, 0), 0)
}

fn is_digit(c: char) -> (r: bool)
    ensures
        r == digit(c),
{
    '0' <= c && c <= '9'
}

fn scan_number(chars: &Vec<char>, from: usize) -> (r: usize)
    requires
        from <= chars.len(),
    ensures
        r == number_end(chars@, from as int),
        from <= r <= chars.len(),
{
    let mut i = from;
    while i < chars.len() && (is_digit(chars[i]) || chars[i] == '.')
        invariant
            from <= i <= chars.len(),
            number_end(chars@, i as int) == number_end(chars@, from as int),
        decreases chars.len() - i,
    {
        i += 1;
    }
    i
}

fn scan_string(chars: &Vec<char>, from: usize) -> (r: usize)
    requires
        from <= chars.len(),
    ensures
        r == string_end(chars@, from as int),
        from <= r <= chars.len(),
{
    let mut i = from;
    while i < chars.len()
        invariant
            from <= i <= chars.len(),
            string_end(chars@, i as int) == string_end(chars@, from as int),
        decreases chars.len() - i,
    {
        if chars[i] == '"' {
            if i + 1 < chars.len() && chars[i + 1] == '"' {
                i += 2;
                continue;
            }
            return i + 1;
        }
        i += 1;
    }
    i
}

/// Split a query text into lexemes. A character that starts no other lexeme is one of
/// kind [`Kind::Punct`].
pub fn tokenize(src: &str) -> (r: Vec<Token>)
    ensures
        token_views(r@) == lexemes(src@),
{
    let chars = chars_of(src);
    let offsets = byte_offsets(src, &chars);
    let mut tokens: Vec<Token> = Vec::new();
    let mut i: usize = 0;

    while i < chars.len()
        invariant
            chars@ == src@,
            offsets.len() == chars.len() + 1,
            forall|k: int| 0 <= k <= chars.len() ==> #[trigger] offsets[k] == text::byte_at(src@, k),
            i <= chars.len(),
            token_views(tokens@) + raw_tokens(src@, i as int) == raw_tokens(src@, 0),
        decreases chars.len() - i,
    {
        let c = chars[i];

        if char_is_space(c) {
            i += 1;
            continue;
        }

        if c == '/' && i + 1 < chars.len() && chars[i + 1] == '/' {
            let end = scan_line(&chars, i);
            proof {
                text::lemma_line_end(src@, i + 1);
            }
            i = end;
            continue;
        }

        let kind: Kind;
        let end: usize;
        if c == '"' {
            kind = Kind::Str;
            end = scan_string(&chars, i + 1);
        } else if c == '&' {
            kind = Kind::Param;
            end = scan_ident(&chars, i + 1);
        } else if is_digit(c) {
            kind = Kind::Number;
            end = scan_number(&chars, i);
        } else if is_ident_char(c) {
            end = scan_ident(&chars, i);
            let word = text_range(&chars, i, end);
            kind = match keyword_of(word.as_str()) {
                Some(kw) => Kind::Keyword(kw),
                None => Kind::Ident,
            };
        } else {
            kind = Kind::Punct;
            end = i + 1;
        }
        proof {
            lemma_lexeme_at(src@, i as int);
        }
        let ghost before = tokens@;
        let token = Token { kind, text: text_range(&chars, i, end), offset: offsets[i] };
        tokens.push(token);
        assert(token_views(tokens@) == token_views(before).push(token@));
        assert(token_views(tokens@) + raw_tokens(src@, end as int) == token_views(before) + (seq![token@]
            + raw_tokens(src@, end as int)));
        i = end;
    }

    assert(token_views(tokens@) == raw_tokens(src@, 0));
    merge_compound(tokens)
}

/// Join the words of compound keywords into one lexeme each.
fn merge_compound(tokens: Vec<Token>) -> (r: Vec<Token>)
    ensures
        token_views(r@) == merged(token_views(tokens@), 0),
{
    let mut out: Vec<Token> = Vec::new();
    let mut i: usize = 0;
    let ghost views = token_views(tokens@);

    while i < tokens.len()
        invariant
            views == token_views(tokens@),
            i <= tokens.len(),
            token_views(out@) + merged(views, i as int) == merged(views, 0),
        decreases tokens.len() - i,
    {
        let mut found: Option<Kw> = None;
        if i + 1 < tokens.len() {
            let first = to_upper(tokens[i].text.as_str());
            let second = to_upper(tokens[i + 1].text.as_str());
            found = compound_of(first.as_str(), second.as_str());
        }
        let ghost before = out@;
        match found {
            Some(kw) => {
                let mut words = tokens[i].text.clone();
                words.append(" ");
                words.append(tokens[i + 1].text.as_str());
                let token = Token { kind: Kind::Keyword(kw), text: words, offset: tokens[i].offset };
                out.push(token);
                assert(token_views(out@) == token_views(before).push(token@));
                assert(token_views(out@) + merged(views, i + 2) == token_views(before) + (seq![token@]
                    + merged(views, i + 2)));
                i += 2;
            },
            None => {
                let token = copy_token(&tokens[i]);
                out.push(token);
                assert(token_views(out@) == token_views(before).push(token@));
                assert(token_views(out@) + merged(views, i + 1) == token_views(before) + (seq![token@]
                    + merged(views, i + 1)));
                i += 1;
            },
        }
    }
    assert(token_views(out@) == merged(views, 0));
    out
}

/// A keyword that is written as two words.
pub open spec fn is_compound(kind: Kind) -> bool {
    match kind {
        Kind::Keyword(kw) => matches!(kw, Kw::GroupBy | Kw::OrderBy | Kw::IndexBy | Kw::ForUpdate),
        _ => false,
    }
}

/// The first `w` characters of the lexeme are the `w` characters of the text from `p` on,
/// and the lexeme's offset is the byte of `p`.
pub open spec fn points_at(src: Seq<char>, t: TokenView, p: int, w: int) -> bool {
    &&& 0 <= p
    &&& 0 < w <= t.text.len()
    &&& p + w <= src.len()
    &&& t.offset == text::byte_at(src, p)
    &&& t.text.take(w) == src.subrange(p, p + w)
    &&& !is_compound(t.kind) ==> w == t.text.len()
}

/// The lexeme stands in the text where its offset says.
pub open spec fn stands_in(src: Seq<char>, t: TokenView) -> bool {
    exists|p: int, w: int| points_at(src, t, p, w)
}

/// The offsets of a list of lexemes grow.
pub open spec fn in_order(toks: Seq<TokenView>) -> bool {
    forall|j: int, k: int| 0 <= j < k < toks.len() ==> toks[j].offset < toks[k].offset
}

proof fn lemma_raw_tokens(src: Seq<char>, i: int)
    requires
        0 <= i <= src.len(),
    ensures
        in_order(raw_tokens(src, i)),
        forall|k: int|
            0 <= k < raw_tokens(src, i).len() ==> {
                let t = #[trigger] raw_tokens(src, i)[k];
                t.offset >= text::byte_at(src, i) && t.text.len() > 0 && exists|p: int|
                    points_at(src, t, p, t.text.len() as int)
            },
    decreases src.len() - i,
{
    if i < src.len() {
        if text::is_space(src[i]) {
            lemma_raw_tokens(src, i + 1);
            text::lemma_byte_at_mono(src, i, i + 1);
        } else if comment_at(src, i) {
            text::lemma_line_end(src, i + 1);
            lemma_raw_tokens(src, text::line_end(src, i));
            text::lemma_byte_at_mono(src, i, text::line_end(src, i));
        } else {
            lemma_lexeme_at(src, i);
            let (kind, end) = lexeme_at(src, i);
            let t = TokenView { kind, text: src.subrange(i, end), offset: text::byte_at(src, i) };
            lemma_raw_tokens(src, end);
            text::lemma_byte_at_mono(src, i, end);
            assert(t.text.take(end - i) =~= t.text);
            assert(points_at(src, t, i, t.text.len() as int));
            assert(raw_tokens(src, i) == seq![t] + raw_tokens(src, end));
            assert forall|k: int| 0 <= k < raw_tokens(src, i).len() implies {
                let u = #[trigger] raw_tokens(src, i)[k];
                u.offset >= text::byte_at(src, i) && u.text.len() > 0 && exists|p: int|
                    points_at(src, u, p, u.text.len() as int)
            } by {
                if k > 0 {
                    assert(raw_tokens(src, i)[k] == raw_tokens(src, end)[k - 1]);
                }
            }
            assert forall|j: int, k: int| 0 <= j < k < raw_tokens(src, i).len() implies raw_tokens(
                src,
                i,
            )[j].offset < raw_tokens(src, i)[k].offset by {
                assert(raw_tokens(src, i)[k] == raw_tokens(src, end)[k - 1]);
                if j > 0 {
                    assert(raw_tokens(src, i)[j] == raw_tokens(src, end)[j - 1]);
                }
            }
        }
    }
}

proof fn lemma_merged(src: Seq<char>, toks: Seq<TokenView>, i: int)
    requires
        0 <= i <= toks.len(),
        in_order(toks),
        forall|k: int|
            0 <= k < toks.len() ==> {
                let t = #[trigger] toks[k];
                t.text.len() > 0 && exists|p: int| points_at(src, t, p, t.text.len() as int)
            },
    ensures
        in_order(merged(toks, i)),
        forall|k: int|
            0 <= k < merged(toks, i).len() ==> {
                let t = #[trigger] merged(toks, i)[k];
                stands_in(src, t) && i < toks.len() && t.offset >= toks[i].offset
            },
    decreases toks.len() - i,
{
    if i < toks.len() {
        let compound = if i + 1 < toks.len() {
            compound_for(text::uppercase(toks[i].text), text::uppercase(toks[i + 1].text))
        } else {
            None
        };
        let (t, next) = match compound {
            Some(kw) => (
                TokenView {
                    kind: Kind::Keyword(kw),
                    text: toks[i].text + " "@ + toks[i + 1].text,
                    offset: toks[i].offset,
                },
                i + 2,
            ),
            None => (toks[i], i + 1),
        };
        lemma_merged(src, toks, next);
        assert(merged(toks, i) == seq![t] + merged(toks, next));
        let w = toks[i].text.len() as int;
        let p = choose|p: int| points_at(src, toks[i], p, w);
        assert(t.text.take(w) =~= toks[i].text.take(w));
        assert(points_at(src, t, p, w));
        assert(stands_in(src, t));
        assert forall|k: int| 0 <= k < merged(toks, i).len() implies {
            let u = #[trigger] merged(toks, i)[k];
            stands_in(src, u) && u.offset >= toks[i].offset
        } by {
            if k > 0 {
                assert(merged(toks, i)[k] == merged(toks, next)[k - 1]);
            }
        }
        assert forall|j: int, k: int| 0 <= j < k < merged(toks, i).len() implies merged(
            toks,
            i,
        )[j].offset < merged(toks, i)[k].offset by {
            assert(merged(toks, i)[k] == merged(toks, next)[k - 1]);
            if j > 0 {
                assert(merged(toks, i)[j] == merged(toks, next)[j - 1]);
            }
        }
    }
}

/// Every lexeme stands in the query text at its offset, letter for letter (of a keyword of
/// two words, the first word does), and the lexemes come in the order of the text.
pub proof fn law_offsets_point_at_source(src: Seq<char>)
    ensures
        in_order(lexemes(src)),
        forall|k: int| 0 <= k < lexemes(src).len() ==> stands_in(src, #[trigger] lexemes(src)[k]),
{
    lemma_raw_tokens(src, 0);
    lemma_merged(src, raw_tokens(src, 0), 0);
}

} // verus!
