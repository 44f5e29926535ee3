//! The exported variables of a module.
use crate::text;
use crate::text::{chars_of, find_from, same_text, scan_word, split, split_words, text_range, to_lower, trim, Edge};
use vstd::prelude::*;

verus! {

/// A position at which a comment starts.
pub open spec fn comment_starts(s: Seq<char>, i: int) -> bool {
    text::starts_with(s.subrange(i, s.len() as int), "//"@)
}

/// The position of the first comment from `i` on, or the end of the text.
pub open spec fn comment_at(s: Seq<char>, i: int) -> int
    decreases s.len() - i,
{
    if i < 0 || i >= s.len() || comment_starts(s, i) {
        i
    } else {
        comment_at(s, i + 1)
    }
}

/// A line without its comment and without white space at its ends.
pub open spec fn code_of(line: Seq<char>) -> Seq<char> {
    text::trimmed(Edge::Space, line.subrange(0, comment_at(line, 0)))
}

/// A text without the semicolons at its end.
pub open spec fn without_semicolons(s: Seq<char>) -> Seq<char>
    decreases s.len(),
{
    if s.len() > 0 && s.last() == ';' {
        without_semicolons(s.drop_last())
    } else {
        s
    }
}

/// Some word of a declaration behind the name, from the position `i` on, says that the variable
/// is exported.
pub open spec fn says_export(words: Seq<Seq<char>>, i: int) -> bool {
    exists|k: int| i <= k < words.len() && text::lowercase(#[trigger] words[k]) == "экспорт"@
}

/// The name that one declaration exports.
pub open spec fn exported_name(declaration: Seq<char>) -> Option<Seq<char>> {
    let w = text::words(declaration);
    if w.len() > 0 && says_export(w, 1) {
        Some(w[0])
    } else {
        None
    }
}

/// The names that the declarations from the position `i` on export.
pub open spec fn exported_names(declarations: Seq<Seq<char>>, i: int) -> Seq<Seq<char>>
    decreases declarations.len() - i,
{
    if i < 0 || i >= declarations.len() {
        seq![]
    } else {
        match exported_name(declarations[i]) {
            Some(name) => seq![name] + exported_names(declarations, i + 1),
            None => exported_names(declarations, i + 1),
        }
    }
}

/// The names that one line exports: those of `Перем А Экспорт, Б Экспорт;`, where each name has
/// its own word `Экспорт`.
pub open spec fn line_exports(line: Seq<char>) -> Seq<Seq<char>> {
    let code = code_of(line);
    let sep = text::space_at(code, 0);
    if sep < code.len() && text::lowercase(code.subrange(0, sep)) == "перем"@ {
        exported_names(
            text::parts(without_semicolons(code.subrange(sep, code.len() as int)), ','),
            0,
        )
    } else {
        seq![]
    }
}

/// The names that the lines from the position `i` on export.
pub open spec fn lines_exports(lines: Seq<Seq<char>>, i: int) -> Seq<Seq<char>>
    decreases lines.len() - i,
{
    if i < 0 || i >= lines.len() {
        seq![]
    } else {
        line_exports(lines[i]) + lines_exports(lines, i + 1)
    }
}

/// The names that the text of a module exports.
pub open spec fn exported_vars(s: Seq<char>) -> Seq<Seq<char>> {
    lines_exports(text::parts(s, '\n'), 0)
}

/// A line without its comment and without white space at its ends.
fn line_code(line: &str) -> (r: String)
    ensures
        r@ == code_of(line@),
{
    let chars = chars_of(line);
    let mark = chars_of("//");
    proof {
        reveal_strlit("//");
    }
    let end = match find_from(&chars, 0, &mark) {
        Some(i) => {
            assert(comment_starts(line@, i as int));
            i
        },
        None => chars.len(),
    };
    proof {
        assert forall|k: int| 0 <= k < end implies !(#[trigger] comment_starts(line@, k)) by {
            assert(!text::starts_with(chars@.subrange(k, chars.len() as int), mark@));
        }
        lemma_comment_at(line@, 0, end as int);
    }
    let code = text_range(&chars, 0, end);
    trim(Edge::Space, code.as_str())
}

proof fn lemma_comment_at(s: Seq<char>, i: int, end: int)
    requires
        0 <= i <= end <= s.len(),
        forall|k: int| i <= k < end ==> !(#[trigger] comment_starts(s, k)),
        end < s.len() ==> comment_starts(s, end),
    ensures
        comment_at(s, i) == end,
    decreases end - i,
{
    if i < end {
        assert(!comment_starts(s, i));
        lemma_comment_at(s, i + 1, end);
    }
}

/// The name that one declaration exports.
fn declared_export(declaration: &str) -> (r: Option<String>)
    ensures
        text::opt_text(r) == exported_name(declaration@),
{
    let words = split_words(declaration);
    let ghost all = text::texts(words@);
    let mut i: usize = 1;
    while i < words.len()
        invariant
            all == text::texts(words@),
            all == text::words(declaration@),
            1 <= i,
            forall|k: int| 1 <= k < i && k < all.len() ==> text::lowercase(#[trigger] all[k]) != "экспорт"@,
        decreases words.len() - i,
    {
        assert(all[i as int] == words[i as int]@);
        if same_text(to_lower(words[i].as_str()).as_str(), "экспорт") {
            assert(all[0] == words[0]@);
            assert(text::lowercase(text::words(declaration@)[i as int]) == "экспорт"@);
            return Some(words[0].as_str().to_string());
        }
        i += 1;
    }
    None
}

/// The names that one line exports.
fn exports_of_line(line: &str) -> (r: Vec<String>)
    ensures
        text::texts(r@) == line_exports(line@),
{
    let mut names: Vec<String> = Vec::new();
    assert(text::texts(names@) =~= seq![]);
    let code = line_code(line);
    let chars = chars_of(code.as_str());
    let sep = scan_word(&chars, 0);
    if sep >= chars.len() {
        return names;
    }
    let keyword = text_range(&chars, 0, sep);
    if !same_text(to_lower(keyword.as_str()).as_str(), "перем") {
        return names;
    }
    let mut end = chars.len();
    let ghost tail = code@.subrange(sep as int, chars.len() as int);
    assert(tail =~= code@.subrange(sep as int, end as int));
    while end > sep && chars[end - 1] == ';'
        invariant
            chars@ == code@,
            sep <= end <= chars.len(),
            without_semicolons(tail) == without_semicolons(code@.subrange(sep as int, end as int)),
        decreases end - sep,
    {
        assert(code@.subrange(sep as int, end as int).drop_last() =~= code@.subrange(
            sep as int,
            end - 1,
        ));
        end -= 1;
    }
    let rest = text_range(&chars, sep, end);
    assert(rest@ == without_semicolons(tail));
    let declarations = split(rest.as_str(), ',');
    let ghost all = text::texts(declarations@);
    assert(text::texts(names@) + exported_names(all, 0) =~= exported_names(all, 0));
    for i in 0..declarations.len()
        invariant
            all == text::texts(declarations@),
            text::texts(names@) + exported_names(all, i as int) == exported_names(all, 0),
    {
        assert(all[i as int] == declarations[i as int]@);
        let ghost before = text::texts(names@);
        let ghost tail_names = exported_names(all, i + 1);
        if let Some(name) = declared_export(declarations[i].as_str()) {
            proof {
                text::lemma_texts_push(names@, name);
                assert(before + (seq![name@] + tail_names) =~= before.push(name@) + tail_names);
            }
            names.push(name);
        }
    }
    assert(text::texts(names@) + Seq::<Seq<char>>::empty() =~= text::texts(names@));
    names
}

/// The names of the exported variables of a module, from its text. A variable can be exported
/// only at the level of the module, so that the word `Экспорт` in the declaration is enough.
pub fn global_export_vars_from_text(text: &str) -> (r: Vec<String>)
    ensures
        text::texts(r@) == exported_vars(text@),
{
    let lines = split(text, '\n');
    let ghost all = text::texts(lines@);
    let mut names: Vec<String> = Vec::new();
    assert(text::texts(names@) + lines_exports(all, 0) =~= lines_exports(all, 0));
    for i in 0..lines.len()
        invariant
            all == text::texts(lines@),
            text::texts(names@) + lines_exports(all, i as int) == lines_exports(all, 0),
    {
        assert(all[i as int] == lines[i as int]@);
        let mut more = exports_of_line(lines[i].as_str());
        let ghost before = text::texts(names@);
        let ghost one = text::texts(more@);
        let ghost rest = lines_exports(all, i + 1);
        let ghost joined = names@ + more@;
        names.append(&mut more);
        assert(names@ =~= joined);
        assert(text::texts(joined) =~= before + one);
        assert(before + (one + rest) =~= (before + one) + rest);
    }
    assert(text::texts(names@) + Seq::<Seq<char>>::empty() =~= text::texts(names@));
    names
}

/// What a line exports depends on that line alone: the exports of a text are those of its first
/// line, and then those of the rest.
pub proof fn law_lines_are_independent(line: Seq<char>, rest: Seq<char>)
    requires
        forall|k: int| 0 <= k < line.len() ==> #[trigger] line[k] != '\n',
    ensures
        exported_vars(line + seq!['\n'] + rest) == line_exports(line) + exported_vars(rest),
{
    text::lemma_parts_prepend(line, '\n', rest);
    lemma_lines_shift(line, text::parts(rest, '\n'), 0);
}

proof fn lemma_lines_shift(first: Seq<char>, lines: Seq<Seq<char>>, i: int)
    requires
        0 <= i <= lines.len(),
    ensures
        lines_exports(seq![first] + lines, i + 1) == lines_exports(lines, i),
    decreases lines.len() - i,
{
    if i < lines.len() {
        lemma_lines_shift(first, lines, i + 1);
    }
}

/// A comment exports nothing and hides nothing before it: what stands behind `//` does not
/// matter.
pub proof fn law_comments_do_not_matter(code: Seq<char>, comment: Seq<char>)
    requires
        forall|k: int| 0 <= k < code.len() ==> #[trigger] code[k] != '/',
    ensures
        line_exports(code + "//"@ + comment) == line_exports(code),
{
    reveal_strlit("//");
    let line = code + "//"@ + comment;
    let end = code.len() as int;
    assert forall|k: int| 0 <= k < end implies !(#[trigger] comment_starts(line, k)) by {
        assert(line.subrange(k, line.len() as int)[0] == code[k]);
        if comment_starts(line, k) {
            assert(line.subrange(k, line.len() as int).subrange(0, 2)[0] == '/');
        }
    }
    assert(line.subrange(end, line.len() as int).subrange(0, 2) =~= "//"@);
    lemma_comment_at(line, 0, end);
    assert forall|k: int| 0 <= k < end implies !(#[trigger] comment_starts(code, k)) by {
        assert(code.subrange(k, end)[0] == code[k]);
        if comment_starts(code, k) {
            assert(code.subrange(k, end).subrange(0, 2)[0] == '/');
        }
    }
    lemma_comment_at(code, 0, end);
    assert(line.subrange(0, end) =~= code.subrange(0, end));
}

/// A declaration exports its variable exactly where the word for it stands behind the name, in any
/// letter case and among whatever other words.
pub proof fn law_declaration_exports_its_name(declaration: Seq<char>)
    ensures
        exported_name(declaration) is Some <==> exists|k: int|
            1 <= k < text::words(declaration).len() && text::lowercase(#[trigger] text::words(declaration)[k])
                == "экспорт"@,
        exported_name(declaration) matches Some(name) ==> text::words(declaration).len() > 0 && name
            == text::words(declaration)[0],
{
}

/// Each declaration of a line counts by itself: a name is exported exactly where one of them
/// exports it.
pub proof fn law_declarations_count_by_themselves(declarations: Seq<Seq<char>>, i: int, name: Seq<char>)
    requires
        0 <= i <= declarations.len(),
    ensures
        exported_names(declarations, i).contains(name) <==> exists|k: int|
            i <= k < declarations.len() && exported_name(#[trigger] declarations[k]) == Some(name),
    decreases declarations.len() - i,
{
    if i < declarations.len() {
        law_declarations_count_by_themselves(declarations, i + 1, name);
        let rest = exported_names(declarations, i + 1);
        let all = exported_names(declarations, i);
        let one = exported_name(declarations[i]);
        if rest.contains(name) {
            let k = choose|k: int| 0 <= k < rest.len() && rest[k] == name;
            if one is Some {
                assert(all[k + 1] == name);
            } else {
                assert(all[k] == name);
            }
        }
        if one == Some(name) {
            assert(all[0] == name);
        }
        if all.contains(name) {
            let k = choose|k: int| 0 <= k < all.len() && all[k] == name;
            if one is Some {
                if k > 0 {
                    assert(rest[k - 1] == name);
                }
            } else {
                assert(rest[k] == name);
            }
        }
    }
}

/// A line that does not begin with the word for variables exports nothing.
pub proof fn law_other_lines_export_nothing(line: Seq<char>)
    requires
        ({
            let code = code_of(line);
            let sep = text::space_at(code, 0);
            sep >= code.len() || text::lowercase(code.subrange(0, sep)) != "перем"@
        }),
    ensures
        line_exports(line).len() == 0,
{
}

/// The line of an exported variable exports it: the word for variables, the name and the word for
/// exports, the two words in any letter case. Without the last word it exports nothing.
#[verifier::rlimit(40)]
pub proof fn law_line_exports_its_variable(word: Seq<char>, name: Seq<char>, export: Seq<char>)
    requires
        text::lowercase(word) == "перем"@,
        text::lowercase(export) == "экспорт"@,
        word.len() > 0,
        name.len() > 0,
        export.len() > 0,
        forall|k: int| 0 <= k < word.len() ==> !text::is_space(#[trigger] word[k]) && word[k] != '/',
        forall|k: int|
            0 <= k < name.len() ==> !text::is_space(#[trigger] name[k]) && name[k] != '/' && name[k] != ','
                && name[k] != ';',
        forall|k: int|
            0 <= k < export.len() ==> !text::is_space(#[trigger] export[k]) && export[k] != '/' && export[k]
                != ',' && export[k] != ';',
    ensures
        line_exports(word.push(' ') + name.push(' ') + export) == seq![name],
        line_exports(word.push(' ') + name).len() == 0,
{
    reveal(text::is_space);
    let tail = seq![' '] + (name.push(' ') + export);
    let line = word + tail;
    assert(word.push(' ') + name.push(' ') + export =~= line);
    assert forall|k: int| 0 <= k < tail.len() implies #[trigger] tail[k] != '/' && tail[k] != ',' && tail[k]
        != ';' by {
        if 1 <= k < 1 + name.len() {
            assert(tail[k] == name[k - 1]);
        } else if k > 1 + name.len() {
            assert(tail[k] == export[k - 2 - name.len()]);
        }
    }
    assert(tail.last() == export.last());
    lemma_plain_line(word, tail);
    assert(text::words(seq![' '] + (name.push(' ') + export)) == text::words(name.push(' ') + export)) by {
        text::law_words_are_parted_by_white_space(name, ' ', name.push(' ') + export);
    }
    text::law_words_are_parted_by_white_space(name, ' ', export);
    text::law_words_are_parted_by_white_space(export, ' ', export);
    let w = text::words(tail);
    assert(w =~= seq![name, export]);
    assert(text::lowercase(w[1]) == "экспорт"@);
    assert(exported_name(tail) == Some(name));
    assert(exported_names(seq![tail], 1).len() == 0);
    assert(exported_names(seq![tail], 0) =~= seq![name]);
    let short = seq![' '] + name;
    assert(word.push(' ') + name =~= word + short);
    assert forall|k: int| 0 <= k < short.len() implies #[trigger] short[k] != '/' && short[k] != ','
        && short[k] != ';' by {
        if k >= 1 {
            assert(short[k] == name[k - 1]);
        }
    }
    assert(short.last() == name.last());
    lemma_plain_line(word, short);
    text::law_words_are_parted_by_white_space(name, ' ', name);
    assert(text::words(short) =~= seq![name]);
    assert(exported_name(short) is None);
    assert(exported_names(seq![short], 1).len() == 0);
    assert(exported_names(seq![short], 0).len() == 0);
}

proof fn lemma_plain_line(word: Seq<char>, tail: Seq<char>)
    requires
        text::lowercase(word) == "перем"@,
        word.len() > 0,
        forall|k: int| 0 <= k < word.len() ==> !text::is_space(#[trigger] word[k]) && word[k] != '/',
        tail.len() > 0,
        tail[0] == ' ',
        !text::is_space(tail.last()),
        forall|k: int|
            0 <= k < tail.len() ==> #[trigger] tail[k] != '/' && tail[k] != ',' && tail[k] != ';',
    ensures
        line_exports(word + tail) == exported_names(seq![tail], 0),
{
    reveal(text::is_space);
    reveal_strlit("//");
    let line = word + tail;
    let n = line.len() as int;
    let sep = word.len() as int;
    assert forall|k: int| 0 <= k < n implies #[trigger] line[k] != '/' by {
        if k < sep {
            assert(line[k] == word[k]);
        } else {
            assert(line[k] == tail[k - sep]);
        }
    }
    assert forall|k: int| 0 <= k < n implies !(#[trigger] comment_starts(line, k)) by {
        assert(line.subrange(k, n)[0] == line[k]);
        if comment_starts(line, k) {
            assert(line.subrange(k, n).subrange(0, 2)[0] == '/');
        }
    }
    lemma_comment_at(line, 0, n);
    assert(line.subrange(0, n) =~= line);
    let none = Seq::<char>::empty();
    assert(line[0] == word[0]);
    assert(line.last() == tail.last());
    assert(none + line + none =~= line);
    text::law_trimming_takes_off_the_edges(Edge::Space, none, line, none);
    assert(code_of(line) == line);
    assert(line[sep] == ' ');
    lemma_space_at(line, 0, sep);
    assert(line.subrange(0, sep) =~= word);
    assert(line.subrange(sep, n) =~= tail);
    assert(tail.last() == tail[tail.len() - 1]);
    text::lemma_parts_single(tail, ',');
}

proof fn lemma_space_at(s: Seq<char>, i: int, end: int)
    requires
        0 <= i <= end < s.len(),
        text::is_space(s[end]),
        forall|k: int| i <= k < end ==> !text::is_space(#[trigger] s[k]),
    ensures
        text::space_at(s, i) == end,
    decreases end - i,
{
    if i < end {
        assert(!text::is_space(s[i]));
        lemma_space_at(s, i + 1, end);
    }
}

} // verus!
