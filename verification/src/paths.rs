//! Paths of modules in a dump of a configuration.
use crate::text;
use crate::text::{chars_of, ends_at, string_of, to_lower};
use vstd::prelude::*;

verus! {

/// A path with forward slashes only.
pub open spec fn slashed(path: Seq<char>) -> Seq<char> {
    path.map_values(
        |c: char|
            if c == '\\' {
                '/'
            } else {
                c
            },
    )
}

/// A path in lower case with forward slashes only.
pub open spec fn normal(path: Seq<char>) -> Seq<char> {
    text::lowercase(slashed(path))
}

/// A path with forward slashes only.
pub fn slash(path: &str) -> (r: String)
    ensures
        r@ == slashed(path@),
{
    let chars = chars_of(path);
    let mut out: Vec<char> = Vec::new();
    let mut i: usize = 0;
    while i < chars.len()
        invariant
            chars@ == path@,
            i <= chars.len(),
            out.len() == i,
            forall|k: int| 0 <= k < i ==> #[trigger] out[k] == slashed(path@)[k],
        decreases chars.len() - i,
    {
        if chars[i] == '\\' {
            out.push('/');
        } else {
            out.push(chars[i]);
        }
        i += 1;
    }
    assert(out@ =~= slashed(path@));
    string_of(out.as_slice())
}

/// A path in lower case with forward slashes only.
pub fn normalize(path: &str) -> (r: String)
    ensures
        r@ == normal(path@),
{
    to_lower(slash(path).as_str())
}

/// The folder `dir` (its name with a slash behind it) starts at `i`.
pub open spec fn folder_at(p: Seq<char>, i: int, dir: Seq<char>) -> bool {
    &&& 0 <= i
    &&& i + dir.len() <= p.len()
    &&& i == 0 || p[i - 1] == '/'
    &&& p.subrange(i, i + dir.len()) == dir
}

/// No slash stands from `i` up to `end`.
pub open spec fn one_segment(p: Seq<char>, i: int, end: int) -> bool {
    forall|k: int| i <= k < end ==> #[trigger] p[k] != '/'
}

/// The path ends in a folder `dir`, one name in it, and `tail`.
pub open spec fn ends_under(p: Seq<char>, dir: Seq<char>, tail: Seq<char>) -> bool {
    let end = p.len() - tail.len();
    text::ends_with(p, tail) && exists|i: int| #[trigger]
        folder_at(p, i, dir) && i + dir.len() < end && one_segment(p, i + dir.len(), end)
}

/// Whether a path ends in a folder `dir`, one name in it, and `tail`.
fn is_under(p: &Vec<char>, dir: &Vec<char>, tail: &Vec<char>) -> (r: bool)
    requires
        dir.len() > 0,
        dir@.last() == '/',
    ensures
        r == ends_under(p@, dir@, tail@),
{
    if !ends_at(p, p.len(), tail) {
        assert(p@.take(p.len() as int) =~= p@);
        return false;
    }
    assert(p@.take(p.len() as int) =~= p@);
    let end = p.len() - tail.len();
    let mut from = end;
    while from > 0 && p[from - 1] != '/'
        invariant
            from <= end <= p.len(),
            one_segment(p@, from as int, end as int),
        decreases from,
    {
        from -= 1;
    }
    proof {
        assert forall|i: int| #[trigger]
            folder_at(p@, i, dir@) && i + dir@.len() < end && one_segment(
                p@,
                i + dir@.len(),
                end as int,
            ) implies i + dir@.len() == from by {
            assert(p@.subrange(i, i + dir@.len())[dir@.len() - 1] == '/');
            assert(p@[i + dir@.len() - 1] == '/');
            if from > i + dir@.len() {
                assert(p@[from - 1] == '/');
            }
        }
    }
    if from == end || dir.len() > from {
        return false;
    }
    let start = from - dir.len();
    let found = ends_at(p, from, dir) && (start == 0 || p[start - 1] == '/');
    assert(p@.take(from as int).subrange(start as int, from as int) =~= p@.subrange(
        start as int,
        from as int,
    ));
    assert(found == folder_at(p@, start as int, dir@));
    found
}

/// The path is that of a module of a form: a form of an object, a common form, or a form of an
/// external data processor.
pub open spec fn form_module(path: Seq<char>) -> bool {
    let p = normal(path);
    ||| ends_under(p, "forms/"@, "/ext/form/module.bsl"@)
    ||| ends_under(p, "commonforms/"@, "/ext/form/module.bsl"@)
    ||| ends_under(p, "form/"@, "/form.obj.bsl"@)
}

/// The path is that of a common module.
pub open spec fn common_module(path: Seq<char>) -> bool {
    ends_under(normal(path), "commonmodules/"@, "/ext/module.bsl"@)
}

/// Whether a path is that of a module of a form. Letter case and the kind of slashes do not
/// matter.
pub fn is_form_module(path: &str) -> (r: bool)
    ensures
        r == form_module(path@),
{
    let p = chars_of(normalize(path).as_str());
    proof {
        reveal_strlit("forms/");
        reveal_strlit("commonforms/");
        reveal_strlit("form/");
    }
    let config_tail = chars_of("/ext/form/module.bsl");
    is_under(&p, &chars_of("forms/"), &config_tail) || is_under(
        &p,
        &chars_of("commonforms/"),
        &config_tail,
    ) || is_under(&p, &chars_of("form/"), &chars_of("/form.obj.bsl"))
}

/// Whether a path is that of a common module. Letter case and the kind of slashes do not
/// matter.
pub fn is_common_module(path: &str) -> (r: bool)
    ensures
        r == common_module(path@),
{
    let p = chars_of(normalize(path).as_str());
    proof {
        reveal_strlit("commonmodules/");
    }
    is_under(&p, &chars_of("commonmodules/"), &chars_of("/ext/module.bsl"))
}

proof fn lemma_ends_under(p: Seq<char>, pre: Seq<char>, dir: Seq<char>, name: Seq<char>, tail: Seq<char>)
    requires
        p == pre + dir + name + tail,
        pre.len() == 0 || pre.last() == '/',
        name.len() > 0,
        forall|k: int| 0 <= k < name.len() ==> #[trigger] name[k] != '/',
    ensures
        ends_under(p, dir, tail),
{
    let i = pre.len() as int;
    let end = p.len() - tail.len();
    assert(p.subrange(end, p.len() as int) =~= tail);
    assert(p.subrange(i, i + dir.len()) =~= dir);
    if i > 0 {
        assert(p[i - 1] == pre.last());
    }
    assert(folder_at(p, i, dir));
    assert forall|k: int| i + dir.len() <= k < end implies #[trigger] p[k] != '/' by {
        assert(p[k] == name[k - i - dir.len()]);
    }
}

/// The module of an object of a folder: the name of the object is one whole part of the path
/// between the folder and the end, and the folder is one or more whole parts. The letter case of
/// the path and the direction of its slashes do not matter.
pub proof fn law_modules_are_told_by_their_folders(path: Seq<char>, pre: Seq<char>, name: Seq<char>)
    requires
        pre.len() == 0 || pre.last() == '/',
        name.len() > 0,
        forall|k: int| 0 <= k < name.len() ==> #[trigger] name[k] != '/',
    ensures
        normal(path) == pre + "commonmodules/"@ + name + "/ext/module.bsl"@ ==> common_module(path),
        normal(path) == pre + "forms/"@ + name + "/ext/form/module.bsl"@ ==> form_module(path),
        normal(path) == pre + "commonforms/"@ + name + "/ext/form/module.bsl"@ ==> form_module(path),
        normal(path) == pre + "form/"@ + name + "/form.obj.bsl"@ ==> form_module(path),
{
    let p = normal(path);
    if p == pre + "commonmodules/"@ + name + "/ext/module.bsl"@ {
        lemma_ends_under(p, pre, "commonmodules/"@, name, "/ext/module.bsl"@);
    }
    if p == pre + "forms/"@ + name + "/ext/form/module.bsl"@ {
        lemma_ends_under(p, pre, "forms/"@, name, "/ext/form/module.bsl"@);
    }
    if p == pre + "commonforms/"@ + name + "/ext/form/module.bsl"@ {
        lemma_ends_under(p, pre, "commonforms/"@, name, "/ext/form/module.bsl"@);
    }
    if p == pre + "form/"@ + name + "/form.obj.bsl"@ {
        lemma_ends_under(p, pre, "form/"@, name, "/form.obj.bsl"@);
    }
}

proof fn lemma_under_splits(p: Seq<char>, dir: Seq<char>, tail: Seq<char>) -> (r: (Seq<char>, Seq<char>))
    requires
        ends_under(p, dir, tail),
    ensures
        p == r.0 + dir + r.1 + tail,
        r.0.len() == 0 || r.0.last() == '/',
        r.1.len() > 0,
        forall|k: int| 0 <= k < r.1.len() ==> #[trigger] r.1[k] != '/',
{
    let end = p.len() - tail.len();
    let i = choose|i: int| #[trigger]
        folder_at(p, i, dir) && i + dir.len() < end && one_segment(p, i + dir.len(), end);
    let pre = p.take(i);
    let name = p.subrange(i + dir.len(), end);
    assert forall|k: int| 0 <= k < p.len() implies p[k] == (pre + dir + name + tail)[k] by {
        if i <= k < i + dir.len() {
            assert(p.subrange(i, i + dir.len())[k - i] == dir[k - i]);
        } else if end <= k {
            assert(p.subrange(end, p.len() as int)[k - end] == tail[k - end]);
        }
    }
    assert(p =~= pre + dir + name + tail);
    assert forall|k: int| 0 <= k < name.len() implies #[trigger] name[k] != '/' by {
        assert(name[k] == p[i + dir.len() + k]);
    }
    (pre, name)
}

/// Nothing else is a common module: its path ends with the folder of common modules, one name and
/// the end of a module.
pub proof fn law_common_module_has_its_folder(path: Seq<char>)
    requires
        common_module(path),
    ensures
        exists|pre: Seq<char>, name: Seq<char>|
            normal(path) == #[trigger] (pre + "commonmodules/"@ + name + "/ext/module.bsl"@) && name.len() > 0
                && !name.contains('/') && (pre.len() == 0 || pre.last() == '/'),
{
    let (pre, name) = lemma_under_splits(normal(path), "commonmodules/"@, "/ext/module.bsl"@);
    assert(!name.contains('/')) by {
        if name.contains('/') {
            let k = choose|k: int| 0 <= k < name.len() && name[k] == '/';
            assert(name[k] != '/');
        }
    }
    assert(normal(path) == pre + "commonmodules/"@ + name + "/ext/module.bsl"@);
}

/// The direction of the slashes of a path does not matter, and turning them changes nothing else.
pub proof fn law_slashes_do_not_matter(path: Seq<char>)
    ensures
        form_module(slashed(path)) == form_module(path),
        common_module(slashed(path)) == common_module(path),
        slashed(path).len() == path.len(),
        forall|k: int|
            0 <= k < path.len() ==> #[trigger] slashed(path)[k] == (if path[k] == '\\' {
                '/'
            } else {
                path[k]
            }),
{
    assert(slashed(slashed(path)) =~= slashed(path));
}

} // verus!
