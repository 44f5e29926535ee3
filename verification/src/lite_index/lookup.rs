//! What an index answers.
use super::layout;
use super::layout::owner_module_path;
use super::tables;
use super::tables::{LiteIndex, LiteIndexView, MethodRowView, ModuleRowView};
use crate::text;
use crate::text::{holds_text, same_text, to_lower};
use vstd::prelude::*;

verus! {

/// The module with a number is a global common module.
pub open spec fn is_global_id(modules: Seq<ModuleRowView>, id: int) -> bool {
    exists|i: int| 0 <= i < modules.len() && (#[trigger] modules[i]).id == id && modules[i].is_global
}

/// The module with a number has a path.
pub open spec fn has_path(modules: Seq<ModuleRowView>, id: int, path: Seq<char>) -> bool {
    exists|i: int| 0 <= i < modules.len() && (#[trigger] modules[i]).id == id && modules[i].path == path
}

/// The method belongs to the module with a path, and is exported where that is asked for.
pub open spec fn in_module(
    ix: LiteIndexView,
    row: MethodRowView,
    path: Seq<char>,
    exported: bool,
) -> bool {
    has_path(ix.modules, row.module_id, path) && (exported ==> row.decl.is_export)
}

/// The lower-case names of the methods of the module with a path, among the first `n` methods.
pub open spec fn names_in_module(
    ix: LiteIndexView,
    path: Seq<char>,
    exported: bool,
    n: int,
) -> Seq<Seq<char>>
    decreases n,
{
    if n <= 0 {
        seq![]
    } else if in_module(ix, ix.methods[n - 1], path, exported) {
        names_in_module(ix, path, exported, n - 1).push(ix.methods[n - 1].name_lower)
    } else {
        names_in_module(ix, path, exported, n - 1)
    }
}

/// The owner that the first module with a path, from the position `i` on, is said to have.
pub open spec fn stored_owner(modules: Seq<ModuleRowView>, path: Seq<char>, i: int) -> Option<
    Seq<char>,
>
    decreases modules.len() - i,
{
    if i < 0 || i >= modules.len() {
        None
    } else if modules[i].path == path {
        modules[i].facts.owner_path
    } else {
        stored_owner(modules, path, i + 1)
    }
}

impl LiteIndexView {
    /// Some module declares a method with the name, whatever its letter case.
    pub open spec fn method_exists(self, name: Seq<char>) -> bool {
        exists|i: int|
            0 <= i < self.methods.len() && (#[trigger] self.methods[i]).name_lower
                == text::lowercase(name)
    }

    /// The method is called without a prefix everywhere: a global common module exports it.
    pub open spec fn globally_exported(self, row: MethodRowView) -> bool {
        row.decl.is_export && is_global_id(self.modules, row.module_id)
    }

    /// A global common module exports a method with the name, whatever its letter case.
    pub open spec fn is_global_export(self, name: Seq<char>) -> bool {
        exists|i: int|
            0 <= i < self.methods.len() && (#[trigger] self.methods[i]).name_lower
                == text::lowercase(name) && self.globally_exported(self.methods[i])
    }

    /// The lower-case names of the methods of the module with a path.
    pub open spec fn module_methods(self, path: Seq<char>) -> Seq<Seq<char>> {
        names_in_module(self, path, false, self.methods.len() as int)
    }

    /// The owner of a module: what the index says, or else what the path says.
    pub open spec fn owner(self, path: Seq<char>) -> Option<Seq<char>> {
        match stored_owner(self.modules, path, 0) {
            Some(owner) => Some(owner),
            None => layout::owner_of(path),
        }
    }

    /// The lower-case names of the exported methods of the owner of a module.
    pub open spec fn owner_exports(self, path: Seq<char>) -> Seq<Seq<char>> {
        match self.owner(path) {
            Some(owner) => names_in_module(self, owner, true, self.methods.len() as int),
            None => seq![],
        }
    }

    /// The configuration has an object of a class with a name.
    pub open spec fn has_object(self, collection: Seq<char>, name: Seq<char>) -> bool {
        exists|i: int|
            0 <= i < self.objects->0.len() && (#[trigger] self.objects->0[i]).collection
                == collection && self.objects->0[i].name == name
    }
}

/// The objects of a group by their names, in a list of groups.
pub open spec fn grouped(
    groups: Seq<(String, Vec<String>)>,
    collection: Seq<char>,
    name: Seq<char>,
) -> bool {
    exists|g: int|
        0 <= g < groups.len() && (#[trigger] groups[g]).0@ == collection && text::texts(
            groups[g].1@,
        ).contains(name)
}

/// No text of a list occurs twice.
pub open spec fn distinct(list: Seq<Seq<char>>) -> bool {
    forall|i: int, j: int| 0 <= i < j < list.len() ==> #[trigger] list[i] != #[trigger] list[j]
}

/// No class has two groups, and no group names an object twice.
pub open spec fn groups_are_distinct(groups: Seq<(String, Vec<String>)>) -> bool {
    &&& forall|i: int, j: int|
        0 <= i < j < groups.len() ==> (#[trigger] groups[i]).0@ != (#[trigger] groups[j]).0@
    &&& forall|i: int| 0 <= i < groups.len() ==> distinct(text::texts((#[trigger] groups[i]).1@))
}

/// Adds a text to a list that has it once at most.
fn add_once(list: &mut Vec<String>, s: &str)
    requires
        distinct(text::texts(old(list)@)),
    ensures
        distinct(text::texts(final(list)@)),
        forall|x: Seq<char>| #[trigger]
            text::texts(final(list)@).contains(x) <==> text::texts(old(list)@).contains(x) || x == s@,
{
    if holds_text(list, s) {
        return;
    }
    let one = s.to_string();
    let ghost before = text::texts(list@);
    proof {
        text::lemma_texts_push(list@, one);
        assert(forall|x: Seq<char>| #[trigger] before.push(one@).contains(x) <==> before.contains(x) || x == one@) by {
            assert forall|x: Seq<char>| before.contains(x) || x == one@ implies before.push(one@).contains(x) by {
                if before.contains(x) {
                    let k = choose|k: int| 0 <= k < before.len() && before[k] == x;
                    assert(before.push(one@)[k] == x);
                } else {
                    assert(before.push(one@)[before.len() as int] == x);
                }
            }
        }
    }
    list.push(one);
}

/// Adds an object to its group.
fn add_to_group(groups: &mut Vec<(String, Vec<String>)>, collection: &str, name: &str)
    requires
        groups_are_distinct(old(groups)@),
    ensures
        groups_are_distinct(final(groups)@),
        forall|c: Seq<char>, n: Seq<char>| #[trigger]
            grouped(final(groups)@, c, n) <==> grouped(old(groups)@, c, n) || (c == collection@ && n
                == name@),
{
    let ghost before = groups@;
    let mut g: usize = 0;
    while g < groups.len()
        invariant
            groups@ == before,
            before == old(groups)@,
            groups_are_distinct(before),
            g <= groups.len(),
            forall|k: int| 0 <= k < g ==> (#[trigger] before[k]).0@ != collection@,
        decreases groups.len() - g,
    {
        if same_text(groups[g].0.as_str(), collection) {
            let mut names = text::copy_texts(&groups[g].1);
            assert(distinct(text::texts(before[g as int].1@)));
            add_once(&mut names, name);
            let key = groups[g].0.as_str().to_string();
            let ghost new = (key, names);
            groups.set(g, (key, names));
            proof {
                assert(groups@ == before.update(g as int, new));
                assert(groups_are_distinct(groups@)) by {
                    assert forall|i: int, j: int| 0 <= i < j < groups@.len() implies (
                    #[trigger] groups@[i]).0@ != (#[trigger] groups@[j]).0@ by {
                        assert(groups@[i].0@ == before[i].0@ && groups@[j].0@ == before[j].0@);
                    }
                    assert forall|i: int| 0 <= i < groups@.len() implies distinct(
                        text::texts((#[trigger] groups@[i]).1@),
                    ) by {
                        if i != g {
                            assert(groups@[i] == before[i]);
                        }
                    }
                }
                assert forall|c: Seq<char>, n: Seq<char>| #[trigger]
                    grouped(groups@, c, n) <==> grouped(before, c, n) || (c == collection@ && n
                        == name@) by {
                    if grouped(groups@, c, n) {
                        let k = choose|k: int|
                            0 <= k < groups@.len() && (#[trigger] groups@[k]).0@ == c
                                && text::texts(groups@[k].1@).contains(n);
                        assert(before[k].0@ == c);
                    }
                    if grouped(before, c, n) {
                        let k = choose|k: int|
                            0 <= k < before.len() && (#[trigger] before[k]).0@ == c && text::texts(
                                before[k].1@,
                            ).contains(n);
                        assert(groups@[k].0@ == c && text::texts(groups@[k].1@).contains(n));
                    }
                    if c == collection@ && n == name@ {
                        assert(groups@[g as int].0@ == c && text::texts(
                            groups@[g as int].1@,
                        ).contains(n));
                    }
                }
            }
            return;
        }
        g += 1;
    }
    let one = name.to_string();
    let names: Vec<String> = vec![one];
    assert(text::texts(names@) =~= seq![name@]);
    let key = collection.to_string();
    let ghost new = (key, names);
    groups.push((key, names));
    proof {
        let last = before.len() as int;
        assert(groups@ == before.push(new));
        assert(groups_are_distinct(groups@)) by {
            assert forall|i: int, j: int| 0 <= i < j < groups@.len() implies (
            #[trigger] groups@[i]).0@ != (#[trigger] groups@[j]).0@ by {
                assert(groups@[i] == before[i]);
                if j < last {
                    assert(groups@[j] == before[j]);
                }
            }
            assert forall|i: int| 0 <= i < groups@.len() implies distinct(
                text::texts((#[trigger] groups@[i]).1@),
            ) by {
                if i < last {
                    assert(groups@[i] == before[i]);
                }
            }
        }
        assert forall|c: Seq<char>, n: Seq<char>| #[trigger]
            grouped(groups@, c, n) <==> grouped(before, c, n) || (c == collection@ && n
                == name@) by {
            if grouped(groups@, c, n) {
                let k = choose|k: int|
                    0 <= k < groups@.len() && (#[trigger] groups@[k]).0@ == c && text::texts(
                        groups@[k].1@,
                    ).contains(n);
                if k < last {
                    assert(before[k].0@ == c);
                } else {
                    assert(groups@[k] == new);
                }
            }
            if grouped(before, c, n) {
                let k = choose|k: int|
                    0 <= k < before.len() && (#[trigger] before[k]).0@ == c && text::texts(
                        before[k].1@,
                    ).contains(n);
                assert(groups@[k].0@ == c && text::texts(groups@[k].1@).contains(n));
            }
            if c == collection@ && n == name@ {
                assert(seq![name@][0] == n);
                assert(groups@[last].0@ == c && text::texts(groups@[last].1@).contains(n));
            }
        }
    }
}

impl LiteIndex {
    /// The names of the objects of each class; `None` where the index does not know them.
    pub fn all_objects(&self) -> (r: Option<Vec<(String, Vec<String>)>>)
        ensures
            r is Some <==> self@.objects is Some,
            r matches Some(groups) ==> groups_are_distinct(groups@) && forall|
                c: Seq<char>,
                n: Seq<char>,
            | #[trigger] grouped(groups@, c, n) <==> self@.has_object(c, n),
    {
        match &self.objects {
            None => None,
            Some(objects) => {
                let mut groups: Vec<(String, Vec<String>)> = Vec::new();
                let ghost rows = self@.objects->0;
                for i in 0..objects.len()
                    invariant
                        rows == tables::object_rows(objects@),
                        groups_are_distinct(groups@),
                        forall|c: Seq<char>, n: Seq<char>| #[trigger]
                            grouped(groups@, c, n) <==> exists|k: int|
                                0 <= k < i && (#[trigger] rows[k]).collection == c && rows[k].name
                                    == n,
                {
                    assert(rows[i as int] == objects[i as int]@);
                    let ghost before = groups@;
                    add_to_group(
                        &mut groups,
                        objects[i].collection.as_str(),
                        objects[i].name.as_str(),
                    );
                    assert forall|c: Seq<char>, n: Seq<char>| #[trigger]
                        grouped(groups@, c, n) <==> exists|k: int|
                            0 <= k < i + 1 && (#[trigger] rows[k]).collection == c && rows[k].name
                                == n by {
                        assert(grouped(groups@, c, n) <==> grouped(before, c, n) || (c
                            == rows[i as int].collection && n == rows[i as int].name));
                        if grouped(before, c, n) {
                            let k = choose|k: int|
                                0 <= k < i && (#[trigger] rows[k]).collection == c && rows[k].name
                                    == n;
                            assert(rows[k].collection == c);
                        }
                        if exists|k: int|
                            0 <= k < i + 1 && (#[trigger] rows[k]).collection == c && rows[k].name
                                == n {
                            let k = choose|k: int|
                                0 <= k < i + 1 && (#[trigger] rows[k]).collection == c
                                    && rows[k].name == n;
                            if k < i {
                                assert(rows[k].collection == c);
                            }
                        }
                    }
                }
                Some(groups)
            },
        }
    }

    /// Whether some module declares a method with the name, whatever its letter case.
    pub fn method_exists(&self, name: &str) -> (r: bool)
        ensures
            r == self@.method_exists(name@),
    {
        let key = to_lower(name);
        let ghost rows = self@.methods;
        for i in 0..self.methods.len()
            invariant
                rows == self@.methods,
                rows == tables::method_rows(self.methods@),
                key@ == text::lowercase(name@),
                forall|k: int| 0 <= k < i ==> (#[trigger] rows[k]).name_lower != key@,
        {
            assert(rows[i as int] == self.methods[i as int]@);
            if same_text(self.methods[i].name_lower.as_str(), key.as_str()) {
                assert(self@.methods[i as int].name_lower == text::lowercase(name@));
                return true;
            }
        }
        false
    }

    fn global_id(&self, id: u64) -> (r: bool)
        ensures
            r == is_global_id(self@.modules, id as int),
    {
        let ghost rows = self@.modules;
        for i in 0..self.modules.len()
            invariant
                rows == self@.modules,
                rows == tables::module_rows(self.modules@),
                forall|k: int| 0 <= k < i ==> !((#[trigger] rows[k]).id == id && rows[k].is_global),
        {
            assert(rows[i as int] == self.modules[i as int]@);
            if self.modules[i].id == id && self.modules[i].is_global {
                assert(self@.modules[i as int].id == id);
                return true;
            }
        }
        false
    }

    fn id_has_path(&self, id: u64, path: &str) -> (r: bool)
        ensures
            r == has_path(self@.modules, id as int, path@),
    {
        let ghost rows = self@.modules;
        for i in 0..self.modules.len()
            invariant
                rows == self@.modules,
                rows == tables::module_rows(self.modules@),
                forall|k: int| 0 <= k < i ==> !((#[trigger] rows[k]).id == id && rows[k].path == path@),
        {
            assert(rows[i as int] == self.modules[i as int]@);
            if self.modules[i].id == id && same_text(self.modules[i].path.as_str(), path) {
                assert(self@.modules[i as int].id == id);
                return true;
            }
        }
        false
    }

    /// Whether a global common module exports a method with the name, whatever its letter case.
    /// Such a method is called without a prefix everywhere.
    pub fn is_global_export(&self, name: &str) -> (r: bool)
        ensures
            r == self@.is_global_export(name@),
    {
        let key = to_lower(name);
        let ghost rows = self@.methods;
        for i in 0..self.methods.len()
            invariant
                rows == self@.methods,
                rows == tables::method_rows(self.methods@),
                key@ == text::lowercase(name@),
                forall|k: int|
                    0 <= k < i ==> !((#[trigger] rows[k]).name_lower == key@
                        && self@.globally_exported(rows[k])),
        {
            let m = &self.methods[i];
            assert(rows[i as int] == m@);
            if same_text(m.name_lower.as_str(), key.as_str()) && m.is_export && self.global_id(
                m.module_id,
            ) {
                assert(self@.methods[i as int].name_lower == text::lowercase(name@));
                return true;
            }
        }
        false
    }

    fn names_of(&self, path: &str, exported: bool) -> (r: Vec<String>)
        ensures
            text::texts(r@) == names_in_module(self@, path@, exported, self@.methods.len() as int),
    {
        let mut names: Vec<String> = Vec::new();
        let ghost rows = self@.methods;
        assert(text::texts(names@) =~= seq![]);
        for i in 0..self.methods.len()
            invariant
                rows == self@.methods,
                rows == tables::method_rows(self.methods@),
                text::texts(names@) == names_in_module(self@, path@, exported, i as int),
        {
            let m = &self.methods[i];
            assert(rows[i as int] == m@);
            if (m.is_export || !exported) && self.id_has_path(m.module_id, path) {
                let name = m.name_lower.as_str().to_string();
                proof {
                    text::lemma_texts_push(names@, name);
                }
                names.push(name);
            }
        }
        names
    }

    /// The lower-case names of the methods of the module with a path.
    pub fn module_methods(&self, path: &str) -> (r: Vec<String>)
        ensures
            text::texts(r@) == self@.module_methods(path@),
    {
        self.names_of(path, false)
    }

    fn owner_path(&self, path: &str) -> (r: Option<String>)
        ensures
            text::opt_text(r) == self@.owner(path@),
    {
        let ghost rows = self@.modules;
        let mut i: usize = 0;
        while i < self.modules.len()
            invariant
                rows == self@.modules,
                rows == tables::module_rows(self.modules@),
                i <= self.modules.len(),
                stored_owner(rows, path@, 0) == stored_owner(rows, path@, i as int),
            decreases self.modules.len() - i,
        {
            assert(rows[i as int] == self.modules[i as int]@);
            if same_text(self.modules[i].path.as_str(), path) {
                return match &self.modules[i].owner_path {
                    Some(owner) => Some(owner.as_str().to_string()),
                    None => owner_module_path(path),
                };
            }
            i += 1;
        }
        owner_module_path(path)
    }

    /// The lower-case names of the exported methods of the module that owns the given one. The
    /// owner is what the index says; where it says nothing, it follows from the path, so that the
    /// calls of a form that is not in the index yet are known too.
    pub fn owner_exports(&self, path: &str) -> (r: Vec<String>)
        ensures
            text::texts(r@) == self@.owner_exports(path@),
    {
        match self.owner_path(path) {
            Some(owner) => self.names_of(owner.as_str(), true),
            None => {
                let names: Vec<String> = Vec::new();
                assert(text::texts(names@) =~= seq![]);
                names
            },
        }
    }

    /// The lower-case names of all methods, each one once.
    pub fn all_method_names(&self) -> (r: Vec<String>)
        ensures
            distinct(text::texts(r@)),
            forall|x: Seq<char>| #[trigger]
                text::texts(r@).contains(x) <==> exists|i: int|
                    0 <= i < self@.methods.len() && (#[trigger] self@.methods[i]).name_lower == x,
    {
        let mut names: Vec<String> = Vec::new();
        let ghost rows = self@.methods;
        for i in 0..self.methods.len()
            invariant
                rows == self@.methods,
                rows == tables::method_rows(self.methods@),
                distinct(text::texts(names@)),
                forall|x: Seq<char>| #[trigger]
                    text::texts(names@).contains(x) <==> exists|k: int|
                        0 <= k < i && (#[trigger] rows[k]).name_lower == x,
        {
            assert(rows[i as int] == self.methods[i as int]@);
            let ghost before = text::texts(names@);
            add_once(&mut names, self.methods[i].name_lower.as_str());
            assert forall|x: Seq<char>| #[trigger] text::texts(names@).contains(x) <==> exists|k: int|
                0 <= k < i + 1 && (#[trigger] rows[k]).name_lower == x by {
                assert(text::texts(names@).contains(x) <==> before.contains(x) || x
                    == rows[i as int].name_lower);
                if before.contains(x) {
                    let k = choose|k: int| 0 <= k < i && (#[trigger] rows[k]).name_lower == x;
                    assert(rows[k].name_lower == x);
                }
                if exists|k: int| 0 <= k < i + 1 && (#[trigger] rows[k]).name_lower == x {
                    let k = choose|k: int| 0 <= k < i + 1 && (#[trigger] rows[k]).name_lower == x;
                    if k < i {
                        assert(rows[k].name_lower == x);
                    }
                }
            }
        }
        names
    }

    /// The lower-case names of all methods that global common modules export, each one once.
    pub fn all_global_export_names(&self) -> (r: Vec<String>)
        ensures
            distinct(text::texts(r@)),
            forall|x: Seq<char>| #[trigger]
                text::texts(r@).contains(x) <==> exists|i: int|
                    0 <= i < self@.methods.len() && (#[trigger] self@.methods[i]).name_lower == x
                        && self@.globally_exported(self@.methods[i]),
    {
        let mut names: Vec<String> = Vec::new();
        let ghost rows = self@.methods;
        for i in 0..self.methods.len()
            invariant
                rows == self@.methods,
                rows == tables::method_rows(self.methods@),
                distinct(text::texts(names@)),
                forall|x: Seq<char>| #[trigger]
                    text::texts(names@).contains(x) <==> exists|k: int|
                        0 <= k < i && (#[trigger] rows[k]).name_lower == x
                            && self@.globally_exported(rows[k]),
        {
            let m = &self.methods[i];
            assert(rows[i as int] == m@);
            let ghost before = text::texts(names@);
            let seen = m.is_export && self.global_id(m.module_id);
            if seen {
                add_once(&mut names, m.name_lower.as_str());
            }
            assert forall|x: Seq<char>| #[trigger] text::texts(names@).contains(x) <==> exists|k: int|
                0 <= k < i + 1 && (#[trigger] rows[k]).name_lower == x && self@.globally_exported(
                    rows[k],
                ) by {
                assert(text::texts(names@).contains(x) <==> before.contains(x) || (seen && x
                    == rows[i as int].name_lower));
                if before.contains(x) {
                    let k = choose|k: int|
                        0 <= k < i && (#[trigger] rows[k]).name_lower == x
                            && self@.globally_exported(rows[k]);
                    assert(rows[k].name_lower == x);
                }
                if exists|k: int|
                    0 <= k < i + 1 && (#[trigger] rows[k]).name_lower == x
                        && self@.globally_exported(rows[k]) {
                    let k = choose|k: int|
                        0 <= k < i + 1 && (#[trigger] rows[k]).name_lower == x
                            && self@.globally_exported(rows[k]);
                    if k < i {
                        assert(rows[k].name_lower == x);
                    }
                }
            }
        }
        names
    }

    /// The lower-case names of the variables that are seen everywhere, each one once; `None`
    /// where the index does not know them.
    pub fn all_global_var_names(&self) -> (r: Option<Vec<String>>)
        ensures
            r is Some <==> self@.global_vars is Some,
            r matches Some(names) ==> distinct(text::texts(names@)) && forall|x: Seq<char>|
             #[trigger]
                text::texts(names@).contains(x) <==> exists|i: int|
                    0 <= i < self@.global_vars->0.len() && (#[trigger] self@.global_vars->0[i]).name_lower
                        == x,
    {
        match &self.global_vars {
            None => None,
            Some(vars) => {
                let mut names: Vec<String> = Vec::new();
                let ghost rows = self@.global_vars->0;
                for i in 0..vars.len()
                    invariant
                        rows == tables::var_rows(vars@),
                        distinct(text::texts(names@)),
                        forall|x: Seq<char>| #[trigger]
                            text::texts(names@).contains(x) <==> exists|k: int|
                                0 <= k < i && (#[trigger] rows[k]).name_lower == x,
                {
                    assert(rows[i as int] == vars[i as int]@);
                    let ghost before = text::texts(names@);
                    add_once(&mut names, vars[i].name_lower.as_str());
                    assert forall|x: Seq<char>| #[trigger]
                        text::texts(names@).contains(x) <==> exists|k: int|
                            0 <= k < i + 1 && (#[trigger] rows[k]).name_lower == x by {
                        assert(text::texts(names@).contains(x) <==> before.contains(x) || x
                            == rows[i as int].name_lower);
                        if before.contains(x) {
                            let k = choose|k: int|
                                0 <= k < i && (#[trigger] rows[k]).name_lower == x;
                            assert(rows[k].name_lower == x);
                        }
                        if exists|k: int| 0 <= k < i + 1 && (#[trigger] rows[k]).name_lower == x {
                            let k = choose|k: int|
                                0 <= k < i + 1 && (#[trigger] rows[k]).name_lower == x;
                            if k < i {
                                assert(rows[k].name_lower == x);
                            }
                        }
                    }
                }
                Some(names)
            },
        }
    }
}

/// A name is one of a module exactly where a row of methods has it and a row of modules ties its
/// number to the path; of the exported ones only where the row says so.
pub proof fn law_names_of_a_module(ix: LiteIndexView, path: Seq<char>, exported: bool, n: int, name: Seq<char>)
    requires
        0 <= n <= ix.methods.len(),
    ensures
        names_in_module(ix, path, exported, n).contains(name) <==> exists|i: int|
            0 <= i < n && (#[trigger] ix.methods[i]).name_lower == name && (exported
                ==> ix.methods[i].decl.is_export) && exists|j: int|
                0 <= j < ix.modules.len() && (#[trigger] ix.modules[j]).id == ix.methods[i].module_id
                    && ix.modules[j].path == path,
        names_in_module(ix, path, exported, n).len() <= n,
    decreases n,
{
    if n > 0 {
        law_names_of_a_module(ix, path, exported, n - 1, name);
        let before = names_in_module(ix, path, exported, n - 1);
        let all = names_in_module(ix, path, exported, n);
        if before.contains(name) {
            let k = choose|k: int| 0 <= k < before.len() && before[k] == name;
            assert(all[k] == name);
        }
        if in_module(ix, ix.methods[n - 1], path, exported) {
            assert(all[before.len() as int] == ix.methods[n - 1].name_lower);
        }
        if all.contains(name) {
            let k = choose|k: int| 0 <= k < all.len() && all[k] == name;
            if k < before.len() {
                assert(before[k] == name);
            }
        }
    }
}

proof fn lemma_stored_owner(modules: Seq<ModuleRowView>, path: Seq<char>, from: int, i: int)
    requires
        0 <= from <= i <= modules.len(),
        forall|k: int| from <= k < i ==> (#[trigger] modules[k]).path != path,
        i < modules.len() ==> modules[i].path == path,
    ensures
        stored_owner(modules, path, from) == (if i < modules.len() {
            modules[i].facts.owner_path
        } else {
            None
        }),
    decreases i - from,
{
    if from < i {
        assert(modules[from].path != path);
        lemma_stored_owner(modules, path, from + 1, i);
    }
}

/// The owner of a module is the one that the index holds for its path; where the index holds none,
/// it is the one that the path names.
pub proof fn law_stored_owner_goes_first(ix: LiteIndexView, path: Seq<char>, i: int)
    requires
        0 <= i <= ix.modules.len(),
        forall|k: int| 0 <= k < i ==> (#[trigger] ix.modules[k]).path != path,
        i < ix.modules.len() ==> ix.modules[i].path == path,
    ensures
        i < ix.modules.len() && ix.modules[i].facts.owner_path is Some ==> ix.owner(path)
            == ix.modules[i].facts.owner_path,
        i == ix.modules.len() || ix.modules[i].facts.owner_path is None ==> ix.owner(path)
            == layout::owner_of(path),
{
    lemma_stored_owner(ix.modules, path, 0, i);
}

/// What the owner of a module exports: the exported names of the module at the path of the owner.
/// A module without an owner gets none.
pub proof fn law_exports_of_the_owner(ix: LiteIndexView, path: Seq<char>, name: Seq<char>)
    ensures
        ix.owner(path) is None ==> ix.owner_exports(path).len() == 0,
        ix.owner(path) matches Some(owner) ==> (ix.owner_exports(path).contains(name) <==> exists|
            i: int,
            j: int,
        |
            0 <= i < ix.methods.len() && 0 <= j < ix.modules.len() && (#[trigger] ix.methods[i]).name_lower
                == name && ix.methods[i].decl.is_export && (#[trigger] ix.modules[j]).id
                == ix.methods[i].module_id && ix.modules[j].path == owner),
{
    if let Some(owner) = ix.owner(path) {
        law_names_of_a_module(ix, owner, true, ix.methods.len() as int, name);
    }
}

} // verus!
