//! The configurations that a server knows, by their names.
use super::config;
use super::config::SymbolSourceConfig;
use crate::text;
use crate::text::{chars_of, join, same_text};
use vstd::prelude::*;

verus! {

/// From the position `i` on, the first text stands before the second one: at the first character
/// in which they differ it has the smaller one, or it ends there.
pub open spec fn before_from(a: Seq<char>, b: Seq<char>, i: int) -> bool
    decreases a.len() - i,
{
    if i < 0 || i >= b.len() {
        false
    } else if i >= a.len() {
        true
    } else if a[i] == b[i] {
        before_from(a, b, i + 1)
    } else {
        (a[i] as int) < (b[i] as int)
    }
}

/// The first text stands before the second one.
pub open spec fn stands_first(a: Seq<char>, b: Seq<char>) -> bool {
    before_from(a, b, 0)
}

/// Whether the first text stands before the second one.
pub fn is_before(a: &str, b: &str) -> (r: bool)
    ensures
        r == stands_first(a@, b@),
{
    let x = chars_of(a);
    let y = chars_of(b);
    let mut i: usize = 0;
    while i < x.len() && i < y.len()
        invariant
            x@ == a@,
            y@ == b@,
            i <= x.len(),
            i <= y.len(),
            stands_first(a@, b@) == before_from(a@, b@, i as int),
        decreases x.len() - i,
    {
        let (p, q): (char, char) = (x[i], y[i]);
        if p != q {
            return p < q;
        }
        i += 1;
    }
    i < y.len()
}

proof fn lemma_order_total(a: Seq<char>, b: Seq<char>, i: int)
    requires
        0 <= i <= a.len(),
        i <= b.len(),
        a.take(i) == b.take(i),
        a != b,
    ensures
        before_from(a, b, i) || before_from(b, a, i),
        !(before_from(a, b, i) && before_from(b, a, i)),
    decreases a.len() - i,
{
    if i == a.len() && i == b.len() {
        assert(a =~= b) by {
            assert(a.take(i) =~= a && b.take(i) =~= b);
        }
    } else if i < a.len() && i < b.len() && a[i] == b[i] {
        assert(a.take(i + 1) =~= a.take(i).push(a[i]));
        assert(b.take(i + 1) =~= b.take(i).push(b[i]));
        lemma_order_total(a, b, i + 1);
    }
}

proof fn lemma_order_transitive(a: Seq<char>, b: Seq<char>, c: Seq<char>, i: int)
    requires
        0 <= i,
        before_from(a, b, i),
        before_from(b, c, i),
    ensures
        before_from(a, c, i),
    decreases a.len() - i,
{
    if i < a.len() && i < b.len() && i < c.len() && a[i] == b[i] && b[i] == c[i] {
        lemma_order_transitive(a, b, c, i + 1);
    }
}

proof fn lemma_order_strict(a: Seq<char>, i: int)
    ensures
        !before_from(a, a, i),
    decreases a.len() - i,
{
    if 0 <= i < a.len() {
        lemma_order_strict(a, i + 1);
    }
}

/// One configuration: where its names come from, and how it stands with them.
#[derive(Debug, Clone)]
pub struct SourceSlot {
    pub config: SymbolSourceConfig,
    /// The names are at hand.
    pub connected: bool,
    /// What went wrong when they were last asked for.
    pub last_error: Option<String>,
    /// Its index is being made.
    pub rebuilding: bool,
}

impl SourceSlot {
    /// A configuration after the first attempt to get its names: they are at hand or not, or the
    /// attempt failed.
    pub fn new(config: SymbolSourceConfig, opened: Result<bool, String>) -> (r: SourceSlot)
        ensures
            made_from(r, config, opened),
    {
        match opened {
            Ok(connected) => SourceSlot { config, connected, last_error: None, rebuilding: false },
            Err(e) => SourceSlot {
                config,
                connected: false,
                last_error: Some(e),
                rebuilding: false,
            },
        }
    }

    /// The outcome of one more attempt to get the names. A failure keeps what went wrong.
    pub fn reconnected(&mut self, opened: Result<bool, String>)
        ensures
            final(self).config == old(self).config,
            final(self).rebuilding == old(self).rebuilding,
            final(self).connected == (opened matches Ok(b) && b),
            text::opt_text(final(self).last_error) == (match opened {
                Ok(_) => None,
                Err(e) => Some(e@),
            }),
    {
        match opened {
            Ok(connected) => {
                self.connected = connected;
                self.last_error = None;
            },
            Err(e) => {
                self.connected = false;
                self.last_error = Some(e);
            },
        }
    }

    /// Starts the making of the index, unless it is under way.
    pub fn start_rebuild(&mut self) -> (r: bool)
        ensures
            r == !old(self).rebuilding,
            final(self).rebuilding,
            final(self).config == old(self).config,
            final(self).connected == old(self).connected,
            final(self).last_error == old(self).last_error,
    {
        if self.rebuilding {
            return false;
        }
        self.rebuilding = true;
        true
    }

    /// The making of the index is over.
    pub fn finish_rebuild(&mut self)
        ensures
            !final(self).rebuilding,
            final(self).config == old(self).config,
            final(self).connected == old(self).connected,
            final(self).last_error == old(self).last_error,
    {
        self.rebuilding = false;
    }
}

/// The configuration is what its settings and the first attempt to get its names make.
pub open spec fn made_from(
    slot: SourceSlot,
    settings: SymbolSourceConfig,
    opened: Result<bool, String>,
) -> bool {
    &&& slot.config == settings
    &&& slot.connected == (opened matches Ok(b) && b)
    &&& text::opt_text(slot.last_error) == (match opened {
        Ok(_) => None,
        Err(e) => Some(e@),
    })
    &&& !slot.rebuilding
}

/// The names of configurations.
pub open spec fn aliases(slots: Seq<(String, SourceSlot)>) -> Seq<Seq<char>> {
    slots.map_values(|s: (String, SourceSlot)| s.0@)
}

/// The names are in order, and none occurs twice.
pub open spec fn in_order(names: Seq<Seq<char>>) -> bool {
    forall|i: int, j: int|
        0 <= i < j < names.len() ==> stands_first(#[trigger] names[i], #[trigger] names[j])
}

/// The position of a name, from `i` on.
pub open spec fn name_at(names: Seq<Seq<char>>, name: Seq<char>, i: int) -> Option<int>
    decreases names.len() - i,
{
    if i < 0 || i >= names.len() {
        None
    } else if names[i] == name {
        Some(i)
    } else {
        name_at(names, name, i + 1)
    }
}

pub proof fn lemma_name_at(names: Seq<Seq<char>>, name: Seq<char>, i: int)
    requires
        0 <= i <= names.len(),
    ensures
        match name_at(names, name, i) {
            Some(k) => i <= k < names.len() && names[k] == name,
            None => forall|k: int| i <= k < names.len() ==> #[trigger] names[k] != name,
        },
    decreases names.len() - i,
{
    if i < names.len() && names[i] != name {
        lemma_name_at(names, name, i + 1);
    }
}

/// The configurations of a server, in the order of their names.
#[derive(Debug)]
pub struct Slots {
    list: Vec<(String, SourceSlot)>,
}

impl Slots {
    /// The configurations with their names.
    pub closed spec fn view(&self) -> Seq<(Seq<char>, SourceSlot)> {
        self.list@.map_values(|s: (String, SourceSlot)| (s.0@, s.1))
    }

    /// The names.
    pub open spec fn names(&self) -> Seq<Seq<char>> {
        self.view().map_values(|s: (Seq<char>, SourceSlot)| s.0)
    }

    /// The names are in order, and none occurs twice.
    #[verifier::type_invariant]
    pub closed spec fn ordered(self) -> bool {
        in_order(aliases(self.list@))
    }

    proof fn lemma_names(&self)
        ensures
            self.names() == aliases(self.list@),
            self.view().len() == self.list@.len(),
            forall|i: int|
                0 <= i < self.list@.len() ==> #[trigger] self.view()[i] == (
                    self.list@[i].0@,
                    self.list@[i].1,
                ),
    {
        assert(self.names() =~= aliases(self.list@));
    }

    /// No configurations.
    pub fn new() -> (r: Slots)
        ensures
            r.view() == Seq::<(Seq<char>, SourceSlot)>::empty(),
    {
        let r = Slots { list: Vec::new() };
        assert(r.view() =~= Seq::<(Seq<char>, SourceSlot)>::empty());
        r
    }

    /// How many configurations there are.
    pub fn len(&self) -> (r: usize)
        ensures
            r == self.view().len(),
            in_order(self.names()),
    {
        proof {
            use_type_invariant(self);
            self.lemma_names();
        }
        self.list.len()
    }

    /// A configuration.
    pub fn get(&self, i: usize) -> (r: &SourceSlot)
        requires
            i < self.view().len(),
        ensures
            *r == self.view()[i as int].1,
    {
        proof {
            self.lemma_names();
        }
        &self.list[i].1
    }

    /// The name of a configuration.
    pub fn alias(&self, i: usize) -> (r: &str)
        requires
            i < self.view().len(),
        ensures
            r@ == self.names()[i as int],
    {
        proof {
            self.lemma_names();
        }
        self.list[i].0.as_str()
    }

    /// The position of the configuration with a name.
    pub fn find(&self, name: &str) -> (r: Option<usize>)
        ensures
            match r {
                Some(i) => i < self.view().len() && name_at(self.names(), name@, 0) == Some(i as int),
                None => name_at(self.names(), name@, 0) is None,
            },
    {
        proof {
            self.lemma_names();
        }
        let ghost all = self.names();
        let mut i: usize = 0;
        while i < self.list.len()
            invariant
                all == self.names(),
                all == aliases(self.list@),
                self.view().len() == self.list.len(),
                i <= self.list.len(),
                name_at(all, name@, 0) == name_at(all, name@, i as int),
            decreases self.list.len() - i,
        {
            assert(all[i as int] == self.list[i as int].0@);
            if same_text(self.list[i].0.as_str(), name) {
                return Some(i);
            }
            i += 1;
        }
        None
    }

    /// The names in one text, with a comma between them.
    pub fn listed(&self) -> (r: String)
        ensures
            r@ == text::joined(self.names(), ", "@),
    {
        proof {
            self.lemma_names();
        }
        let ghost all = self.names();
        let mut names: Vec<String> = Vec::new();
        for i in 0..self.list.len()
            invariant
                all == aliases(self.list@),
                names.len() == i,
                forall|k: int| 0 <= k < i ==> (#[trigger] names[k])@ == all[k],
        {
            names.push(self.list[i].0.as_str().to_string());
        }
        assert(text::texts(names@) =~= all);
        join(&names, ", ")
    }

    /// Replaces the configuration at a position; its name and all others stay.
    pub fn replace(&mut self, i: usize, slot: SourceSlot)
        requires
            i < old(self).view().len(),
        ensures
            final(self).view() == old(self).view().update(
                i as int,
                (old(self).view()[i as int].0, slot),
            ),
            final(self).names() == old(self).names(),
    {
        proof {
            use_type_invariant(&*self);
            self.lemma_names();
        }
        let ghost before = self.view();
        let ghost held = self.list@;
        let name = self.list[i].0.as_str().to_string();
        let mut list: Vec<(String, SourceSlot)> = Vec::new();
        std::mem::swap(&mut list, &mut self.list);
        let ghost pair = (name, slot);
        list.set(i, (name, slot));
        assert(list@ == held.update(i as int, pair));
        assert(aliases(list@) =~= aliases(held));
        self.list = list;
        proof {
            self.lemma_names();
            assert(self.view() =~= before.update(i as int, (before[i as int].0, slot)));
        }
    }

    /// Sets a configuration: a new one is put into its place by its name, and one with the same
    /// name is replaced. All others stay.
    pub fn set(&mut self, name: String, slot: SourceSlot)
        ensures
            match name_at(old(self).names(), name@, 0) {
                Some(i) => final(self).view() == old(self).view().update(i, (name@, slot)),
                None => exists|i: int|
                    0 <= i <= old(self).view().len() && final(self).view() == #[trigger] old(
                        self,
                    ).view().insert(i, (name@, slot)),
            },
            in_order(final(self).names()),
    {
        proof {
            use_type_invariant(&*self);
            self.lemma_names();
        }
        let ghost names = self.names();
        let ghost before = self.view();
        let ghost held = self.list@;
        let mut i: usize = 0;
        while i < self.list.len() && is_before(self.list[i].0.as_str(), name.as_str())
            invariant
                self.list@ == held,
                names == aliases(held),
                i <= self.list.len(),
                forall|k: int| 0 <= k < i ==> stands_first(#[trigger] names[k], name@),
            decreases self.list.len() - i,
        {
            assert(names[i as int] == held[i as int].0@);
            i += 1;
        }
        proof {
            lemma_name_at(names, name@, 0);
            assert forall|k: int| 0 <= k < i implies #[trigger] names[k] != name@ by {
                lemma_order_strict(name@, 0);
            }
        }
        let found = i < self.list.len() && same_text(self.list[i].0.as_str(), name.as_str());
        let mut list: Vec<(String, SourceSlot)> = Vec::new();
        std::mem::swap(&mut list, &mut self.list);
        let ghost pair = (name, slot);
        proof {
            if i < names.len() {
                assert(names[i as int] == held[i as int].0@);
                if names[i as int] == name@ {
                    lemma_unique(names, name@, i as int);
                } else {
                    assert(names[i as int].take(0) =~= name@.take(0));
                    lemma_order_total(names[i as int], name@, 0);
                    assert forall|k: int| i <= k < names.len() implies stands_first(
                        name@,
                        #[trigger] names[k],
                    ) by {
                        if k > i {
                            lemma_order_transitive(name@, names[i as int], names[k], 0);
                        }
                    }
                    assert forall|k: int| i <= k < names.len() implies #[trigger] names[k]
                        != name@ by {
                        lemma_order_strict(name@, 0);
                        assert(stands_first(name@, names[k]));
                    }
                }
            }
        }
        if found {
            list.set(i, (name, slot));
            proof {
                assert(list@ == held.update(i as int, pair));
                assert(aliases(list@) =~= names);
            }
        } else {
            list.insert(i, (name, slot));
            proof {
                assert(list@ == held.insert(i as int, pair));
                let after = names.insert(i as int, pair.0@);
                assert(aliases(list@) =~= after);
                assert forall|x: int, y: int| 0 <= x < y < after.len() implies stands_first(
                    #[trigger] after[x],
                    #[trigger] after[y],
                ) by {
                    let ox = if x <= i {
                        x
                    } else {
                        x - 1
                    };
                    let oy = if y <= i {
                        y
                    } else {
                        y - 1
                    };
                    if x == i {
                        assert(after[y] == names[oy]);
                    } else if y == i {
                        assert(after[x] == names[ox]);
                    } else {
                        assert(after[x] == names[ox] && after[y] == names[oy]);
                    }
                }
            }
        }
        self.list = list;
        proof {
            self.lemma_names();
            if found {
                assert(self.view() =~= before.update(i as int, (pair.0@, pair.1)));
            } else {
                assert(self.view() =~= before.insert(i as int, (pair.0@, pair.1)));
            }
        }
    }
}

proof fn lemma_unique(names: Seq<Seq<char>>, name: Seq<char>, i: int)
    requires
        0 <= i < names.len(),
        names[i] == name,
        forall|k: int| 0 <= k < i ==> #[trigger] names[k] != name,
    ensures
        name_at(names, name, 0) == Some(i),
{
    lemma_name_at(names, name, 0);
    lemma_skip(names, name, 0, i);
}

proof fn lemma_skip(names: Seq<Seq<char>>, name: Seq<char>, from: int, i: int)
    requires
        0 <= from <= i < names.len(),
        names[i] == name,
        forall|k: int| from <= k < i ==> #[trigger] names[k] != name,
    ensures
        name_at(names, name, from) == Some(i),
    decreases i - from,
{
    if from < i {
        lemma_skip(names, name, from + 1, i);
    }
}

/// The order of names is strict: of two different names exactly one stands before the other, and
/// no name stands before itself.
pub proof fn law_order_is_strict(a: Seq<char>, b: Seq<char>)
    ensures
        !stands_first(a, a),
        a != b ==> (stands_first(a, b) <==> !stands_first(b, a)),
{
    lemma_order_strict(a, 0);
    if a != b {
        assert(a.take(0) =~= b.take(0));
        lemma_order_total(a, b, 0);
    }
}

/// The order of names is transitive.
pub proof fn law_order_is_transitive(a: Seq<char>, b: Seq<char>, c: Seq<char>)
    requires
        stands_first(a, b),
        stands_first(b, c),
    ensures
        stands_first(a, c),
{
    lemma_order_transitive(a, b, c, 0);
}

proof fn lemma_same_start(a: Seq<char>, b: Seq<char>, i: int, n: int)
    requires
        0 <= i <= n <= a.len(),
        n <= b.len(),
        forall|k: int| i <= k < n ==> a[k] == b[k],
    ensures
        before_from(a, b, i) == before_from(a, b, n),
    decreases n - i,
{
    if i < n {
        assert(a[i] == b[i]);
        lemma_same_start(a, b, i + 1, n);
    }
}

/// Names stand in the order of their characters: of two that begin alike the one with the smaller
/// next character stands first, and a name stands before every longer one that it begins.
pub proof fn law_order_is_that_of_characters(
    start: Seq<char>,
    x: char,
    a: Seq<char>,
    y: char,
    b: Seq<char>,
)
    ensures
        x != y ==> (stands_first(start.push(x) + a, start.push(y) + b) <==> (x as int) < (y as int)),
        stands_first(start, start.push(x) + a),
{
    let n = start.len() as int;
    let s = start.push(x) + a;
    let t = start.push(y) + b;
    assert forall|k: int| 0 <= k < n implies s[k] == t[k] && start[k] == s[k] by {}
    assert(s[n] == x);
    assert(t[n] == y);
    lemma_same_start(s, t, 0, n);
    lemma_same_start(start, s, 0, n);
}

} // verus!
