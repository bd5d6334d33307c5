//! Things kept under names, in name order.

use vstd::prelude::*;

use crate::seqs::lemma_ordered_unique;
use crate::text::{before, comes_before, same_text};
use crate::text::{lemma_before_irreflexive, lemma_before_total, lemma_before_transitive};

verus! {

/// Values under distinct names, kept and listed in name order.
#[derive(Debug)]
pub struct NameMap<V> {
    entries: Vec<(String, V)>,
}

/// Whether each name comes before the one listed after it.
pub open spec fn ascending(names: Seq<Seq<char>>) -> bool {
    forall|i: int, j: int| 0 <= i < j < names.len() ==> before(#[trigger] names[i], #[trigger] names[j])
}

impl<V> NameMap<V> {
    /// The names, in the order in which they are listed.
    pub closed spec fn names(&self) -> Seq<Seq<char>> {
        self.entries@.map_values(|e: (String, V)| e.0@)
    }

    /// The values, in the order of their names.
    pub closed spec fn values(&self) -> Seq<V> {
        self.entries@.map_values(|e: (String, V)| e.1)
    }

    /// Names in ascending order, one value each.
    pub open spec fn wf(&self) -> bool {
        &&& self.names().len() == self.values().len()
        &&& ascending(self.names())
    }

    #[verifier::type_invariant]
    spec fn inv(self) -> bool {
        self.wf()
    }
}

/// The map from names to values.
impl<V> View for NameMap<V> {
    type V = Map<Seq<char>, V>;

    open spec fn view(&self) -> Map<Seq<char>, V> {
        Map::new(
            |name: Seq<char>| self.names().contains(name),
            |name: Seq<char>| self.values()[self.names().index_of(name)],
        )
    }
}

/// In ascending order no name occurs twice.
pub proof fn lemma_ascending_distinct(names: Seq<Seq<char>>, i: int, j: int)
    requires
        ascending(names),
        0 <= i < names.len(),
        0 <= j < names.len(),
        names[i] == names[j],
    ensures
        i == j,
{
    lemma_before_irreflexive(names[i]);
}

impl<V> NameMap<V> {
    /// What is listed at an index is what the name there is mapped to.
    pub proof fn lemma_listed(&self, i: int)
        requires
            self.wf(),
            0 <= i < self.names().len(),
        ensures
            self@.dom().contains(self.names()[i]),
            self@[self.names()[i]] == self.values()[i],
    {
        let name = self.names()[i];
        let k = self.names().index_of(name);
        assert(self.names().contains(name));
        lemma_ascending_distinct(self.names(), i, k);
    }

    /// Two maps that hold the same names list them in the same order.
    pub proof fn law_order_is_determined(&self, other: &NameMap<V>)
        requires
            self.wf(),
            other.wf(),
            self@.dom() == other@.dom(),
        ensures
            self.names() == other.names(),
    {
        assert forall|name: Seq<char>|
            #![trigger self.names().contains(name)]
            #![trigger other.names().contains(name)]
            self.names().contains(name) == other.names().contains(name) by {
            assert(self@.dom().contains(name) == self.names().contains(name));
            assert(other@.dom().contains(name) == other.names().contains(name));
        }
        let lt = |x: Seq<char>, y: Seq<char>| before(x, y);
        assert forall|x: Seq<char>, y: Seq<char>| #[trigger] lt(x, y) implies !lt(y, x) by {
            if before(y, x) {
                lemma_before_transitive(x, y, x);
                lemma_before_irreflexive(x);
            }
        }
        lemma_ordered_unique(self.names(), other.names(), lt);
    }
}

impl<V> NameMap<V> {
    /// No names.
    pub fn new() -> (r: NameMap<V>)
        ensures
            r.wf(),
            r.names() == Seq::<Seq<char>>::empty(),
            r@ == Map::<Seq<char>, V>::empty(),
    {
        let r = NameMap { entries: Vec::new() };
        assert(r.names() =~= Seq::empty());
        assert(r@ =~= Map::empty());
        r
    }

    /// How many names there are.
    pub fn len(&self) -> (n: usize)
        ensures
            self.wf(),
            n == self.names().len(),
    {
        proof {
            use_type_invariant(self);
        }
        self.entries.len()
    }

    /// Whether there is no name at all.
    pub fn is_empty(&self) -> (r: bool)
        ensures
            r == (self.names().len() == 0),
    {
        self.len() == 0
    }

    /// The name listed at an index.
    pub fn name_at(&self, i: usize) -> (name: &String)
        requires
            i < self.names().len(),
        ensures
            self.wf(),
            name@ == self.names()[i as int],
    {
        proof {
            use_type_invariant(self);
        }
        &self.entries[i].0
    }

    /// The value listed at an index.
    pub fn value_at(&self, i: usize) -> (value: &V)
        requires
            i < self.names().len(),
        ensures
            self.wf(),
            *value == self.values()[i as int],
    {
        proof {
            use_type_invariant(self);
        }
        &self.entries[i].1
    }

    /// Where a name is listed.
    pub fn position(&self, name: &str) -> (r: Option<usize>)
        ensures
            self.wf(),
            match r {
                Some(i) => i < self.names().len() && self.names()[i as int] == name@,
                None => !self.names().contains(name@),
            },
    {
        proof {
            use_type_invariant(self);
        }
        for i in 0..self.entries.len()
            invariant
                forall|j: int| 0 <= j < i ==> self.names()[j] != name@,
                self.names().len() == self.entries@.len(),
                self.wf(),
        {
            if same_text(self.entries[i].0.as_str(), name) {
                return Some(i);
            }
        }
        None
    }

    /// The value under a name.
    pub fn get(&self, name: &str) -> (r: Option<&V>)
        ensures
            match r {
                Some(value) => self@.dom().contains(name@) && *value == self@[name@],
                None => !self@.dom().contains(name@),
            },
    {
        match self.position(name) {
            Some(i) => {
                proof {
                    self.lemma_listed(i as int);
                }
                Some(self.value_at(i))
            },
            None => None,
        }
    }

    /// Whether there is a value under a name.
    pub fn contains_key(&self, name: &str) -> (r: bool)
        ensures
            r == self@.dom().contains(name@),
    {
        self.get(name).is_some()
    }

    /// The names, in order.
    pub fn keys(&self) -> (r: Vec<String>)
        ensures
            crate::text::texts(r@) == self.names(),
    {
        let mut out: Vec<String> = Vec::new();
        let n = self.len();
        for i in 0..n
            invariant
                n == self.names().len(),
                crate::text::texts(out@) == self.names().take(i as int),
        {
            let ghost done = out@;
            let name = self.name_at(i).clone();
            out.push(name);
            assert(crate::text::texts(out@) =~= crate::text::texts(done).push(name@));
            assert(self.names().take(i + 1) =~= self.names().take(i as int).push(
                self.names()[i as int],
            ));
        }
        assert(self.names().take(self.names().len() as int) =~= self.names());
        out
    }

    /// Keep a value under a name, in place of the one that was there.
    pub fn insert(&mut self, name: String, value: V)
        ensures
            final(self).wf(),
            final(self)@ == old(self)@.insert(name@, value),
    {
        proof {
            use_type_invariant(&*self);
        }
        let ghost old_names = self.names();
        let ghost old_values = self.values();
        let mut entries: Vec<(String, V)> = Vec::new();
        std::mem::swap(&mut entries, &mut self.entries);
        let ghost n = name@;
        let mut i: usize = 0;
        while i < entries.len() && comes_before(entries[i].0.as_str(), name.as_str())
            invariant
                i <= entries@.len(),
                n == name@,
                entries@.len() == old_names.len(),
                entries@.map_values(|e: (String, V)| e.0@) == old_names,
                forall|j: int| 0 <= j < i ==> before(#[trigger] old_names[j], n),
            decreases entries.len() - i,
        {
            i += 1;
        }
        let replaced = i < entries.len() && same_text(entries[i].0.as_str(), name.as_str());
        assert(forall|j: int| 0 <= j < entries@.len() ==> entries@[j].0@ == old_names[j]);
        assert(i < old_names.len() ==> !before(old_names[i as int], n));
        assert(replaced == (i < old_names.len() && old_names[i as int] == n));
        if replaced {
            let _ = entries.remove(i);
        }
        entries.insert(i, (name, value));
        let ghost new_names = entries@.map_values(|e: (String, V)| e.0@);
        let ghost new_values = entries@.map_values(|e: (String, V)| e.1);
        proof {
            let shift: int = if replaced {
                0
            } else {
                1
            };
            assert(new_names.len() == old_names.len() + shift);
            assert forall|j: int| 0 <= j < i implies new_names[j] == old_names[j] && new_values[j]
                == old_values[j] by {}
            assert forall|j: int| i < j < new_names.len() implies new_names[j] == old_names[j
                - shift] && new_values[j] == old_values[j - shift] by {}
            assert(new_names[i as int] == n && new_values[i as int] == value);
            assert forall|j: int| i <= j - shift && i < j < new_names.len() implies before(n, #[trigger] new_names[j]) by {
                if replaced {
                    assert(before(old_names[i as int], old_names[j]));
                } else {
                    lemma_before_total(old_names[i as int], n);
                    if j - 1 > i {
                        lemma_before_transitive(n, old_names[i as int], old_names[j - 1]);
                    }
                }
            }
            assert(ascending(new_names));
        }
        self.entries = entries;
        proof {
            assert(self.names() =~= new_names);
            assert(self.values() =~= new_values);
            let was = old(self)@.insert(n, value);
            assert forall|m: Seq<char>| self@.dom().contains(m) == was.dom().contains(m) by {
                lemma_insert_names(old_names, new_names, n, i as int, replaced, m);
            }
            assert forall|m: Seq<char>| self@.dom().contains(m) implies self@[m] == was[m] by {
                let k = new_names.index_of(m);
                self.lemma_listed(k);
                if k != i {
                    let o: int = if k < i || replaced {
                        k
                    } else {
                        k - 1
                    };
                    assert(old_names[o] == m);
                    old(self).lemma_listed(o);
                    assert(m != n) by {
                        if m == n {
                            lemma_ascending_distinct(new_names, i as int, k);
                        }
                    }
                }
            }
            assert(self@ =~= was);
        }
    }
}

/// Which names there are after one has been put at an index.
proof fn lemma_insert_names(
    was: Seq<Seq<char>>,
    now: Seq<Seq<char>>,
    name: Seq<char>,
    i: int,
    replaced: bool,
    m: Seq<char>,
)
    requires
        0 <= i <= was.len(),
        replaced ==> i < was.len() && was[i] == name,
        now.len() == was.len() + if replaced {
            0int
        } else {
            1
        },
        forall|j: int| 0 <= j < i ==> now[j] == was[j],
        now[i] == name,
        forall|j: int|
            i < j < now.len() ==> now[j] == was[j - if replaced {
                0int
            } else {
                1
            }],
    ensures
        now.contains(m) == (was.contains(m) || m == name),
{
    if was.contains(m) {
        let k = was.index_of(m);
        if k < i {
            assert(now[k] == m);
        } else if replaced {
            assert(now[k] == m);
        } else {
            assert(now[k + 1] == m);
        }
    }
    if m == name {
        assert(now[i] == m);
    }
    if now.contains(m) {
        let k = now.index_of(m);
        if k < i {
            assert(was[k] == m);
        } else if k > i {
            assert(was[k - if replaced {
                0int
            } else {
                1
            }] == m);
        }
    }
}

impl<V> Default for NameMap<V> {
    fn default() -> (r: NameMap<V>)
        ensures
            r.wf(),
            r.names() == Seq::<Seq<char>>::empty(),
            r@ == Map::<Seq<char>, V>::empty(),
    {
        NameMap::new()
    }
}

} // verus!
