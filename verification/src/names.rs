//! The server's namespace: nicknames (and, later, channel names), each
//! bound to the entity that holds it. A name is bound at most once.
use crate::text::owned;
use vstd::prelude::*;

verus! {

/// What a name stands for: the id of a connection that holds a nick, or
/// the id of a registered user.
#[derive(Debug, Clone, Copy, PartialEq, Eq, Structural)]
pub enum NamedEntity {
    Nick(u64),
    User(u64),
}

/// Pairs whose names are pairwise different.
pub open spec fn unique_names(e: Seq<(Seq<char>, NamedEntity)>) -> bool {
    forall|i: int, j: int| 0 <= i < j < e.len() ==> #[trigger] e[i].0 != #[trigger] e[j].0
}

/// Some pair has name `k`.
pub open spec fn has_name(e: Seq<(Seq<char>, NamedEntity)>, k: Seq<char>) -> bool {
    exists|i: int| 0 <= i < e.len() && #[trigger] e[i].0 == k
}

/// The position of name `k` (meaningful when `has_name(e, k)`).
pub open spec fn name_pos(e: Seq<(Seq<char>, NamedEntity)>, k: Seq<char>) -> int {
    choose|i: int| 0 <= i < e.len() && #[trigger] e[i].0 == k
}

/// The pairs as a map from names to entities.
pub open spec fn as_map(e: Seq<(Seq<char>, NamedEntity)>) -> Map<Seq<char>, NamedEntity> {
    Map::new(|k: Seq<char>| has_name(e, k), |k: Seq<char>| e[name_pos(e, k)].1)
}

/// With unique names, the position of a name is the only one holding it.
pub proof fn lemma_name_pos(e: Seq<(Seq<char>, NamedEntity)>, k: Seq<char>, i: int)
    requires
        unique_names(e),
        0 <= i < e.len(),
        e[i].0 == k,
    ensures
        has_name(e, k),
        name_pos(e, k) == i,
        as_map(e).contains_key(k),
        as_map(e)[k] == e[i].1,
{
    assert(has_name(e, k));
    let j = name_pos(e, k);
    if j < i {
        assert(e[j].0 != e[i].0);
    } else if j > i {
        assert(e[i].0 != e[j].0);
    }
}

/// Appending a pair with a new name binds that name and nothing else.
pub proof fn lemma_push_name(e: Seq<(Seq<char>, NamedEntity)>, k: Seq<char>, v: NamedEntity)
    requires
        unique_names(e),
        !has_name(e, k),
    ensures
        unique_names(e.push((k, v))),
        as_map(e.push((k, v))) == as_map(e).insert(k, v),
{
    let f = e.push((k, v));
    assert forall|a: int, b: int| 0 <= a < b < f.len() implies #[trigger] f[a].0 != #[trigger] f[b].0 by {
        if b == e.len() {
            assert(e[a].0 == f[a].0);
        } else {
            assert(e[a].0 != e[b].0);
        }
    }
    lemma_name_pos(f, k, e.len() as int);
    assert forall|x: Seq<char>| #[trigger] as_map(f).contains_key(x) == as_map(e).insert(
        k,
        v,
    ).contains_key(x) by {
        if has_name(f, x) && x != k {
            let i = name_pos(f, x);
            assert(f[i] == e[i]);
        }
        if has_name(e, x) {
            let i = name_pos(e, x);
            assert(f[i] == e[i]);
        }
    }
    assert forall|x: Seq<char>| #[trigger] as_map(f).contains_key(x) implies as_map(f)[x]
        == as_map(e).insert(k, v)[x] by {
        if x != k {
            let i = name_pos(f, x);
            assert(f[i] == e[i]);
            lemma_name_pos(e, x, i);
        }
    }
    assert(as_map(f) =~= as_map(e).insert(k, v));
}

/// Removing the pair at `i` unbinds its name and nothing else.
pub proof fn lemma_remove_name(e: Seq<(Seq<char>, NamedEntity)>, i: int)
    requires
        unique_names(e),
        0 <= i < e.len(),
    ensures
        unique_names(e.remove(i)),
        as_map(e.remove(i)) == as_map(e).remove(e[i].0),
{
    let f = e.remove(i);
    let k = e[i].0;
    assert forall|a: int, b: int| 0 <= a < b < f.len() implies #[trigger] f[a].0 != #[trigger] f[b].0 by {
        let a2 = if a < i { a } else { a + 1 };
        let b2 = if b < i { b } else { b + 1 };
        assert(f[a] == e[a2]);
        assert(f[b] == e[b2]);
        assert(e[a2].0 != e[b2].0);
    }
    assert forall|x: Seq<char>| #[trigger] as_map(f).contains_key(x) == as_map(e).remove(
        k,
    ).contains_key(x) by {
        if has_name(f, x) {
            let j = name_pos(f, x);
            let j2 = if j < i { j } else { j + 1 };
            assert(f[j] == e[j2]);
            assert(e[j2].0 != e[i].0);
        }
        if has_name(e, x) && x != k {
            let j = name_pos(e, x);
            if j < i {
                assert(f[j] == e[j]);
            } else {
                assert(j != i);
                assert(f[j - 1] == e[j]);
            }
        }
    }
    assert forall|x: Seq<char>| #[trigger] as_map(f).contains_key(x) implies as_map(f)[x]
        == as_map(e).remove(k)[x] by {
        let j = name_pos(f, x);
        let j2 = if j < i { j } else { j + 1 };
        assert(f[j] == e[j2]);
        lemma_name_pos(e, x, j2);
    }
    assert(as_map(f) =~= as_map(e).remove(k));
}

/// The namespace: names bound to entities, no name bound twice.
pub struct NameTable {
    entries: Vec<(String, NamedEntity)>,
}

impl NameTable {
    /// The pairs of the table, as text.
    pub closed spec fn pairs(&self) -> Seq<(Seq<char>, NamedEntity)> {
        self.entries@.map_values(|e: (String, NamedEntity)| (e.0@, e.1))
    }

    #[verifier::type_invariant]
    closed spec fn inv(self) -> bool {
        unique_names(self.pairs())
    }

    /// An empty table.
    pub fn new() -> (res: NameTable)
        ensures
            res@ == Map::<Seq<char>, NamedEntity>::empty(),
    {
        let t = NameTable { entries: Vec::new() };
        assert(t@ =~= Map::<Seq<char>, NamedEntity>::empty());
        t
    }

    fn position(&self, name: &str) -> (res: Option<usize>)
        ensures
            match res {
                Some(i) => i < self.pairs().len() && self.pairs()[i as int].0 == name@,
                None => !has_name(self.pairs(), name@),
            },
    {
        let key = owned(name);
        let mut i: usize = 0;
        while i < self.entries.len()
            invariant
                i <= self.entries@.len(),
                key@ == name@,
                self.pairs().len() == self.entries@.len(),
                forall|j: int| 0 <= j < i ==> self.pairs()[j].0 != name@,
            decreases self.entries@.len() - i,
        {
            assert(self.pairs()[i as int].0 == self.entries@[i as int].0@);
            if self.entries[i].0 == key {
                return Some(i);
            }
            i += 1;
        }
        None
    }

    /// Whether `name` is bound.
    pub fn contains_key(&self, name: &str) -> (res: bool)
        ensures
            res == self@.contains_key(name@),
    {
        self.position(name).is_some()
    }

    /// The entity bound to `name`.
    pub fn get(&self, name: &str) -> (res: Option<NamedEntity>)
        ensures
            match res {
                Some(v) => self@.contains_key(name@) && self@[name@] == v,
                None => !self@.contains_key(name@),
            },
    {
        proof {
            use_type_invariant(self);
        }
        match self.position(name) {
            Some(i) => {
                proof {
                    lemma_name_pos(self.pairs(), name@, i as int);
                }
                Some(self.entries[i].1)
            },
            None => None,
        }
    }

    /// Binds a name that is not bound yet.
    pub fn insert_new(&mut self, name: String, item: NamedEntity)
        requires
            !old(self)@.contains_key(name@),
        ensures
            final(self)@ == old(self)@.insert(name@, item),
    {
        proof {
            use_type_invariant(&*self);
        }
        let ghost old_pairs = self.pairs();
        let ghost k = name@;
        let mut entries: Vec<(String, NamedEntity)> = Vec::new();
        std::mem::swap(&mut entries, &mut self.entries);
        entries.push((name, item));
        proof {
            let np = entries@.map_values(|e: (String, NamedEntity)| (e.0@, e.1));
            assert(np =~= old_pairs.push((k, item)));
            lemma_push_name(old_pairs, k, item);
        }
        self.entries = entries;
    }

    /// Unbinds `name`, giving back what it was bound to.
    pub fn remove(&mut self, name: &str) -> (res: Option<NamedEntity>)
        ensures
            final(self)@ == old(self)@.remove(name@),
            match res {
                Some(v) => old(self)@.contains_key(name@) && old(self)@[name@] == v,
                None => !old(self)@.contains_key(name@),
            },
    {
        proof {
            use_type_invariant(&*self);
        }
        let ghost old_pairs = self.pairs();
        match self.position(name) {
            Some(i) => {
                proof {
                    lemma_name_pos(old_pairs, name@, i as int);
                    lemma_remove_name(old_pairs, i as int);
                }
                let mut entries: Vec<(String, NamedEntity)> = Vec::new();
                std::mem::swap(&mut entries, &mut self.entries);
                let (_, item) = entries.remove(i);
                proof {
                    let np = entries@.map_values(|e: (String, NamedEntity)| (e.0@, e.1));
                    assert(np =~= old_pairs.remove(i as int));
                }
                self.entries = entries;
                Some(item)
            },
            None => {
                assert(old(self)@.remove(name@) =~= old(self)@);
                None
            },
        }
    }

    /// The number of bound names.
    pub fn len(&self) -> (n: usize)
        ensures
            n == self@.len(),
    {
        proof {
            use_type_invariant(self);
            lemma_len_as_map(self.pairs());
        }
        self.entries.len()
    }
}

impl View for NameTable {
    type V = Map<Seq<char>, NamedEntity>;

    closed spec fn view(&self) -> Map<Seq<char>, NamedEntity> {
        as_map(self.pairs())
    }
}

/// With unique names the map has as many names as there are pairs.
proof fn lemma_len_as_map(e: Seq<(Seq<char>, NamedEntity)>)
    requires
        unique_names(e),
    ensures
        as_map(e).dom().finite(),
        as_map(e).len() == e.len(),
    decreases e.len(),
{
    if e.len() == 0 {
        assert(as_map(e) =~= Map::<Seq<char>, NamedEntity>::empty());
    } else {
        let d = e.drop_last();
        assert(unique_names(d)) by {
            assert forall|a: int, b: int| 0 <= a < b < d.len() implies #[trigger] d[a].0
                != #[trigger] d[b].0 by {
                assert(e[a].0 != e[b].0);
            }
        }
        lemma_len_as_map(d);
        assert(!has_name(d, e.last().0)) by {
            if has_name(d, e.last().0) {
                let j = name_pos(d, e.last().0);
                assert(e[j].0 != e[e.len() - 1].0);
            }
        }
        lemma_push_name(d, e.last().0, e.last().1);
        assert(d.push((e.last().0, e.last().1)) =~= e);
    }
}

} // verus!
