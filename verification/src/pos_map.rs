use vstd::prelude::*;
use crate::types::Pos;

verus! {

/// A finite map from map cells to values, stored as a list of entries in which
/// no cell occurs twice.
pub struct PosMap<V> {
    entries: Vec<(Pos, V)>,
    contents: Ghost<Map<Pos, V>>,
}

/// `e` lists the entries of `m`, each key once.
spec fn parts_ok<V>(e: Seq<(Pos, V)>, m: Map<Pos, V>) -> bool {
    &&& forall|i: int, j: int|
        0 <= i < e.len() && 0 <= j < e.len() && i != j ==> #[trigger] e[i].0 != #[trigger] e[j].0
    &&& forall|i: int| 0 <= i < e.len() ==> m.contains_key(#[trigger] e[i].0) && m[e[i].0] == e[i].1
    &&& forall|p: Pos| #[trigger] m.contains_key(p) ==> exists|i: int| 0 <= i < e.len() && e[i].0 == p
    &&& m.dom().finite()
    &&& m.dom().len() == e.len()
}

impl<V> PosMap<V> {
    #[verifier::type_invariant]
    spec fn inv(self) -> bool {
        parts_ok(self.entries@, self.contents@)
    }
}

impl<V: Copy> PosMap<V> {
    /// The entries as a mathematical map.
    pub closed spec fn view(&self) -> Map<Pos, V> {
        self.contents@
    }

    pub fn new() -> (r: Self)
        ensures
            r@ == Map::<Pos, V>::empty(),
    {
        PosMap { entries: Vec::new(), contents: Ghost(Map::empty()) }
    }

    fn find(&self, p: Pos) -> (r: Option<usize>)
        ensures
            match r {
                Some(i) => i < self.entries@.len() && self.entries@[i as int].0 == p,
                None => !self@.contains_key(p),
            },
    {
        proof { use_type_invariant(self); }
        let n: usize = self.entries.len();
        let mut i: usize = 0;
        while i < n
            invariant
                n == self.entries@.len(),
                i <= n,
                forall|j: int| 0 <= j < i ==> self.entries@[j].0 != p,
            decreases n - i,
        {
            let q: Pos = self.entries[i].0;
            if q.0 == p.0 && q.1 == p.1 {
                return Some(i);
            }
            i = i + 1;
        }
        None
    }

    /// Takes the entries out, leaving an empty map behind.
    fn into_parts(&mut self) -> (r: (Vec<(Pos, V)>, Ghost<Map<Pos, V>>))
        ensures
            r.1@ == old(self)@,
            r.0@ == old(self).entries@,
            final(self)@ == Map::<Pos, V>::empty(),
            parts_ok(r.0@, r.1@),
    {
        let mut tmp: PosMap<V> = PosMap::new();
        std::mem::swap(&mut tmp, self);
        proof { use_type_invariant(&tmp); }
        let PosMap { entries, contents } = tmp;
        (entries, contents)
    }

    /// Associates `v` with `p`, replacing any earlier value.
    pub fn insert(&mut self, p: Pos, v: V)
        ensures
            final(self)@ == old(self)@.insert(p, v),
    {
        let found: Option<usize> = self.find(p);
        let (mut entries, contents) = self.into_parts();
        let ghost m = contents@;
        let ghost e0 = entries@;
        let ghost new_m = m.insert(p, v);
        match found {
            Some(i) => {
                entries.set(i, (p, v));
                assert forall|a: int| 0 <= a < entries@.len()
                    implies new_m.contains_key(#[trigger] entries@[a].0)
                        && new_m[entries@[a].0] == entries@[a].1 by {
                    if a != i {
                        assert(e0[a].0 != e0[i as int].0);
                    }
                }
                assert(m.dom() =~= new_m.dom());
                assert forall|q: Pos| #[trigger] new_m.contains_key(q)
                    implies exists|j: int| 0 <= j < entries@.len() && entries@[j].0 == q by {
                    if q != p {
                        let j = choose|j: int| 0 <= j < e0.len() && e0[j].0 == q;
                        assert(entries@[j].0 == q);
                    } else {
                        assert(entries@[i as int].0 == q);
                    }
                }
            }
            None => {
                entries.push((p, v));
                assert(!m.contains_key(p));
                assert forall|a: int, b: int|
                    0 <= a < entries@.len() && 0 <= b < entries@.len() && a != b
                        implies #[trigger] entries@[a].0 != #[trigger] entries@[b].0 by {
                    if a < e0.len() && b < e0.len() {
                    } else if a < e0.len() {
                        assert(m.contains_key(e0[a].0));
                    } else {
                        assert(m.contains_key(e0[b].0));
                    }
                }
                assert forall|q: Pos| #[trigger] new_m.contains_key(q)
                    implies exists|j: int| 0 <= j < entries@.len() && entries@[j].0 == q by {
                    if q != p {
                        let j = choose|j: int| 0 <= j < e0.len() && e0[j].0 == q;
                        assert(entries@[j].0 == q);
                    } else {
                        assert(entries@[entries@.len() - 1].0 == q);
                    }
                }
            }
        }
        assert(parts_ok(entries@, new_m));
        *self = PosMap { entries, contents: Ghost(new_m) };
    }

    /// Removes the entry of `p`, if any.
    pub fn remove(&mut self, p: Pos)
        ensures
            final(self)@ == old(self)@.remove(p),
    {
        let found: Option<usize> = self.find(p);
        let (mut entries, contents) = self.into_parts();
        let ghost m = contents@;
        let ghost e0 = entries@;
        let ghost new_m = m.remove(p);
        match found {
            Some(i) => {
                let _removed: (Pos, V) = entries.swap_remove(i);
                let ghost last: int = e0.len() - 1;
                assert forall|a: int| 0 <= a < entries@.len()
                    implies #[trigger] entries@[a] == (if a == i { e0[last] } else { e0[a] }) by {}
                assert forall|a: int, b: int|
                    0 <= a < entries@.len() && 0 <= b < entries@.len() && a != b
                        implies #[trigger] entries@[a].0 != #[trigger] entries@[b].0 by {
                    let ia: int = if a == i { last } else { a };
                    let ib: int = if b == i { last } else { b };
                    assert(e0[ia].0 != e0[ib].0);
                }
                assert forall|a: int| 0 <= a < entries@.len()
                    implies new_m.contains_key(#[trigger] entries@[a].0)
                        && new_m[entries@[a].0] == entries@[a].1 by {
                    let ia: int = if a == i { last } else { a };
                    assert(e0[ia].0 != e0[i as int].0);
                }
                assert forall|q: Pos| #[trigger] new_m.contains_key(q)
                    implies exists|j: int| 0 <= j < entries@.len() && entries@[j].0 == q by {
                    let j = choose|j: int| 0 <= j < e0.len() && e0[j].0 == q;
                    if j == last {
                        assert(entries@[i as int].0 == q);
                    } else {
                        assert(entries@[j].0 == q);
                    }
                }
            }
            None => {
                assert(new_m =~= m);
            }
        }
        assert(parts_ok(entries@, new_m));
        *self = PosMap { entries, contents: Ghost(new_m) };
    }

    /// Whether `p` has an entry.
    pub fn contains_key(&self, p: Pos) -> (r: bool)
        ensures
            r == self@.contains_key(p),
    {
        proof { use_type_invariant(self); }
        match self.find(p) {
            Some(_) => true,
            None => false,
        }
    }

    /// The value stored for `p`, if any.
    pub fn get(&self, p: Pos) -> (r: Option<V>)
        ensures
            r == (if self@.contains_key(p) { Some(self@[p]) } else { None::<V> }),
    {
        proof { use_type_invariant(self); }
        match self.find(p) {
            Some(i) => Some(self.entries[i].1),
            None => None,
        }
    }

    /// The number of entries.
    pub fn len(&self) -> (r: usize)
        ensures
            r == self@.len(),
            self@.dom().finite(),
    {
        proof { use_type_invariant(self); }
        self.entries.len()
    }

    /// Whether the map holds no entry.
    pub fn is_empty(&self) -> (r: bool)
        ensures
            r == (self@.len() == 0),
            self@.dom().finite(),
    {
        proof { use_type_invariant(self); }
        self.entries.len() == 0
    }

    /// The cells that have an entry, each once, in storage order.
    pub fn keys(&self) -> (r: Vec<Pos>)
        ensures
            r@.no_duplicates(),
            forall|p: Pos| #[trigger] r@.contains(p) <==> self@.contains_key(p),
            r@.len() == self@.len(),
            self@.dom().finite(),
    {
        proof { use_type_invariant(self); }
        let n: usize = self.entries.len();
        let mut out: Vec<Pos> = Vec::new();
        let mut i: usize = 0;
        while i < n
            invariant
                n == self.entries@.len(),
                parts_ok(self.entries@, self.contents@),
                i <= n,
                out@.len() == i,
                forall|j: int| 0 <= j < i ==> #[trigger] out@[j] == self.entries@[j].0,
            decreases n - i,
        {
            out.push(self.entries[i].0);
            i = i + 1;
        }
        assert forall|p: Pos| #[trigger] out@.contains(p) <==> self@.contains_key(p) by {
            if self@.contains_key(p) {
                let j = choose|j: int| 0 <= j < self.entries@.len() && self.entries@[j].0 == p;
                assert(out@[j] == p);
            }
        }
        assert forall|a: int, b: int| 0 <= a < out@.len() && 0 <= b < out@.len() && a != b
            implies out@[a] != out@[b] by {
            assert(self.entries@[a].0 != self.entries@[b].0);
        }
        out
    }
}

} // verus!
