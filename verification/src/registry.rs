//! Registry of in-flight authorization flows.
//!
//! A flow is registered under an opaque state token when authorization is
//! initiated, and consumed exactly once when the provider redirects back.
//! The registry is a mapping from state tokens to flows; `put` inserts
//! (overwriting on a token collision) and `take` atomically removes and
//! returns an entry, so no two callers can consume the same flow. The
//! surrounding application serializes access with a lock; each operation
//! here is one atomic step of that mapping.

use vstd::prelude::*;

verus! {

/// Whether some entry of `s` carries the state token `k`.
pub open spec fn entry_has<V>(s: Seq<(String, V)>, k: Seq<char>) -> bool {
    exists|i: int| 0 <= i < s.len() && s[i].0@ == k
}

/// The index of the entry of `s` carrying `k` (unique when the tokens of `s`
/// are distinct).
pub open spec fn entry_idx<V>(s: Seq<(String, V)>, k: Seq<char>) -> int {
    choose|i: int| 0 <= i < s.len() && s[i].0@ == k
}

/// Whether the state tokens of `s` are pairwise distinct.
pub open spec fn entries_unique<V>(s: Seq<(String, V)>) -> bool {
    forall|i: int, j: int| 0 <= i < j < s.len() ==> s[i].0@ != s[j].0@
}

/// The mapping that a sequence of entries stands for.
pub open spec fn entries_view<V>(s: Seq<(String, V)>) -> Map<Seq<char>, V> {
    Map::new(|k: Seq<char>| entry_has(s, k), |k: Seq<char>| s[entry_idx(s, k)].1)
}

/// With distinct tokens, the witness index of a present token is unique.
proof fn lemma_idx_unique<V>(s: Seq<(String, V)>, k: Seq<char>)
    requires
        entries_unique(s),
        entry_has(s, k),
    ensures
        0 <= entry_idx(s, k) < s.len(),
        s[entry_idx(s, k)].0@ == k,
        forall|i: int| 0 <= i < s.len() && s[i].0@ == k ==> i == entry_idx(s, k),
{
    let i0 = entry_idx(s, k);
    assert(0 <= i0 < s.len() && s[i0].0@ == k);
    assert forall|i: int| 0 <= i < s.len() && s[i].0@ == k implies i == i0 by {
        if i < i0 {
            assert(s[i].0@ != s[i0].0@);
        } else if i0 < i {
            assert(s[i0].0@ != s[i].0@);
        }
    }
}

/// Appending an entry whose token is absent inserts it into the mapping.
proof fn lemma_view_push<V>(s: Seq<(String, V)>, e: (String, V))
    requires
        entries_unique(s),
        !entry_has(s, e.0@),
    ensures
        entries_unique(s.push(e)),
        entries_view(s.push(e)) == entries_view(s).insert(e.0@, e.1),
{
    let post = s.push(e);
    let n = s.len() as int;
    assert forall|i: int, j: int| 0 <= i < j < post.len() implies post[i].0@ != post[j].0@ by {
        if j < n {
            assert(s[i].0@ != s[j].0@);
        } else {
            assert(post[j] == e);
            assert(post[i] == s[i]);
            assert(!(0 <= i < s.len() && s[i].0@ == e.0@));
        }
    }
    assert forall|k: Seq<char>| true implies #[trigger] entry_has(post, k) == (entry_has(s, k)
        || k == e.0@) by {
        if entry_has(post, k) {
            let i = choose|i: int| 0 <= i < post.len() && post[i].0@ == k;
            if i < n {
                assert(s[i].0@ == k);
                assert(entry_has(s, k));
            } else {
                assert(post[i] == e);
            }
        }
        if entry_has(s, k) {
            let i = choose|i: int| 0 <= i < s.len() && s[i].0@ == k;
            assert(post[i].0@ == k);
            assert(entry_has(post, k));
        }
        if k == e.0@ {
            assert(post[n].0@ == k);
            assert(entry_has(post, k));
        }
    }
    assert forall|k: Seq<char>| entry_has(post, k) implies post[entry_idx(post, k)].1 == (if k
        == e.0@ {
        e.1
    } else {
        s[entry_idx(s, k)].1
    }) by {
        lemma_idx_unique(post, k);
        let pi = entry_idx(post, k);
        if k == e.0@ {
            assert(post[n].0@ == k);
            assert(pi == n);
        } else {
            assert(pi != n);
            assert(post[pi] == s[pi]);
            assert(entry_has(s, k));
            lemma_idx_unique(s, k);
            assert(pi == entry_idx(s, k));
        }
    }
    assert(entries_view(post) =~= entries_view(s).insert(e.0@, e.1));
}

/// Removing the entry at `i` removes its token from the mapping.
proof fn lemma_view_remove<V>(s: Seq<(String, V)>, i: int)
    requires
        entries_unique(s),
        0 <= i < s.len(),
    ensures
        entries_unique(s.remove(i)),
        entries_view(s.remove(i)) == entries_view(s).remove(s[i].0@),
{
    let post = s.remove(i);
    let k0 = s[i].0@;
    assert forall|a: int, b: int| 0 <= a < b < post.len() implies post[a].0@ != post[b].0@ by {
        let a0 = if a < i { a } else { a + 1 };
        let b0 = if b < i { b } else { b + 1 };
        assert(post[a] == s[a0]);
        assert(post[b] == s[b0]);
        assert(s[a0].0@ != s[b0].0@);
    }
    assert forall|k: Seq<char>| true implies #[trigger] entry_has(post, k) == (entry_has(s, k) && k
        != k0) by {
        if entry_has(post, k) {
            let j = choose|j: int| 0 <= j < post.len() && post[j].0@ == k;
            let j0 = if j < i { j } else { j + 1 };
            assert(post[j] == s[j0]);
            assert(s[j0].0@ == k);
            assert(entry_has(s, k));
            if k == k0 {
                lemma_idx_unique(s, k);
                assert(j0 == entry_idx(s, k) && i == entry_idx(s, k));
            }
        }
        if entry_has(s, k) && k != k0 {
            let j = choose|j: int| 0 <= j < s.len() && s[j].0@ == k;
            assert(j != i);
            let j1 = if j < i { j } else { j - 1 };
            assert(post[j1] == s[j]);
            assert(entry_has(post, k));
        }
    }
    assert forall|k: Seq<char>| entry_has(post, k) implies post[entry_idx(post, k)].1
        == s[entry_idx(s, k)].1 by {
        lemma_idx_unique(post, k);
        let pj = entry_idx(post, k);
        let pj0 = if pj < i { pj } else { pj + 1 };
        assert(post[pj] == s[pj0]);
        assert(entry_has(s, k));
        lemma_idx_unique(s, k);
        assert(pj0 == entry_idx(s, k));
    }
    assert(entries_view(post) =~= entries_view(s).remove(k0));
}

/// Concurrent mapping from an opaque state token to an in-progress
/// authorization flow. Owned by the service for its lifetime, initialized
/// empty at startup; a token present here has not yet been exchanged.
pub struct FlowRegistry<V> {
    entries: Vec<(String, V)>,
}

impl<V> FlowRegistry<V> {
    /// Well-formedness: no state token occurs twice.
    pub closed spec fn wf(&self) -> bool {
        entries_unique(self.entries@)
    }

    /// The registry as a mapping from state tokens to flows.
    pub closed spec fn view(&self) -> Map<Seq<char>, V> {
        entries_view(self.entries@)
    }

    /// An empty registry.
    pub fn new() -> (r: Self)
        ensures
            r.wf(),
            r@ == Map::<Seq<char>, V>::empty(),
    {
        let r = FlowRegistry { entries: Vec::new() };
        proof {
            assert forall|k: Seq<char>| !entry_has(r.entries@, k) by {
            }
            assert(r@ =~= Map::<Seq<char>, V>::empty());
        }
        r
    }

    /// The index of the entry under `key`, if one is present.
    fn find(&self, key: &String) -> (r: Option<usize>)
        ensures
            match r {
                Some(i) => i < self.entries@.len() && self.entries@[i as int].0@ == key@,
                None => !entry_has(self.entries@, key@),
            },
    {
        let mut i: usize = 0;
        while i < self.entries.len()
            invariant
                i <= self.entries@.len(),
                forall|j: int| 0 <= j < i ==> self.entries@[j].0@ != key@,
            decreases self.entries@.len() - i,
        {
            if self.entries[i].0 == *key {
                return Some(i);
            }
            i = i + 1;
        }
        None
    }

    /// Atomically removes and returns the flow registered under `state`; a
    /// second call with the same token finds nothing.
    pub fn take(&mut self, state: &String) -> (r: Option<V>)
        requires
            old(self).wf(),
        ensures
            final(self).wf(),
            match r {
                Some(v) => old(self)@.contains_key(state@) && v == old(self)@[state@]
                    && final(self)@ == old(self)@.remove(state@),
                None => !old(self)@.contains_key(state@) && *final(self) == *old(self),
            },
    {
        match self.find(state) {
            Some(i) => {
                proof {
                    lemma_view_remove(self.entries@, i as int);
                    lemma_idx_unique(self.entries@, state@);
                }
                let (_token, flow) = self.entries.remove(i);
                Some(flow)
            },
            None => None,
        }
    }

    /// Registers `flow` under `state`, overwriting any entry already there
    /// (collisions are not expected of unguessable tokens, but not rejected).
    pub fn put(&mut self, state: String, flow: V)
        requires
            old(self).wf(),
        ensures
            final(self).wf(),
            final(self)@ == old(self)@.insert(state@, flow),
    {
        let _previous = self.take(&state);
        proof {
            assert(!self@.contains_key(state@));
            assert(!entry_has(self.entries@, state@));
            lemma_view_push(self.entries@, (state, flow));
        }
        self.entries.push((state, flow));
        proof {
            assert(old(self)@.remove(state@).insert(state@, flow) =~= old(self)@.insert(
                state@,
                flow,
            ));
        }
    }

    /// Whether a flow is registered under `state`.
    pub fn contains(&self, state: &String) -> (r: bool)
        ensures
            r == self@.contains_key(state@),
    {
        match self.find(state) {
            Some(i) => {
                proof {
                    assert(entry_has(self.entries@, state@));
                }
                true
            },
            None => false,
        }
    }
}

/// Law: after a flow `f` is registered under the state token `s`, the first
/// `take` of `s` yields exactly `f`, and once it is taken, a second `take`
/// of `s` finds nothing.
pub proof fn lemma_flow_exactly_once<V>(m: Map<Seq<char>, V>, s: Seq<char>, f: V)
    ensures
        m.insert(s, f).contains_key(s),
        m.insert(s, f)[s] == f,
        !m.insert(s, f).remove(s).contains_key(s),
{
}

/// Law: operations under one state token never touch a flow registered
/// under another: registrations under distinct tokens commute, and neither
/// registering nor consuming one flow changes what the other token maps to.
pub proof fn lemma_flow_isolation<V>(m: Map<Seq<char>, V>, s1: Seq<char>, f1: V, s2: Seq<char>)
    requires
        s1 != s2,
    ensures
        m.insert(s1, f1).contains_key(s2) == m.contains_key(s2),
        m.contains_key(s2) ==> m.insert(s1, f1)[s2] == m[s2],
        m.remove(s1).contains_key(s2) == m.contains_key(s2),
        m.contains_key(s2) ==> m.remove(s1)[s2] == m[s2],
        forall|f2: V| #[trigger] m.insert(s1, f1).insert(s2, f2) == m.insert(s2, f2).insert(
            s1,
            f1,
        ),
{
    assert forall|f2: V| #[trigger] m.insert(s1, f1).insert(s2, f2) == m.insert(s2, f2).insert(
        s1,
        f1,
    ) by {
        assert(m.insert(s1, f1).insert(s2, f2) =~= m.insert(s2, f2).insert(s1, f1));
    }
}

} // verus!
