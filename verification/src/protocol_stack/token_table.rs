use vstd::prelude::*;
use crate::protocol_stack::ChannelToken;

verus! {

/// The entries of `entries` whose tokens had not expired when the time gone
/// by since each was last touched read as in `elapsed`, entry by entry, in
/// their order.
pub open spec fn unexpired<V>(entries: Seq<(ChannelToken, V)>, elapsed: Seq<u128>) -> Seq<(ChannelToken, V)>
    decreases entries.len(),
{
    if entries.len() == 0 {
        Seq::empty()
    } else {
        let rest = unexpired(entries.drop_last(), elapsed);
        if entries.last().0.expired_at(elapsed[entries.len() - 1]) {
            rest
        } else {
            rest.push(entries.last())
        }
    }
}

/// A check for expired tokens keeps each entry whose token had not expired
/// at its reading, and keeps nothing else: every entry it keeps stands in
/// `entries` at a place whose reading found its token alive.
pub proof fn lemma_unexpired_keeps_the_alive<V>(entries: Seq<(ChannelToken, V)>, elapsed: Seq<u128>)
    requires
        elapsed.len() == entries.len(),
    ensures
        unexpired(entries, elapsed).len() <= entries.len(),
        forall|j: int| 0 <= j < entries.len() && !(#[trigger] entries[j]).0.expired_at(elapsed[j])
            ==> unexpired(entries, elapsed).contains(entries[j]),
        forall|k: int| 0 <= k < unexpired(entries, elapsed).len() ==> exists|j: int| 0 <= j < entries.len()
            && entries[j] == #[trigger] unexpired(entries, elapsed)[k] && !entries[j].0.expired_at(elapsed[j]),
    decreases entries.len(),
{
    if entries.len() > 0 {
        let n = entries.len() - 1;
        let init = entries.drop_last();
        lemma_unexpired_keeps_the_alive(init, elapsed.drop_last());
        lemma_unexpired_ignores_later_readings(init, elapsed.drop_last(), elapsed);
        let rest = unexpired(init, elapsed);
        let r = unexpired(entries, elapsed);
        assert forall|j: int| 0 <= j < entries.len() && !(#[trigger] entries[j]).0.expired_at(elapsed[j])
            implies r.contains(entries[j]) by {
            if j < n {
                assert(init[j] == entries[j]);
                assert(elapsed.drop_last()[j] == elapsed[j]);
                let k = choose|k: int| 0 <= k < rest.len() && rest[k] == init[j];
                assert(r[k] == rest[k]);
            } else {
                assert(r[rest.len() as int] == entries[j]);
            }
        }
        assert forall|k: int| 0 <= k < r.len() implies exists|j: int| 0 <= j < entries.len()
            && entries[j] == #[trigger] r[k] && !entries[j].0.expired_at(elapsed[j]) by {
            if k < rest.len() {
                assert(r[k] == rest[k]);
                let j = choose|j: int| 0 <= j < init.len() && init[j] == #[trigger] rest[k]
                    && !init[j].0.expired_at(elapsed.drop_last()[j]);
                assert(entries[j] == init[j]);
                assert(elapsed.drop_last()[j] == elapsed[j]);
            } else {
                assert(entries[n] == r[k]);
            }
        }
    }
}

/// Readings past the end of `entries` play no part.
pub proof fn lemma_unexpired_ignores_later_readings<V>(entries: Seq<(ChannelToken, V)>, elapsed: Seq<u128>, longer: Seq<u128>)
    requires
        elapsed.len() == entries.len(),
        longer.len() >= elapsed.len(),
        forall|j: int| 0 <= j < elapsed.len() ==> longer[j] == elapsed[j],
    ensures
        unexpired(entries, longer) == unexpired(entries, elapsed),
    decreases entries.len(),
{
    if entries.len() > 0 {
        lemma_unexpired_ignores_later_readings(entries.drop_last(), elapsed.drop_last(), longer);
        lemma_unexpired_ignores_later_readings(entries.drop_last(), elapsed.drop_last(), elapsed);
    }
}

/// Values kept by channel token, with each token once: two tokens are the
/// same when their identifiers are.
pub struct TokenTable<V> {
    entries: Vec<(ChannelToken, V)>,
}

impl<V> TokenTable<V> {
    /// The entries, in the order they came in.
    pub closed spec fn entries(&self) -> Seq<(ChannelToken, V)> {
        self.entries@
    }

    /// Each token is there once.
    pub open spec fn wf(&self) -> bool {
        forall|a: int, b: int| 0 <= a < b < self.entries().len()
            ==> (#[trigger] self.entries()[a]).0.spec_id() != (#[trigger] self.entries()[b]).0.spec_id()
    }

    /// Whether `t` is there.
    pub open spec fn has(&self, t: ChannelToken) -> bool {
        exists|i: int| 0 <= i < self.entries().len() && (#[trigger] self.entries()[i]).0.spec_id() == t.spec_id()
    }

    /// The value kept for a token with the identifier of `t`.
    pub open spec fn value_of(&self, t: ChannelToken) -> V
        recommends
            self.has(t),
    {
        self.entries()[choose|i: int| 0 <= i < self.entries().len() && (#[trigger] self.entries()[i]).0.spec_id() == t.spec_id()].1
    }

    pub fn new() -> (r: Self)
        ensures
            r.wf(),
            r.entries().len() == 0,
    {
        TokenTable { entries: Vec::new() }
    }

    pub fn len(&self) -> (r: usize)
        ensures
            r == self.entries().len(),
    {
        self.entries.len()
    }

    /// Where `t` is, if it is there.
    pub fn position(&self, t: &ChannelToken) -> (r: Option<usize>)
        ensures
            match r {
                Some(i) => i < self.entries().len() && self.entries()[i as int].0.spec_id() == t.spec_id(),
                None => !self.has(*t),
            },
    {
        let mut i: usize = 0;
        while i < self.entries.len()
            invariant
                i <= self.entries@.len(),
                forall|j: int| 0 <= j < i ==> self.entries@[j].0.spec_id() != t.spec_id(),
            decreases self.entries@.len() - i,
        {
            if self.entries[i].0.id() == t.id() {
                return Some(i);
            }
            i = i + 1;
        }
        None
    }

    pub fn contains(&self, t: &ChannelToken) -> (r: bool)
        ensures
            r == self.has(*t),
    {
        self.position(t).is_some()
    }

    /// The token at `i`.
    pub fn token_at(&self, i: usize) -> (r: ChannelToken)
        requires
            i < self.entries().len(),
        ensures
            r == self.entries()[i as int].0,
    {
        self.entries[i].0
    }

    /// The value at `i`.
    pub fn value_at(&self, i: usize) -> (r: &V)
        requires
            i < self.entries().len(),
        ensures
            *r == self.entries()[i as int].1,
    {
        &self.entries[i].1
    }

    /// The value kept for `t`, if `t` is there.
    pub fn get(&self, t: &ChannelToken) -> (r: Option<&V>)
        requires
            self.wf(),
        ensures
            self.has(*t) ==> r == Some(&self.value_of(*t)),
            !self.has(*t) ==> r is None,
    {
        match self.position(t) {
            Some(i) => {
                proof {
                    self.lemma_unique_position(*t, i as int);
                }
                Some(&self.entries[i].1)
            },
            None => None,
        }
    }

    proof fn lemma_unique_position(&self, t: ChannelToken, i: int)
        requires
            self.wf(),
            0 <= i < self.entries().len(),
            self.entries()[i].0.spec_id() == t.spec_id(),
        ensures
            self.has(t),
            self.value_of(t) == self.entries()[i].1,
            (choose|j: int| 0 <= j < self.entries().len() && (#[trigger] self.entries()[j]).0.spec_id() == t.spec_id()) == i,
    {
        let j = choose|j: int| 0 <= j < self.entries().len() && (#[trigger] self.entries()[j]).0.spec_id() == t.spec_id();
        if j != i {
            if j < i {
                assert(self.entries()[j].0.spec_id() != self.entries()[i].0.spec_id());
            } else {
                assert(self.entries()[i].0.spec_id() != self.entries()[j].0.spec_id());
            }
        }
    }

    /// Takes out the entry at `i`; the others keep their order.
    pub fn remove_at(&mut self, i: usize) -> (r: (ChannelToken, V))
        requires
            old(self).wf(),
            i < old(self).entries().len(),
        ensures
            final(self).wf(),
            r == old(self).entries()[i as int],
            final(self).entries() == old(self).entries().remove(i as int),
            !final(self).has(r.0),
            forall|u: ChannelToken| u.spec_id() != r.0.spec_id() ==> (final(self).has(u) == old(self).has(u)),
    {
        let ghost old_e = self.entries@;
        let r = self.entries.remove(i);
        assert forall|a: int, b: int| 0 <= a < b < self.entries().len()
            implies (#[trigger] self.entries()[a]).0.spec_id() != (#[trigger] self.entries()[b]).0.spec_id() by {
            let oa = if a < i { a } else { a + 1 };
            let ob = if b < i { b } else { b + 1 };
            assert(self.entries()[a] == old_e[oa]);
            assert(self.entries()[b] == old_e[ob]);
        }
        assert(!self.has(r.0)) by {
            if self.has(r.0) {
                let j = choose|j: int| 0 <= j < self.entries().len() && (#[trigger] self.entries()[j]).0.spec_id() == r.0.spec_id();
                let oj = if j < i { j } else { j + 1 };
                assert(self.entries()[j] == old_e[oj]);
                if oj < i {
                    assert(old_e[oj].0.spec_id() != old_e[i as int].0.spec_id());
                } else {
                    assert(old_e[i as int].0.spec_id() != old_e[oj].0.spec_id());
                }
            }
        }
        assert forall|u: ChannelToken| u.spec_id() != r.0.spec_id() implies (self.has(u) == old(self).has(u)) by {
            if old(self).has(u) {
                let oj = choose|oj: int| 0 <= oj < old_e.len() && (#[trigger] old_e[oj]).0.spec_id() == u.spec_id();
                assert(oj != i);
                let j = if oj < i { oj } else { oj - 1 };
                assert(self.entries()[j] == old_e[oj]);
            }
            if self.has(u) {
                let j = choose|j: int| 0 <= j < self.entries().len() && (#[trigger] self.entries()[j]).0.spec_id() == u.spec_id();
                let oj = if j < i { j } else { j + 1 };
                assert(self.entries()[j] == old_e[oj]);
            }
        }
        r
    }

    /// Takes out the entry for `t`, if `t` is there.
    pub fn remove(&mut self, t: &ChannelToken) -> (r: Option<V>)
        requires
            old(self).wf(),
        ensures
            final(self).wf(),
            !final(self).has(*t),
            old(self).has(*t) ==> r == Some(old(self).value_of(*t)),
            !old(self).has(*t) ==> r is None && *final(self) == *old(self),
            forall|u: ChannelToken| u.spec_id() != t.spec_id() ==> (final(self).has(u) == old(self).has(u)),
            final(self).entries().len() <= old(self).entries().len(),
    {
        match self.position(t) {
            Some(i) => {
                proof {
                    self.lemma_unique_position(*t, i as int);
                }
                let (_, v) = self.remove_at(i);
                Some(v)
            },
            None => None,
        }
    }

    /// Keeps the entries whose tokens had not expired when the time gone by
    /// since each was last touched read as in `elapsed`, entry by entry, and
    /// forgets the others; what is kept keeps its order.
    pub fn retain_unexpired(&mut self, elapsed: &Vec<u128>)
        requires
            old(self).wf(),
            elapsed@.len() == old(self).entries().len(),
        ensures
            final(self).wf(),
            final(self).entries() == unexpired(old(self).entries(), elapsed@),
    {
        let ghost e0 = self.entries@;
        let mut i: usize = 0;
        let mut j: usize = 0;
        assert(e0.take(0) =~= Seq::<(ChannelToken, V)>::empty());
        assert(e0.skip(0) =~= e0);
        while j < elapsed.len()
            invariant
                e0 == old(self).entries(),
                elapsed@.len() == e0.len(),
                j <= e0.len(),
                self.wf(),
                i == unexpired(e0.take(j as int), elapsed@).len(),
                self.entries@ == unexpired(e0.take(j as int), elapsed@) + e0.skip(j as int),
            decreases e0.len() - j,
        {
            let ghost u = unexpired(e0.take(j as int), elapsed@);
            assert(e0.take(j as int + 1).drop_last() =~= e0.take(j as int));
            assert(e0.take(j as int + 1).last() == e0[j as int]);
            assert(self.entries@[i as int] == e0[j as int]);
            let n = self.entries.len();
            assert(i < n);
            let t = self.entries[i].0;
            if t.expired_after(elapsed[j]) {
                self.remove_at(i);
                assert(self.entries@ =~= u + e0.skip(j as int + 1));
            } else {
                i = i + 1;
                assert(self.entries@ =~= u.push(e0[j as int]) + e0.skip(j as int + 1));
            }
            j = j + 1;
        }
        assert(e0.take(e0.len() as int) =~= e0);
        assert(self.entries@ =~= unexpired(e0, elapsed@));
    }

    /// Keeps `v` for `t`: in place of the value kept for `t`, or as a new
    /// entry at the end.
    pub fn insert(&mut self, t: ChannelToken, v: V)
        requires
            old(self).wf(),
        ensures
            final(self).wf(),
            final(self).has(t),
            final(self).value_of(t) == v,
            forall|u: ChannelToken| u.spec_id() != t.spec_id() ==> (final(self).has(u) == old(self).has(u)),
            old(self).has(t) ==> final(self).entries().len() == old(self).entries().len(),
            !old(self).has(t) ==> final(self).entries().len() == old(self).entries().len() + 1,
    {
        let ghost old_e = self.entries@;
        match self.position(&t) {
            Some(i) => {
                let key = self.entries[i].0;
                self.entries.set(i, (key, v));
                assert forall|a: int, b: int| 0 <= a < b < self.entries().len()
                    implies (#[trigger] self.entries()[a]).0.spec_id() != (#[trigger] self.entries()[b]).0.spec_id() by {
                    assert(self.entries()[a].0 == old_e[a].0);
                    assert(self.entries()[b].0 == old_e[b].0);
                }
                proof {
                    self.lemma_unique_position(t, i as int);
                }
                assert forall|u: ChannelToken| u.spec_id() != t.spec_id() implies (self.has(u) == old(self).has(u)) by {
                    if old(self).has(u) {
                        let j = choose|j: int| 0 <= j < old_e.len() && (#[trigger] old_e[j]).0.spec_id() == u.spec_id();
                        assert(self.entries()[j].0 == old_e[j].0);
                    }
                    if self.has(u) {
                        let j = choose|j: int| 0 <= j < self.entries().len() && (#[trigger] self.entries()[j]).0.spec_id() == u.spec_id();
                        assert(self.entries()[j].0 == old_e[j].0);
                    }
                }
            },
            None => {
                assert forall|j: int| 0 <= j < old_e.len() implies old_e[j].0.spec_id() != t.spec_id() by {
                    assert(old(self).entries()[j] == old_e[j]);
                }
                self.entries.push((t, v));
                let ghost n = old_e.len() as int;
                assert forall|a: int, b: int| 0 <= a < b < self.entries().len()
                    implies (#[trigger] self.entries()[a]).0.spec_id() != (#[trigger] self.entries()[b]).0.spec_id() by {
                    assert(self.entries()[a] == old_e[a]);
                    if b < n {
                        assert(self.entries()[b] == old_e[b]);
                        assert(old(self).entries()[a] == old_e[a]);
                        assert(old(self).entries()[b] == old_e[b]);
                    }
                }
                proof {
                    self.lemma_unique_position(t, n);
                }
                assert forall|u: ChannelToken| u.spec_id() != t.spec_id() implies (self.has(u) == old(self).has(u)) by {
                    if old(self).has(u) {
                        let j = choose|j: int| 0 <= j < old_e.len() && (#[trigger] old_e[j]).0.spec_id() == u.spec_id();
                        assert(self.entries()[j] == old_e[j]);
                    }
                    if self.has(u) {
                        let j = choose|j: int| 0 <= j < self.entries().len() && (#[trigger] self.entries()[j]).0.spec_id() == u.spec_id();
                        assert(j < n);
                        assert(self.entries()[j] == old_e[j]);
                        assert(old(self).entries()[j] == old_e[j]);
                    }
                }
            },
        }
    }
}

} // verus!
