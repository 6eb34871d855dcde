use vstd::prelude::*;

use crate::query::{Search, SearchView};

verus! {

/// One cached value, with the key it answers and the instant (in
/// milliseconds) from which it no longer does.
pub struct Slot<V> {
    pub key: Search,
    pub value: V,
    pub expires_at: u64,
}

/// No two slots answer the same key.
pub open spec fn keys_distinct<V>(s: Seq<Slot<V>>) -> bool {
    forall|i: int, j: int|
        0 <= i < s.len() && 0 <= j < s.len() && i != j ==> s[i].key@ != s[j].key@
}

pub open spec fn holds_key<V>(s: Seq<Slot<V>>, k: SearchView) -> bool {
    exists|i: int| 0 <= i < s.len() && s[i].key@ == k
}

/// The position of the slot for `k`, where there is one.
pub open spec fn slot_of<V>(s: Seq<Slot<V>>, k: SearchView) -> int {
    choose|i: int| 0 <= i < s.len() && s[i].key@ == k
}

/// A slot is live strictly before its expiry instant.
pub open spec fn is_live<V>(slot: Slot<V>, now: int) -> bool {
    now < slot.expires_at
}

/// What a lookup of `k` at instant `now` finds.
pub open spec fn live_value<V>(s: Seq<Slot<V>>, k: SearchView, now: int) -> Option<V> {
    if holds_key(s, k) && is_live(s[slot_of(s, k)], now) {
        Some(s[slot_of(s, k)].value)
    } else {
        None
    }
}

/// The slots after storing `value` under `key` until `expires_at`: the slot
/// of the key is replaced where it has one, else a slot is added at the end.
pub open spec fn stored<V>(s: Seq<Slot<V>>, key: Search, value: V, expires_at: u64) -> Seq<Slot<V>> {
    let slot = Slot { key, value, expires_at };
    if holds_key(s, key@) {
        s.update(slot_of(s, key@), slot)
    } else {
        s.push(slot)
    }
}

/// The window of slots a sweep from `start` over `count` slots examines.
pub open spec fn window_end(len: int, start: int, count: int) -> int {
    if start + count < len {
        start + count
    } else {
        len
    }
}

pub open spec fn window_start(len: int, start: int) -> int {
    if start < len {
        start
    } else {
        len
    }
}

pub open spec fn live_at<V>(now: int) -> spec_fn(Slot<V>) -> bool {
    |slot: Slot<V>| is_live(slot, now)
}

/// The slots after a sweep at `now` of the window from `start` over `count`
/// slots: the expired slots of the window are gone, the rest is kept in order.
pub open spec fn swept<V>(s: Seq<Slot<V>>, now: int, start: int, count: int) -> Seq<Slot<V>> {
    let a = window_start(s.len() as int, start);
    let b = window_end(s.len() as int, a, count);
    s.subrange(0, a) + s.subrange(a, b).filter(live_at(now)) + s.subrange(b, s.len() as int)
}

/// Storing under a key keeps keys distinct.
pub proof fn lemma_stored_distinct<V>(s: Seq<Slot<V>>, key: Search, value: V, expires_at: u64)
    requires
        keys_distinct(s),
    ensures
        keys_distinct(stored(s, key, value, expires_at)),
{
}

/// After a value is stored under a key until `expires_at`, a lookup of that
/// key finds exactly that value before `expires_at` and nothing from then
/// on; lookups of every other key find what they found before.
pub proof fn lemma_lookup_after_store<V>(
    s: Seq<Slot<V>>,
    key: Search,
    value: V,
    expires_at: u64,
    k: SearchView,
    now: int,
)
    requires
        keys_distinct(s),
    ensures
        live_value(stored(s, key, value, expires_at), key@, now) == (if now < expires_at {
            Some(value)
        } else {
            None
        }),
        k != key@ ==> live_value(stored(s, key, value, expires_at), k, now) == live_value(
            s,
            k,
            now,
        ),
{
    let t = stored(s, key, value, expires_at);
    let slot = Slot { key, value, expires_at };
    if holds_key(s, key@) {
        let c = slot_of(s, key@);
        assert(t[c] == slot);
        assert(slot_of(t, key@) == c);
    } else {
        assert(t[s.len() as int] == slot);
        assert(slot_of(t, key@) == s.len());
    }
    if k != key@ {
        if holds_key(s, k) {
            let i = slot_of(s, k);
            assert(t[i] == s[i]);
            assert(slot_of(t, k) == i);
        }
        if holds_key(t, k) {
            let j = slot_of(t, k);
            assert(t[j] == s[j]);
        }
    }
}

proof fn lemma_filter_distinct<V>(m: Seq<Slot<V>>, p: spec_fn(Slot<V>) -> bool)
    requires
        keys_distinct(m),
    ensures
        keys_distinct(m.filter(p)),
        forall|j: int|
            0 <= j < m.filter(p).len() ==> exists|i: int|
                0 <= i < m.len() && #[trigger] m.filter(p)[j] == m[i],
    decreases m.len(),
{
    reveal(Seq::filter);
    if m.len() > 0 {
        let d = m.drop_last();
        assert(keys_distinct(d));
        lemma_filter_distinct(d, p);
        let f = d.filter(p);
        assert forall|j: int| 0 <= j < f.len() implies (#[trigger] f[j]).key@ != m.last().key@ by {
            let i = choose|i: int| 0 <= i < d.len() && f[j] == d[i];
            assert(m[i] == d[i]);
            assert(i != m.len() - 1);
        }
        if p(m.last()) {
            let g = f.push(m.last());
            assert forall|j: int| 0 <= j < g.len() implies exists|i: int|
                0 <= i < m.len() && #[trigger] g[j] == m[i] by {
                if j < f.len() {
                    let i = choose|i: int| 0 <= i < d.len() && f[j] == d[i];
                    assert(g[j] == m[i]);
                } else {
                    assert(g[j] == m[m.len() - 1]);
                }
            }
        } else {
            assert forall|j: int| 0 <= j < f.len() implies exists|i: int|
                0 <= i < m.len() && #[trigger] f[j] == m[i] by {
                let i = choose|i: int| 0 <= i < d.len() && f[j] == d[i];
                assert(f[j] == m[i]);
            }
        }
    }
}

proof fn lemma_filter_keeps<V>(m: Seq<Slot<V>>, p: spec_fn(Slot<V>) -> bool, i: int)
    requires
        0 <= i < m.len(),
        p(m[i]),
    ensures
        exists|j: int| 0 <= j < m.filter(p).len() && #[trigger] m.filter(p)[j] == m[i],
{
    m.lemma_filter_contains(p, i);
}

/// A sweep keeps keys distinct, keeps only slots that were there, and keeps
/// every slot that is live at the instant of the sweep.
pub proof fn lemma_swept_slots<V>(s: Seq<Slot<V>>, now: int, start: int, count: int)
    requires
        keys_distinct(s),
        0 <= start,
        0 <= count,
    ensures
        keys_distinct(swept(s, now, start, count)),
        forall|j: int|
            0 <= j < swept(s, now, start, count).len() ==> exists|i: int|
                0 <= i < s.len() && #[trigger] swept(s, now, start, count)[j] == s[i],
        forall|i: int|
            0 <= i < s.len() && is_live(#[trigger] s[i], now) ==> exists|j: int|
                0 <= j < swept(s, now, start, count).len() && swept(s, now, start, count)[j]
                    == s[i],
{
    let a = window_start(s.len() as int, start);
    let b = window_end(s.len() as int, a, count);
    let x = s.subrange(0, a);
    let m = s.subrange(a, b);
    let y = s.subrange(b, s.len() as int);
    let f = m.filter(live_at(now));
    let w = swept(s, now, start, count);
    assert(w == x + f + y);
    assert(keys_distinct(m));
    lemma_filter_distinct(m, live_at(now));
    assert forall|j: int| 0 <= j < w.len() implies exists|i: int|
        0 <= i < s.len() && #[trigger] w[j] == s[i] && (j < a ==> i == j) && (a <= j < a
            + f.len() ==> a <= i < b) && (j >= a + f.len() ==> i == j - a - f.len() + b) by {
        if j < a {
            assert(w[j] == s[j]);
        } else if j < a + f.len() {
            let i = choose|i: int| 0 <= i < m.len() && f[j - a] == m[i];
            assert(w[j] == s[a + i]);
        } else {
            assert(w[j] == s[j - a - f.len() + b]);
        }
    }
    assert forall|j1: int, j2: int|
        0 <= j1 < w.len() && 0 <= j2 < w.len() && j1 != j2 implies w[j1].key@ != w[j2].key@ by {
        let i1 = choose|i: int|
            0 <= i < s.len() && #[trigger] w[j1] == s[i] && (j1 < a ==> i == j1) && (a <= j1 < a
                + f.len() ==> a <= i < b) && (j1 >= a + f.len() ==> i == j1 - a - f.len() + b);
        let i2 = choose|i: int|
            0 <= i < s.len() && #[trigger] w[j2] == s[i] && (j2 < a ==> i == j2) && (a <= j2 < a
                + f.len() ==> a <= i < b) && (j2 >= a + f.len() ==> i == j2 - a - f.len() + b);
        if a <= j1 < a + f.len() && a <= j2 < a + f.len() {
            assert(w[j1] == f[j1 - a]);
            assert(w[j2] == f[j2 - a]);
        } else {
            assert(i1 != i2);
        }
    }
    assert forall|i: int| 0 <= i < s.len() && is_live(#[trigger] s[i], now) implies exists|j: int|
        0 <= j < w.len() && w[j] == s[i] by {
        if i < a {
            assert(w[i] == s[i]);
        } else if i < b {
            assert(m[i - a] == s[i]);
            lemma_filter_keeps(m, live_at(now), i - a);
            let j = choose|j: int| 0 <= j < f.len() && #[trigger] f[j] == m[i - a];
            assert(w[a + j] == s[i]);
        } else {
            assert(w[i - b + a + f.len()] == s[i]);
        }
    }
}

/// A sweep at `now` changes nothing that a lookup at `now` or later finds:
/// it removes expired slots only, and a lookup never finds those.
pub proof fn lemma_sweep_unseen<V>(s: Seq<Slot<V>>, now: int, start: int, count: int, k: SearchView, t: int)
    requires
        keys_distinct(s),
        0 <= start,
        0 <= count,
        now <= t,
    ensures
        live_value(swept(s, now, start, count), k, t) == live_value(s, k, t),
{
    let w = swept(s, now, start, count);
    lemma_swept_slots(s, now, start, count);
    if holds_key(w, k) {
        let j = slot_of(w, k);
        let i = choose|i: int| 0 <= i < s.len() && #[trigger] w[j] == s[i];
        assert(s[i].key@ == k);
        assert(slot_of(s, k) == i);
    } else if holds_key(s, k) {
        let i = slot_of(s, k);
        if is_live(s[i], now) {
            let j = choose|j: int| 0 <= j < w.len() && w[j] == s[i];
            assert(w[j].key@ == k);
        }
    }
}

/// Whether a sweep should examine another sample at once: it should while at
/// least a quarter of the slots it examined had expired.
pub fn sweep_again(removed: usize, examined: usize) -> (r: bool)
    ensures
        r == (examined > 0 && 4 * removed >= examined),
{
    examined > 0 && removed >= examined / 4 + if examined % 4 == 0 { 0 } else { 1 }
}

/// A key-value store whose entries expire a fixed time after they were
/// stored. Instants are milliseconds on a clock that the caller reads.
pub struct TtlCache<V> {
    slots: Vec<Slot<V>>,
}

impl<V> View for TtlCache<V> {
    type V = Seq<Slot<V>>;

    closed spec fn view(&self) -> Seq<Slot<V>> {
        self.slots@
    }
}

impl<V> TtlCache<V> {
    pub open spec fn wf(&self) -> bool {
        keys_distinct(self@)
    }

    pub fn new() -> (r: TtlCache<V>)
        ensures
            r.wf(),
            r@ == Seq::<Slot<V>>::empty(),
    {
        TtlCache { slots: Vec::new() }
    }

    /// The number of slots, the expired ones that no sweep removed yet
    /// included.
    pub fn len(&self) -> (r: usize)
        ensures
            r == self@.len(),
    {
        self.slots.len()
    }

    fn find(&self, key: &Search) -> (r: Option<usize>)
        requires
            self.wf(),
        ensures
            r is Some <==> holds_key(self@, key@),
            r matches Some(i) ==> i < self@.len() && i == slot_of(self@, key@),
    {
        let mut i: usize = 0;
        while i < self.slots.len()
            invariant
                i <= self.slots@.len(),
                keys_distinct(self@),
                forall|j: int| 0 <= j < i ==> self.slots@[j].key@ != key@,
            decreases self.slots@.len() - i,
        {
            if self.slots[i].key == *key {
                assert(holds_key(self@, key@));
                let ghost c = slot_of(self@, key@);
                assert(c == i);
                return Some(i);
            }
            i = i + 1;
        }
        None
    }

    /// The value stored under `key`, if it has not expired at `now`.
    pub fn get(&self, key: &Search, now: u64) -> (r: Option<&V>)
        requires
            self.wf(),
        ensures
            match r {
                Some(v) => live_value(self@, key@, now as int) == Some(*v),
                None => live_value(self@, key@, now as int) is None,
            },
    {
        match self.find(key) {
            Some(i) => {
                if now < self.slots[i].expires_at {
                    Some(&self.slots[i].value)
                } else {
                    None
                }
            },
            None => None,
        }
    }

    /// Stores `value` under `key` until `ttl` milliseconds after `now`,
    /// replacing what was stored under it.
    pub fn insert(&mut self, key: Search, value: V, ttl: u64, now: u64)
        requires
            old(self).wf(),
            now + ttl <= u64::MAX,
        ensures
            final(self).wf(),
            final(self)@ == stored(old(self)@, key, value, (now + ttl) as u64),
    {
        let expires_at = now + ttl;
        match self.find(&key) {
            Some(i) => {
                let ghost k = key@;
                self.slots[i] = Slot { key, value, expires_at };
                assert(forall|j: int|
                    0 <= j < self@.len() && j != i ==> self@[j].key@ != k);
            },
            None => {
                self.slots.push(Slot { key, value, expires_at });
            },
        }
    }

    /// Examines `count` slots from position `start` and removes those that
    /// have expired at `now`; returns how many it removed.
    pub fn purge(&mut self, now: u64, start: usize, count: usize) -> (r: usize)
        requires
            old(self).wf(),
        ensures
            final(self).wf(),
            final(self)@ == swept(old(self)@, now as int, start as int, count as int),
            r == old(self)@.len() - final(self)@.len(),
    {
        let ghost s = self@;
        let n = self.slots.len();
        let a = if start < n { start } else { n };
        let b = if count < n - a { a + count } else { n };
        let mut all: Vec<Slot<V>> = Vec::new();
        core::mem::swap(&mut self.slots, &mut all);
        let mut kept: Vec<Slot<V>> = Vec::new();
        let mut removed: usize = 0;
        let mut pos: usize = 0;
        let ghost mut idx: Seq<int> = Seq::empty();
        for slot in it: all.into_iter()
            invariant
                it.seq() == s,
                n == s.len(),
                a <= b <= n,
                a == window_start(n as int, start as int),
                b == window_end(n as int, a as int, count as int),
                kept@ == (if it.index() <= a {
                    s.subrange(0, it.index() as int)
                } else if it.index() <= b {
                    s.subrange(0, a as int) + s.subrange(a as int, it.index() as int).filter(
                        live_at(now as int),
                    )
                } else {
                    s.subrange(0, a as int) + s.subrange(a as int, b as int).filter(
                        live_at(now as int),
                    ) + s.subrange(b as int, it.index() as int)
                }),
                pos == it.index(),
                removed + kept@.len() == pos,
                idx.len() == kept@.len(),
                forall|j: int| 0 <= j < idx.len() ==> 0 <= #[trigger] idx[j] < it.index(),
                forall|j: int| 0 <= j < idx.len() ==> kept@[j] == s[#[trigger] idx[j]],
                forall|j: int, l: int| 0 <= j < l < idx.len() ==> idx[j] < idx[l],
                keys_distinct(s),
        {
            let ghost i = it.index() as int;
            let ghost before = kept@;
            proof {
                assert(s.subrange(a as int, a as int).filter(live_at(now as int))
                    =~= Seq::<Slot<V>>::empty()) by {
                    reveal(Seq::filter);
                }
            }
            if a <= pos && pos < b && !(now < slot.expires_at) {
                removed = removed + 1;
            } else {
                kept.push(slot);
                proof {
                    idx = idx.push(i);
                }
            }
            pos = pos + 1;
            proof {
                if i + 1 <= a {
                    assert(kept@ =~= s.subrange(0, i + 1));
                } else if i + 1 <= b {
                    let p = live_at::<V>(now as int);
                    let prev = s.subrange(a as int, i).filter(p);
                    assert(s.subrange(a as int, i + 1).filter(p) == (if p(slot) {
                        prev.push(slot)
                    } else {
                        prev
                    })) by {
                        reveal(Seq::filter);
                        assert(s.subrange(a as int, i + 1).drop_last() =~= s.subrange(a as int, i));
                    }
                    assert(before =~= s.subrange(0, a as int) + prev);
                    if p(slot) {
                        assert(kept@ =~= before.push(slot));
                    } else {
                        assert(kept@ =~= before);
                    }
                    assert(kept@ =~= s.subrange(0, a as int) + s.subrange(a as int, i + 1).filter(p));
                } else {
                    assert(kept@ =~= s.subrange(0, a as int) + s.subrange(a as int, b as int).filter(
                        live_at(now as int),
                    ) + s.subrange(b as int, i + 1));
                }
            }
        }
        assert(s.subrange(b as int, n as int) =~= s.subrange(b as int, s.len() as int));
        self.slots = kept;
        assert forall|x: int, y: int|
            0 <= x < self@.len() && 0 <= y < self@.len() && x != y implies self@[x].key@
            != self@[y].key@ by {
            assert(idx[x] != idx[y]);
        }
        removed
    }
}

} // verus!
