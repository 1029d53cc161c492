//! An insertion-ordered key-value ledger. The host's persistent storage is
//! modeled as [`ListMap`]: a vector of `(key, value)` entries with unique
//! keys, viewed as a mathematical association sequence. Insertion keeps an
//! existing key's position and appends a new key at the end; removal keeps
//! the order of the remaining entries. The order is part of the contract:
//! the deposit ledger drains depositors oldest-first.

use vstd::prelude::*;

verus! {

/// The value at `key`: the first (with unique keys, the only) match.
pub open spec fn sget<V>(s: Seq<(u64, V)>, key: u64) -> Option<V>
    decreases s.len(),
{
    if s.len() == 0 {
        Option::None
    } else if s[0].0 == key {
        Option::Some(s[0].1)
    } else {
        sget(s.drop_first(), key)
    }
}

/// Whether `key` is bound in the sequence.
pub open spec fn shas<V>(s: Seq<(u64, V)>, key: u64) -> bool {
    sget(s, key) is Some
}

/// The sequence after binding `key` to `v`: an existing binding is replaced
/// in place, a new one is appended at the end.
pub open spec fn sput<V>(s: Seq<(u64, V)>, key: u64, v: V) -> Seq<(u64, V)>
    decreases s.len(),
{
    if s.len() == 0 {
        seq![(key, v)]
    } else if s[0].0 == key {
        seq![(key, v)] + s.drop_first()
    } else {
        seq![s[0]] + sput(s.drop_first(), key, v)
    }
}

/// The sequence after unbinding `key`; the other entries keep their order.
pub open spec fn sdel<V>(s: Seq<(u64, V)>, key: u64) -> Seq<(u64, V)>
    decreases s.len(),
{
    if s.len() == 0 {
        s
    } else if s[0].0 == key {
        s.drop_first()
    } else {
        seq![s[0]] + sdel(s.drop_first(), key)
    }
}

/// Whether no key is bound twice.
pub open spec fn sunique<V>(s: Seq<(u64, V)>) -> bool {
    forall|i: int, j: int| 0 <= i < j < s.len() ==> s[i].0 != s[j].0
}

/// The sum of `f` over all bound values.
pub open spec fn ssum<V>(s: Seq<(u64, V)>, f: spec_fn(V) -> int) -> int
    decreases s.len(),
{
    if s.len() == 0 {
        0
    } else {
        f(s[0].1) + ssum(s.drop_first(), f)
    }
}

/// A binding at `i` with none before it is what lookup returns.
pub proof fn lemma_sget_index<V>(s: Seq<(u64, V)>, key: u64, i: int)
    requires
        0 <= i < s.len(),
        s[i].0 == key,
        forall|j: int| 0 <= j < i ==> s[j].0 != key,
    ensures
        sget(s, key) == Option::Some(s[i].1),
    decreases i,
{
    if i > 0 {
        lemma_sget_index(s.drop_first(), key, i - 1);
    }
}

/// With no binding anywhere, lookup returns nothing.
pub proof fn lemma_sget_absent<V>(s: Seq<(u64, V)>, key: u64)
    requires
        forall|j: int| 0 <= j < s.len() ==> s[j].0 != key,
    ensures
        sget(s, key) is None,
    decreases s.len(),
{
    if s.len() > 0 {
        lemma_sget_absent(s.drop_first(), key);
    }
}

/// Replacing the binding at `i` (the first one) is a pointwise update.
pub proof fn lemma_sput_index<V>(s: Seq<(u64, V)>, key: u64, v: V, i: int)
    requires
        0 <= i < s.len(),
        s[i].0 == key,
        forall|j: int| 0 <= j < i ==> s[j].0 != key,
    ensures
        sput(s, key, v) == s.update(i, (key, v)),
    decreases i,
{
    if i == 0 {
        assert(sput(s, key, v) =~= s.update(0, (key, v)));
    } else {
        lemma_sput_index(s.drop_first(), key, v, i - 1);
        assert(seq![s[0]] + s.drop_first().update(i - 1, (key, v)) =~= s.update(i, (key, v)));
    }
}

/// Binding a fresh key appends it at the end.
pub proof fn lemma_sput_absent<V>(s: Seq<(u64, V)>, key: u64, v: V)
    requires
        forall|j: int| 0 <= j < s.len() ==> s[j].0 != key,
    ensures
        sput(s, key, v) == s.push((key, v)),
    decreases s.len(),
{
    if s.len() == 0 {
        assert(sput(s, key, v) =~= s.push((key, v)));
    } else {
        lemma_sput_absent(s.drop_first(), key, v);
        assert(seq![s[0]] + s.drop_first().push((key, v)) =~= s.push((key, v)));
    }
}

/// Unbinding the key bound at `i` (the first binding) removes that entry.
pub proof fn lemma_sdel_index<V>(s: Seq<(u64, V)>, key: u64, i: int)
    requires
        0 <= i < s.len(),
        s[i].0 == key,
        forall|j: int| 0 <= j < i ==> s[j].0 != key,
    ensures
        sdel(s, key) == s.remove(i),
    decreases i,
{
    if i == 0 {
        assert(sdel(s, key) =~= s.remove(0));
    } else {
        lemma_sdel_index(s.drop_first(), key, i - 1);
        assert(seq![s[0]] + s.drop_first().remove(i - 1) =~= s.remove(i));
    }
}

/// Unbinding an absent key changes nothing.
pub proof fn lemma_sdel_absent<V>(s: Seq<(u64, V)>, key: u64)
    requires
        forall|j: int| 0 <= j < s.len() ==> s[j].0 != key,
    ensures
        sdel(s, key) == s,
    decreases s.len(),
{
    if s.len() > 0 {
        lemma_sdel_absent(s.drop_first(), key);
        assert(seq![s[0]] + s.drop_first() =~= s);
    }
}

/// What lookup sees after a binding: the new value at that key, the old
/// value everywhere else.
pub proof fn lemma_sget_sput<V>(s: Seq<(u64, V)>, key: u64, v: V, key2: u64)
    ensures
        sget(sput(s, key, v), key2) == if key2 == key {
            Option::Some(v)
        } else {
            sget(s, key2)
        },
    decreases s.len(),
{
    let t = sput(s, key, v);
    if s.len() == 0 {
        assert(t =~= seq![(key, v)]);
        assert(t[0] == (key, v));
        if key2 == key {
            assert(sget(t, key2) == Option::Some(v));
        } else {
            assert(sget(t, key2) == sget(t.drop_first(), key2));
            assert(t.drop_first() =~= Seq::<(u64, V)>::empty());
            lemma_sget_absent(t.drop_first(), key2);
        }
    } else if s[0].0 == key {
        assert(t =~= seq![(key, v)] + s.drop_first());
        assert(t[0] == (key, v));
        if key2 == key {
            assert(sget(t, key2) == Option::Some(v));
        } else {
            assert(sget(t, key2) == sget(t.drop_first(), key2));
            assert(t.drop_first() =~= s.drop_first());
            assert(sget(s, key2) == sget(s.drop_first(), key2));
        }
    } else {
        lemma_sget_sput(s.drop_first(), key, v, key2);
        assert(t =~= seq![s[0]] + sput(s.drop_first(), key, v));
        assert(t[0] == s[0]);
        assert(t.drop_first() =~= sput(s.drop_first(), key, v));
        if key2 == s[0].0 {
            assert(sget(t, key2) == Option::Some(t[0].1));
            assert(sget(s, key2) == Option::Some(s[0].1));
        } else {
            assert(sget(t, key2) == sget(t.drop_first(), key2));
            assert(sget(s, key2) == sget(s.drop_first(), key2));
        }
    }
}

/// What lookup sees after an unbinding, when keys are unique: nothing at
/// that key, the old value everywhere else.
pub proof fn lemma_sget_sdel<V>(s: Seq<(u64, V)>, key: u64, key2: u64)
    requires
        sunique(s),
    ensures
        sget(sdel(s, key), key2) == if key2 == key {
            Option::<V>::None
        } else {
            sget(s, key2)
        },
    decreases s.len(),
{
    if s.len() == 0 {
    } else if s[0].0 == key {
        assert(forall|j: int| 0 <= j < s.drop_first().len() ==> s.drop_first()[j].0 != key);
        if key2 == key {
            lemma_sget_absent(s.drop_first(), key);
        }
    } else {
        assert(sunique(s.drop_first()));
        lemma_sget_sdel(s.drop_first(), key, key2);
        let t = seq![s[0]] + sdel(s.drop_first(), key);
        assert(t.drop_first() =~= sdel(s.drop_first(), key));
    }
}

/// Binding grows the sequence only when the key is fresh.
pub proof fn lemma_sput_len<V>(s: Seq<(u64, V)>, key: u64, v: V)
    ensures
        sput(s, key, v).len() == if shas(s, key) {
            s.len() as int
        } else {
            s.len() + 1 as int
        },
    decreases s.len(),
{
    if s.len() > 0 && s[0].0 != key {
        lemma_sput_len(s.drop_first(), key, v);
    }
}

/// Binding keeps keys unique.
pub proof fn lemma_sput_unique<V>(s: Seq<(u64, V)>, key: u64, v: V)
    requires
        sunique(s),
    ensures
        sunique(sput(s, key, v)),
    decreases s.len(),
{
    if s.len() == 0 {
    } else if s[0].0 == key {
        let t = seq![(key, v)] + s.drop_first();
        assert(forall|i: int| 0 <= i < s.drop_first().len() ==> s.drop_first()[i] == t[i + 1]);
    } else {
        assert(sunique(s.drop_first()));
        lemma_sput_unique(s.drop_first(), key, v);
        let u = sput(s.drop_first(), key, v);
        let t = seq![s[0]] + u;
        assert forall|i: int, j: int| 0 <= i < j < t.len() implies t[i].0 != t[j].0 by {
            if i == 0 {
                if t[j].0 == s[0].0 {
                    lemma_sget_index(u, t[j].0, j - 1);
                    lemma_sget_sput(s.drop_first(), key, v, s[0].0);
                    lemma_sget_some_index(s.drop_first(), s[0].0);
                }
            }
        }
    }
}

/// A successful lookup points at some entry with that key.
pub proof fn lemma_sget_some_index<V>(s: Seq<(u64, V)>, key: u64)
    requires
        shas(s, key),
    ensures
        exists|i: int|
            0 <= i < s.len() && s[i].0 == key && s[i].1 == sget(s, key)->Some_0,
    decreases s.len(),
{
    if s[0].0 == key {
        assert(s[0].0 == key && s[0].1 == sget(s, key)->Some_0);
    } else {
        lemma_sget_some_index(s.drop_first(), key);
        let i = choose|i: int|
            0 <= i < s.drop_first().len() && s.drop_first()[i].0 == key && s.drop_first()[i].1
                == sget(s.drop_first(), key)->Some_0;
        assert(s[i + 1].0 == key && s[i + 1].1 == sget(s, key)->Some_0);
    }
}

/// An entry with the key makes its lookup succeed.
pub proof fn lemma_exists_shas<V>(s: Seq<(u64, V)>, key: u64)
    requires
        exists|i: int| 0 <= i < s.len() && s[i].0 == key,
    ensures
        shas(s, key),
    decreases s.len(),
{
    if s[0].0 != key {
        let i = choose|i: int| 0 <= i < s.len() && s[i].0 == key;
        assert(s.drop_first()[i - 1].0 == key);
        lemma_exists_shas(s.drop_first(), key);
    }
}

/// Unbinding keeps keys unique.
pub proof fn lemma_sdel_unique<V>(s: Seq<(u64, V)>, key: u64)
    requires
        sunique(s),
    ensures
        sunique(sdel(s, key)),
    decreases s.len(),
{
    if s.len() == 0 {
    } else if s[0].0 == key {
        assert(sunique(s.drop_first()));
    } else {
        assert(sunique(s.drop_first()));
        lemma_sdel_unique(s.drop_first(), key);
        let u = sdel(s.drop_first(), key);
        let t = seq![s[0]] + u;
        assert forall|i: int, j: int| 0 <= i < j < t.len() implies t[i].0 != t[j].0 by {
            if i == 0 {
                if t[j].0 == s[0].0 {
                    lemma_sget_index(u, t[j].0, j - 1);
                    lemma_sget_sdel(s.drop_first(), key, s[0].0);
                    lemma_sget_some_index(s.drop_first(), s[0].0);
                }
            }
        }
    }
}

/// How a binding moves the sum: the new value in, any replaced value out.
pub proof fn lemma_ssum_sput<V>(s: Seq<(u64, V)>, key: u64, v: V, f: spec_fn(V) -> int)
    ensures
        ssum(sput(s, key, v), f) == ssum(s, f) + f(v) - (match sget(s, key) {
            Option::Some(w) => f(w),
            Option::None => 0,
        }),
    decreases s.len(),
{
    if s.len() == 0 {
        assert(ssum(sput(s, key, v), f) == f(v) + ssum(seq![(key, v)].drop_first(), f));
    } else if s[0].0 == key {
        let t = seq![(key, v)] + s.drop_first();
        assert(t.drop_first() =~= s.drop_first());
        assert(t[0] == (key, v));
    } else {
        lemma_ssum_sput(s.drop_first(), key, v, f);
        let t = seq![s[0]] + sput(s.drop_first(), key, v);
        assert(t.drop_first() =~= sput(s.drop_first(), key, v));
        assert(t[0] == s[0]);
    }
}

/// How an unbinding moves the sum: the removed value out.
pub proof fn lemma_ssum_sdel<V>(s: Seq<(u64, V)>, key: u64, f: spec_fn(V) -> int)
    requires
        sunique(s),
    ensures
        ssum(sdel(s, key), f) == ssum(s, f) - (match sget(s, key) {
            Option::Some(w) => f(w),
            Option::None => 0,
        }),
    decreases s.len(),
{
    if s.len() == 0 {
    } else if s[0].0 == key {
    } else {
        assert(sunique(s.drop_first()));
        lemma_ssum_sdel(s.drop_first(), key, f);
        let t = seq![s[0]] + sdel(s.drop_first(), key);
        assert(t.drop_first() =~= sdel(s.drop_first(), key));
        assert(t[0] == s[0]);
    }
}

/// With entries that `f` values non-negatively, every bound value is at most
/// the sum, and the sum itself is non-negative.
pub proof fn lemma_ssum_bounds<V>(s: Seq<(u64, V)>, f: spec_fn(V) -> int)
    requires
        forall|i: int| 0 <= i < s.len() ==> f(#[trigger] s[i].1) >= 0,
    ensures
        ssum(s, f) >= 0,
        forall|key: u64|
            #[trigger] shas(s, key) ==> f(sget(s, key)->Some_0) <= ssum(s, f),
    decreases s.len(),
{
    if s.len() > 0 {
        assert(forall|i: int|
            0 <= i < s.drop_first().len() ==> f(#[trigger] s.drop_first()[i].1) >= 0);
        lemma_ssum_bounds(s.drop_first(), f);
        assert(f(s[0].1) >= 0);
        assert forall|key: u64| #[trigger] shas(s, key) implies f(sget(s, key)->Some_0) <= ssum(
            s,
            f,
        ) by {
            if s[0].0 != key {
                assert(shas(s.drop_first(), key));
            }
        }
    }
}

/// An insertion-ordered map from `u64` keys to values, with unique keys.
#[derive(Debug)]
pub struct ListMap<V> {
    entries: Vec<(u64, V)>,
}

impl<V: View> View for ListMap<V> {
    type V = Seq<(u64, V::V)>;

    closed spec fn view(&self) -> Seq<(u64, V::V)> {
        self.entries@.map_values(|e: (u64, V)| (e.0, e.1@))
    }
}

impl<V: View> ListMap<V> {
    /// Whether no key is bound twice; every operation preserves this.
    pub open spec fn wf(&self) -> bool {
        sunique(self@)
    }

    /// An empty map.
    pub fn new() -> (r: ListMap<V>)
        ensures
            r@ == Seq::<(u64, V::V)>::empty(),
            r.wf(),
    {
        let r = ListMap { entries: Vec::new() };
        proof {
            assert(r@ =~= Seq::<(u64, V::V)>::empty());
        }
        r
    }

    /// How many keys are bound.
    pub fn len(&self) -> (r: usize)
        ensures
            r == self@.len(),
    {
        self.entries.len()
    }

    /// Whether no key is bound.
    pub fn is_empty(&self) -> (r: bool)
        ensures
            r == (self@.len() == 0),
    {
        self.entries.len() == 0
    }

    /// The position of `key`'s entry, if it is bound.
    fn find_index(&self, key: u64) -> (r: Option<usize>)
        ensures
            match r {
                Option::Some(i) => i < self@.len() && self@[i as int].0 == key && (forall|j: int|
                    0 <= j < i ==> self@[j].0 != key),
                Option::None => forall|j: int| 0 <= j < self@.len() ==> self@[j].0 != key,
            },
    {
        let n = self.entries.len();
        let mut i: usize = 0;
        while i < n
            invariant
                i <= n,
                n == self@.len(),
                forall|j: int| 0 <= j < i ==> self@[j].0 != key,
            decreases n - i,
        {
            if self.entries[i].0 == key {
                return Option::Some(i);
            }
            i = i + 1;
        }
        Option::None
    }

    /// Whether `key` is bound.
    pub fn contains_key(&self, key: u64) -> (r: bool)
        ensures
            r == shas(self@, key),
    {
        match self.find_index(key) {
            Option::Some(i) => {
                proof {
                    lemma_sget_index(self@, key, i as int);
                }
                true
            },
            Option::None => {
                proof {
                    lemma_sget_absent(self@, key);
                }
                false
            },
        }
    }

    /// The value bound to `key`, if any.
    pub fn get(&self, key: u64) -> (r: Option<&V>)
        ensures
            match r {
                Option::Some(v) => sget(self@, key) == Option::Some(v@),
                Option::None => sget(self@, key) is None,
            },
    {
        match self.find_index(key) {
            Option::Some(i) => {
                proof {
                    lemma_sget_index(self@, key, i as int);
                }
                Option::Some(&self.entries[i].1)
            },
            Option::None => {
                proof {
                    lemma_sget_absent(self@, key);
                }
                Option::None
            },
        }
    }

    /// Binds `key` to `v`: replaces an existing binding in place, appends a
    /// fresh one at the end.
    pub fn insert(&mut self, key: u64, v: V)
        requires
            old(self).wf(),
        ensures
            final(self)@ == sput(old(self)@, key, v@),
            final(self).wf(),
    {
        proof {
            lemma_sput_unique(old(self)@, key, v@);
        }
        match self.find_index(key) {
            Option::Some(i) => {
                proof {
                    lemma_sput_index(self@, key, v@, i as int);
                }
                self.entries[i] = (key, v);
                proof {
                    assert(self@ =~= sput(old(self)@, key, v@));
                }
            },
            Option::None => {
                proof {
                    lemma_sput_absent(self@, key, v@);
                }
                self.entries.push((key, v));
                proof {
                    assert(self@ =~= sput(old(self)@, key, v@));
                }
            },
        }
    }

    /// Unbinds `key`; the other entries keep their order.
    pub fn remove(&mut self, key: u64)
        requires
            old(self).wf(),
        ensures
            final(self)@ == sdel(old(self)@, key),
            final(self).wf(),
    {
        proof {
            lemma_sdel_unique(old(self)@, key);
        }
        match self.find_index(key) {
            Option::Some(i) => {
                proof {
                    lemma_sdel_index(self@, key, i as int);
                }
                self.entries.remove(i);
                proof {
                    assert(self@ =~= sdel(old(self)@, key));
                }
            },
            Option::None => {
                proof {
                    lemma_sdel_absent(self@, key);
                }
            },
        }
    }

    /// Unbinds `key` and hands its value out; the other entries keep their
    /// order.
    pub fn take(&mut self, key: u64) -> (r: Option<V>)
        requires
            old(self).wf(),
        ensures
            final(self).wf(),
            match r {
                Option::Some(v) => sget(old(self)@, key) == Option::Some(v@) && final(self)@
                    == sdel(old(self)@, key),
                Option::None => !shas(old(self)@, key) && final(self)@ == old(self)@,
            },
    {
        proof {
            lemma_sdel_unique(old(self)@, key);
        }
        match self.find_index(key) {
            Option::Some(i) => {
                proof {
                    lemma_sget_index(self@, key, i as int);
                    lemma_sdel_index(self@, key, i as int);
                }
                let e = self.entries.remove(i);
                proof {
                    assert(self@ =~= sdel(old(self)@, key));
                }
                Option::Some(e.1)
            },
            Option::None => {
                proof {
                    lemma_sget_absent(self@, key);
                }
                Option::None
            },
        }
    }

    /// The entry at position `i`, in insertion order.
    pub fn entry_at(&self, i: usize) -> (r: (u64, &V))
        requires
            i < self@.len(),
        ensures
            r.0 == self@[i as int].0,
            r.1@ == self@[i as int].1,
    {
        let e = &self.entries[i];
        (e.0, &e.1)
    }

    /// All bound keys, in insertion order.
    pub fn keys(&self) -> (r: Vec<u64>)
        ensures
            r@ == self@.map_values(|e: (u64, V::V)| e.0),
    {
        let n = self.entries.len();
        let mut r: Vec<u64> = Vec::new();
        let mut i: usize = 0;
        while i < n
            invariant
                i <= n,
                n == self@.len(),
                r@.len() == i,
                forall|j: int| 0 <= j < i ==> r@[j] == self@[j].0,
            decreases n - i,
        {
            r.push(self.entries[i].0);
            i = i + 1;
        }
        proof {
            assert(r@ =~= self@.map_values(|e: (u64, V::V)| e.0));
        }
        r
    }
}

} // verus!
