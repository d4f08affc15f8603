//! The access registry: the set of public keys that were granted restricted
//! capability by this gateway and have not yet been revoked through it.
//!
//! A key's presence means "this gateway previously granted restricted
//! capability under this key and has not yet revoked it". The registry never
//! holds duplicate entries; insertion of a key already present is tolerated
//! and leaves the registry unchanged.

use vstd::prelude::*;

verus! {

/// The views of the entries of `s` are pairwise distinct.
pub open spec fn views_unique(s: Seq<Vec<u8>>) -> bool {
    forall|i: int, j: int| 0 <= i < s.len() && 0 <= j < s.len() && i != j ==> s[i]@ != s[j]@
}

/// A persistent set of public keys, each a byte string. The backing vector
/// never holds two entries with the same byte content.
pub struct AccessRegistry {
    keys: Vec<Vec<u8>>,
}

impl AccessRegistry {
    /// The backing vector holds no duplicate keys.
    pub closed spec fn wf(self) -> bool {
        views_unique(self.keys@)
    }

    /// The set of keys currently registered.
    pub closed spec fn key_set(self) -> Set<Seq<u8>> {
        Set::new(|k: Seq<u8>| exists|i: int| 0 <= i < self.keys@.len() && self.keys@[i]@ == k)
    }

    /// How many entries of the backing store hold the key `k`.
    pub closed spec fn count(self, k: Seq<u8>) -> nat {
        count_in(self.keys@, k)
    }

    /// An empty registry.
    pub fn new() -> (r: AccessRegistry)
        ensures
            r.wf(),
            r.key_set() == Set::<Seq<u8>>::empty(),
    {
        let r = AccessRegistry { keys: Vec::new() };
        proof {
            assert(r.key_set() =~= Set::<Seq<u8>>::empty());
        }
        r
    }

    /// Whether `key` is currently registered.
    pub fn contains(&self, key: &Vec<u8>) -> (r: bool)
        ensures
            r == self.key_set().contains(key@),
    {
        let n = self.keys.len();
        let mut i: usize = 0;
        while i < n
            invariant
                n == self.keys@.len(),
                0 <= i <= n,
                forall|j: int| 0 <= j < i ==> self.keys@[j]@ != key@,
            decreases n - i,
        {
            if bytes_eq(&self.keys[i], key) {
                assert(self.key_set().contains(key@));
                return true;
            }
            i += 1;
        }
        assert(!self.key_set().contains(key@));
        false
    }

    /// Record `key` in the registry. Inserting a key that is already present
    /// is accepted and leaves the registry unchanged: the registry never
    /// holds duplicate entries.
    pub fn insert(&mut self, key: Vec<u8>)
        requires
            old(self).wf(),
        ensures
            final(self).wf(),
            final(self).key_set() == old(self).key_set().insert(key@),
    {
        let ghost s_old = self.keys@;
        if self.contains(&key) {
            proof {
                assert(self.key_set() =~= old(self).key_set().insert(key@));
            }
        } else {
            self.keys.push(key);
            proof {
                let s_new = self.keys@;
                assert forall|i: int, j: int|
                    0 <= i < s_new.len() && 0 <= j < s_new.len() && i != j implies s_new[i]@
                    != s_new[j]@ by {
                    if i < s_old.len() && j < s_old.len() {
                        assert(s_old[i]@ != s_old[j]@);
                    } else if i == s_old.len() {
                        assert(!old(self).key_set().contains(key@));
                        assert(s_old[j]@ != key@);
                    } else {
                        assert(!old(self).key_set().contains(key@));
                        assert(s_old[i]@ != key@);
                    }
                }
                assert forall|k: Seq<u8>| #[trigger]
                    self.key_set().contains(k) implies old(self).key_set().insert(
                    key@,
                ).contains(k) by {
                    let i = choose|i: int| 0 <= i < s_new.len() && s_new[i]@ == k;
                    if i < s_old.len() {
                        assert(s_old[i]@ == k);
                    } else {
                        assert(k == key@);
                    }
                }
                assert forall|k: Seq<u8>| #[trigger]
                    old(self).key_set().insert(key@).contains(k) implies self.key_set().contains(
                    k,
                ) by {
                    if k == key@ {
                        assert(s_new[s_old.len() as int]@ == k);
                    } else {
                        let i = choose|i: int| 0 <= i < s_old.len() && s_old[i]@ == k;
                        assert(s_new[i]@ == k);
                    }
                }
                assert(self.key_set() =~= old(self).key_set().insert(key@));
            }
        }
    }

    /// Remove `key` from the registry. Returns whether the key was present;
    /// when it was not, the registry is unchanged.
    pub fn remove(&mut self, key: &Vec<u8>) -> (r: bool)
        requires
            old(self).wf(),
        ensures
            final(self).wf(),
            r == old(self).key_set().contains(key@),
            final(self).key_set() == old(self).key_set().remove(key@),
            !r ==> *final(self) == *old(self),
    {
        let ghost s_old = self.keys@;
        let n = self.keys.len();
        let mut i: usize = 0;
        while i < n
            invariant
                n == s_old.len(),
                0 <= i <= n,
                s_old == old(self).keys@,
                views_unique(s_old),
                *self == *old(self),
                forall|j: int| 0 <= j < i ==> s_old[j]@ != key@,
            decreases n - i,
        {
            if bytes_eq(&self.keys[i], key) {
                self.keys.remove(i);
                proof {
                    lemma_removal_of_present_key(s_old, self.keys@, key@, i as int);
                    assert(old(self).key_set().contains(key@));
                    assert(old(self).key_set() =~= view_set(s_old));
                    assert(self.key_set() =~= view_set(self.keys@));
                    assert(self.key_set() =~= old(self).key_set().remove(key@));
                }
                return true;
            }
            i += 1;
        }
        proof {
            assert(!old(self).key_set().contains(key@));
            assert(self.key_set() =~= old(self).key_set().remove(key@));
        }
        false
    }

    /// How many keys are currently registered. The registry holds no
    /// duplicates, so this is the cardinality of the key set.
    pub fn len(&self) -> (n: usize)
        requires
            self.wf(),
        ensures
            n == self.key_set().len(),
    {
        proof {
            self.lemma_len_is_key_set_len();
        }
        self.keys.len()
    }

    /// The registered keys as one plain list, one entry per key, for a host
    /// that persists the registry between operations.
    pub fn keys(&self) -> (r: &Vec<Vec<u8>>)
        requires
            self.wf(),
        ensures
            views_unique(r@),
            view_set(r@) == self.key_set(),
    {
        proof {
            assert(view_set(self.keys@) =~= self.key_set());
        }
        &self.keys
    }

    /// A registry holding the distinct keys of `keys`, for a host that
    /// rebuilds the registry from its persisted form.
    pub fn from_keys(keys: Vec<Vec<u8>>) -> (r: AccessRegistry)
        ensures
            r.wf(),
            r.key_set() == view_set(keys@),
    {
        let mut r = AccessRegistry::new();
        let n = keys.len();
        let mut i: usize = 0;
        proof {
            assert(r.key_set() =~= view_set(keys@.take(0)));
        }
        while i < n
            invariant
                n == keys@.len(),
                0 <= i <= n,
                r.wf(),
                r.key_set() == view_set(keys@.take(i as int)),
            decreases n - i,
        {
            let key = keys[i].clone();
            proof {
                assert(key@ =~= keys@[i as int]@);
            }
            r.insert(key);
            proof {
                lemma_view_set_take_step(keys@, i as int);
            }
            i += 1;
        }
        proof {
            assert(keys@.take(n as int) =~= keys@);
        }
        r
    }

    /// A key that is present is present exactly once: the registry never
    /// holds duplicate entries for one key value.
    pub proof fn lemma_member_count_once(self, k: Seq<u8>)
        requires
            self.wf(),
            self.key_set().contains(k),
        ensures
            self.count(k) == 1,
    {
        let i = choose|i: int| 0 <= i < self.keys@.len() && self.keys@[i]@ == k;
        lemma_count_of_unique_member(self.keys@, k, i);
    }

    /// A key that is absent has no entry at all in the backing store.
    pub proof fn lemma_absent_count_zero(self, k: Seq<u8>)
        requires
            !self.key_set().contains(k),
        ensures
            self.count(k) == 0,
    {
        assert(forall|i: int| 0 <= i < self.keys@.len() ==> self.keys@[i]@ != k);
        lemma_count_of_absent(self.keys@, k);
    }

    proof fn lemma_len_is_key_set_len(self)
        requires
            self.wf(),
        ensures
            self.key_set().len() == self.keys@.len(),
            self.key_set().finite(),
    {
        let s = self.keys@;
        assert(self.key_set() =~= view_set(s));
        if s.len() == 0 {
            assert(view_set(s) =~= Set::<Seq<u8>>::empty());
        } else {
            lemma_key_set_of_prefix(s, s.drop_last());
        }
    }
}

/// The set of views of the entries of `s`.
pub open spec fn view_set(s: Seq<Vec<u8>>) -> Set<Seq<u8>> {
    Set::new(|k: Seq<u8>| exists|i: int| 0 <= i < s.len() && s[i]@ == k)
}

/// With pairwise-distinct views, the view set of `s` has one element per entry.
proof fn lemma_key_set_of_prefix(s: Seq<Vec<u8>>, shorter: Seq<Vec<u8>>)
    requires
        views_unique(s),
        s.len() > 0,
        shorter == s.drop_last(),
    ensures
        view_set(s).len() == s.len(),
        view_set(s).finite(),
    decreases s.len(),
{
    assert(views_unique(shorter)) by {
        assert forall|i: int, j: int|
            0 <= i < shorter.len() && 0 <= j < shorter.len() && i != j implies shorter[i]@
            != shorter[j]@ by {
            assert(s[i]@ != s[j]@);
        }
    }
    if shorter.len() == 0 {
        assert(view_set(shorter) =~= Set::<Seq<u8>>::empty());
    } else {
        lemma_key_set_of_prefix(shorter, shorter.drop_last());
    }
    assert(!view_set(shorter).contains(s.last()@)) by {
        if view_set(shorter).contains(s.last()@) {
            let i = choose|i: int| 0 <= i < shorter.len() && shorter[i]@ == s.last()@;
            assert(s[i]@ == s[s.len() - 1]@);
        }
    }
    assert(view_set(s) =~= view_set(shorter).insert(s.last()@)) by {
        assert forall|k: Seq<u8>| #[trigger] view_set(s).contains(k) implies view_set(
            shorter,
        ).insert(s.last()@).contains(k) by {
            let i = choose|i: int| 0 <= i < s.len() && s[i]@ == k;
            if i < shorter.len() {
                assert(shorter[i]@ == k);
            }
        }
        assert forall|k: Seq<u8>| #[trigger]
            view_set(shorter).insert(s.last()@).contains(k) implies view_set(s).contains(k) by {
            if k == s.last()@ {
                assert(s[s.len() - 1]@ == k);
            } else {
                let i = choose|i: int| 0 <= i < shorter.len() && shorter[i]@ == k;
                assert(s[i]@ == k);
            }
        }
    }
}

/// Taking one more entry adds exactly its view to the view set.
proof fn lemma_view_set_take_step(s: Seq<Vec<u8>>, i: int)
    requires
        0 <= i < s.len(),
    ensures
        view_set(s.take(i + 1)) == view_set(s.take(i)).insert(s[i]@),
{
    let shorter = s.take(i);
    let longer = s.take(i + 1);
    assert forall|x: Seq<u8>| #[trigger] view_set(longer).contains(x) implies view_set(
        shorter,
    ).insert(s[i]@).contains(x) by {
        let j = choose|j: int| 0 <= j < longer.len() && longer[j]@ == x;
        if j < i {
            assert(shorter[j]@ == x);
        } else {
            assert(longer[i]@ == s[i]@);
        }
    }
    assert forall|x: Seq<u8>| #[trigger] view_set(shorter).insert(s[i]@).contains(x) implies
        view_set(longer).contains(x) by {
        if x == s[i]@ {
            assert(longer[i]@ == x);
        } else {
            let j = choose|j: int| 0 <= j < shorter.len() && shorter[j]@ == x;
            assert(longer[j]@ == x);
        }
    }
    assert(view_set(longer) =~= view_set(shorter).insert(s[i]@));
}

/// How many entries of `s` view to `k`.
spec fn count_in(s: Seq<Vec<u8>>, k: Seq<u8>) -> nat
    decreases s.len(),
{
    if s.len() == 0 {
        0
    } else {
        count_in(s.drop_last(), k) + (if s.last()@ == k {
            1nat
        } else {
            0nat
        })
    }
}

proof fn lemma_count_of_absent(s: Seq<Vec<u8>>, k: Seq<u8>)
    requires
        forall|i: int| 0 <= i < s.len() ==> s[i]@ != k,
    ensures
        count_in(s, k) == 0,
    decreases s.len(),
{
    if s.len() > 0 {
        let shorter = s.drop_last();
        assert(forall|i: int| 0 <= i < shorter.len() ==> shorter[i]@ != k);
        lemma_count_of_absent(shorter, k);
        assert(s.last()@ == s[s.len() - 1]@);
    }
}

proof fn lemma_count_of_unique_member(s: Seq<Vec<u8>>, k: Seq<u8>, w: int)
    requires
        views_unique(s),
        0 <= w < s.len(),
        s[w]@ == k,
    ensures
        count_in(s, k) == 1,
    decreases s.len(),
{
    let shorter = s.drop_last();
    assert(views_unique(shorter)) by {
        assert forall|i: int, j: int|
            0 <= i < shorter.len() && 0 <= j < shorter.len() && i != j implies shorter[i]@
            != shorter[j]@ by {
            assert(s[i]@ != s[j]@);
        }
    }
    if w == s.len() - 1 {
        assert(s.last()@ == k);
        assert(forall|i: int| 0 <= i < shorter.len() ==> shorter[i]@ != k) by {
            assert forall|i: int| 0 <= i < shorter.len() implies shorter[i]@ != k by {
                assert(s[i]@ != s[s.len() - 1]@);
            }
        }
        lemma_count_of_absent(shorter, k);
    } else {
        assert(s.last()@ != k) by {
            assert(s[s.len() - 1]@ != s[w]@);
        }
        assert(shorter[w]@ == k);
        lemma_count_of_unique_member(shorter, k, w);
    }
}

/// After removal of the sole entry viewing to `k` at index `w`, the view set
/// loses exactly `k`, and distinctness of the remaining views is kept.
proof fn lemma_removal_of_present_key(s_old: Seq<Vec<u8>>, s_new: Seq<Vec<u8>>, k: Seq<u8>, w: int)
    requires
        views_unique(s_old),
        0 <= w < s_old.len(),
        s_old[w]@ == k,
        s_new == s_old.remove(w),
    ensures
        views_unique(s_new),
        view_set(s_new) == view_set(s_old).remove(k),
{
    s_old.remove_ensures(w);
    assert forall|i: int, j: int|
        0 <= i < s_new.len() && 0 <= j < s_new.len() && i != j implies s_new[i]@ != s_new[j]@ by {
        let i_old: int = if i < w {
            i
        } else {
            i + 1
        };
        let j_old: int = if j < w {
            j
        } else {
            j + 1
        };
        assert(s_new[i] == s_old[i_old]);
        assert(s_new[j] == s_old[j_old]);
        assert(s_old[i_old]@ != s_old[j_old]@);
    }
    assert forall|x: Seq<u8>| #[trigger] view_set(s_new).contains(x) implies view_set(
        s_old,
    ).remove(k).contains(x) by {
        let i = choose|i: int| 0 <= i < s_new.len() && s_new[i]@ == x;
        let i_old: int = if i < w {
            i
        } else {
            i + 1
        };
        assert(s_new[i] == s_old[i_old]);
        assert(s_old[i_old]@ == x);
        assert(i_old != w);
        assert(s_old[i_old]@ != s_old[w]@);
    }
    assert forall|x: Seq<u8>| #[trigger] view_set(s_old).remove(k).contains(x) implies view_set(
        s_new,
    ).contains(x) by {
        let i_old = choose|i: int| 0 <= i < s_old.len() && s_old[i]@ == x;
        assert(i_old != w);
        let i: int = if i_old < w {
            i_old
        } else {
            i_old - 1
        };
        assert(s_new[i] == s_old[i_old]);
        assert(s_new[i]@ == x);
    }
    assert(view_set(s_new) =~= view_set(s_old).remove(k));
}

/// Whether two byte strings hold the same bytes.
pub fn bytes_eq(a: &Vec<u8>, b: &Vec<u8>) -> (r: bool)
    ensures
        r == (a@ == b@),
{
    let r = a == b;
    proof {
        if r {
            assert(a@ =~= b@);
        }
    }
    r
}

} // verus!
