//! In-memory override stores: episode offsets keyed by entry id, and title
//! overrides mapping a raw title to an entry id.  Both keep their keys
//! unique; the title store keeps its ids unique as well, so that reverse
//! lookup is well defined.

use vstd::prelude::*;
use vstd::string::*;

verus! {

/// After a swap-removal at `idx`, each surviving position holds the
/// original last element at `idx` and the original element elsewhere.
proof fn lemma_swap_remove_elems<T>(before: Seq<T>, after: Seq<T>, idx: int)
    requires
        0 <= idx < before.len(),
        after == before.update(idx, before.last()).drop_last(),
    ensures
        after.len() == before.len() - 1,
        forall|j: int|
            #![trigger after[j]]
            0 <= j < after.len() ==> after[j] == (if j == idx {
                before[before.len() - 1]
            } else {
                before[j]
            }),
{
    assert forall|j: int| #![trigger after[j]] 0 <= j < after.len() implies after[j] == (if j
        == idx {
        before[before.len() - 1]
    } else {
        before[j]
    }) by {
        if j == idx {
            assert(after[j] == before.update(idx, before.last())[j]);
        }
    }
}

/// Swap-removing the only pair carrying `key` removes exactly that key.
proof fn lemma_episode_removed(
    before: Seq<(i32, i32)>,
    after: Seq<(i32, i32)>,
    idx: int,
    key: i32,
)
    requires
        episode_wf(before),
        0 <= idx < before.len(),
        before[idx].0 == key,
        after == before.update(idx, before.last()).drop_last(),
    ensures
        episode_wf(after),
        !has_episode_key(after, key),
        forall|k: i32, v: i32|
            #![trigger has_episode_pair(after, k, v)]
            has_episode_pair(after, k, v) <==> (has_episode_pair(before, k, v) && k != key),
{
    lemma_swap_remove_elems(before, after, idx);
    let last = before.len() - 1;
    assert forall|i2: int, j2: int|
        0 <= i2 < j2 < after.len() implies (#[trigger] after[i2]).0 != (#[trigger] after[j2]).0 by {
        let t1: int = if i2 == idx {
            last
        } else {
            i2
        };
        let t2: int = if j2 == idx {
            last
        } else {
            j2
        };
        assert(after[i2] == before[t1]);
        assert(after[j2] == before[t2]);
    }
    assert forall|j: int| 0 <= j < after.len() implies (#[trigger] after[j]).0 != key by {
        let t: int = if j == idx {
            last
        } else {
            j
        };
        assert(after[j] == before[t]);
        if before[t].0 == key {
            assert(before[t].0 == before[idx].0);
        }
    }
    assert forall|k: i32, v: i32|
        #![trigger has_episode_pair(after, k, v)]
        has_episode_pair(after, k, v) ==> (has_episode_pair(before, k, v) && k != key) by {
        if has_episode_pair(after, k, v) {
            let j = choose|j: int|
                0 <= j < after.len() && (#[trigger] after[j]).0 == k && after[j].1 == v;
            let t: int = if j == idx {
                last
            } else {
                j
            };
            assert((before[t]).0 == k && before[t].1 == v);
        }
    }
    assert forall|k: i32, v: i32|
        #![trigger has_episode_pair(after, k, v)]
        (has_episode_pair(before, k, v) && k != key) ==> has_episode_pair(after, k, v) by {
        if has_episode_pair(before, k, v) && k != key {
            let t = choose|t: int|
                0 <= t < before.len() && (#[trigger] before[t]).0 == k && before[t].1 == v;
            assert(t != idx);
            let j: int = if t == last {
                idx
            } else {
                t
            };
            assert((after[j]).0 == k && after[j].1 == v);
        }
    }
}

/// Whether the pairs hold `value` under `key`.
pub open spec fn has_episode_pair(s: Seq<(i32, i32)>, key: i32, value: i32) -> bool {
    exists|i: int| 0 <= i < s.len() && (#[trigger] s[i]).0 == key && s[i].1 == value
}

/// Whether any pair carries `key`.
pub open spec fn has_episode_key(s: Seq<(i32, i32)>, key: i32) -> bool {
    exists|i: int| 0 <= i < s.len() && (#[trigger] s[i]).0 == key
}

/// Keys are unique.
pub open spec fn episode_wf(s: Seq<(i32, i32)>) -> bool {
    forall|i: int, j: int| 0 <= i < j < s.len() ==> (#[trigger] s[i]).0 != (#[trigger] s[j]).0
}

/// Episode-offset overrides between entry ids and offsets.
#[derive(Debug)]
pub struct EpisodeOverrides {
    pub inner: Vec<(i32, i32)>,
}

impl EpisodeOverrides {
    pub open spec fn wf(&self) -> bool {
        episode_wf(self.inner@)
    }

    pub fn new() -> (r: Self)
        ensures
            r.wf(),
            r.inner@.len() == 0,
    {
        Self { inner: Vec::new() }
    }

    pub fn get(self: &Self, key: &i32) -> (r: Option<i32>)
        ensures
            match r {
                Option::Some(v) => has_episode_pair(self.inner@, *key, v),
                Option::None => !has_episode_key(self.inner@, *key),
            },
    {
        let n = self.inner.len();
        let mut i: usize = 0;
        while i < n
            invariant
                n == self.inner@.len(),
                i <= n,
                forall|k: int| 0 <= k < i ==> (#[trigger] self.inner@[k]).0 != *key,
            decreases n - i,
        {
            if self.inner[i].0 == *key {
                return Option::Some(self.inner[i].1);
            }
            i += 1;
        }
        Option::None
    }

    /// Inserts the offset for the id, replacing any existing entry.
    #[verifier::rlimit(100)]
    pub fn set(self: &mut Self, key: i32, value: i32)
        requires
            old(self).wf(),
        ensures
            final(self).wf(),
            forall|k: i32, v: i32|
                #![trigger has_episode_pair(final(self).inner@, k, v)]
                has_episode_pair(final(self).inner@, k, v) <==> ((k == key && v == value) || (
                has_episode_pair(old(self).inner@, k, v) && k != key)),
    {
        self.remove(&key);
        let ghost mid = self.inner@;
        self.inner.push((key, value));
        proof {
            assert forall|k: i32, v: i32|
                #![trigger has_episode_pair(self.inner@, k, v)]
                has_episode_pair(self.inner@, k, v) ==> ((k == key && v == value) || (
            has_episode_pair(old(self).inner@, k, v) && k != key)) by {
                if has_episode_pair(self.inner@, k, v) {
                    let j = choose|j: int|
                        0 <= j < self.inner@.len() && (#[trigger] self.inner@[j]).0 == k
                            && self.inner@[j].1 == v;
                    if j < mid.len() {
                        assert((mid[j]).0 == k && mid[j].1 == v);
                        assert(has_episode_pair(mid, k, v));
                    } else {
                        assert(self.inner@[j] == (key, value));
                    }
                }
            }
            assert forall|k: i32, v: i32|
                #![trigger has_episode_pair(self.inner@, k, v)]
                ((k == key && v == value) || (has_episode_pair(old(self).inner@, k, v) && k
                != key)) ==> has_episode_pair(self.inner@, k, v) by {
                if k == key && v == value {
                    assert((self.inner@[self.inner@.len() - 1]).0 == k && self.inner@[self.inner@.len() - 1].1 == v);
                }
                if has_episode_pair(old(self).inner@, k, v) && k != key {
                    assert(has_episode_pair(mid, k, v));
                    let j = choose|j: int|
                        0 <= j < mid.len() && (#[trigger] mid[j]).0 == k && mid[j].1 == v;
                    assert((self.inner@[j]).0 == k && self.inner@[j].1 == v);
                }
            }
            assert forall|i: int, j: int|
                0 <= i < j < self.inner@.len() implies (#[trigger] self.inner@[i]).0 != (
            #[trigger] self.inner@[j]).0 by {
                if j == self.inner@.len() - 1 {
                    assert(self.inner@[i] == mid[i]);
                    assert(!has_episode_key(mid, key));
                    assert(mid[i].0 != key);
                } else {
                    assert(self.inner@[i] == mid[i]);
                    assert(self.inner@[j] == mid[j]);
                }
            }
        }
    }

    /// Removes the override for the id, if any.
    pub fn remove(self: &mut Self, key: &i32)
        requires
            old(self).wf(),
        ensures
            final(self).wf(),
            !has_episode_key(final(self).inner@, *key),
            forall|k: i32, v: i32|
                #![trigger has_episode_pair(final(self).inner@, k, v)]
                has_episode_pair(final(self).inner@, k, v) <==> (has_episode_pair(
                    old(self).inner@,
                    k,
                    v,
                ) && k != *key),
    {
        let n = self.inner.len();
        let mut i: usize = 0;
        let mut found: usize = n;
        while i < n
            invariant
                n == self.inner@.len(),
                i <= n,
                found <= n,
                found == n ==> forall|k: int| 0 <= k < i ==> (#[trigger] self.inner@[k]).0
                    != *key,
                found < n ==> self.inner@[found as int].0 == *key,
            decreases n - i,
        {
            if found == n && self.inner[i].0 == *key {
                found = i;
            }
            i += 1;
        }
        if found < n {
            let ghost before = self.inner@;
            self.inner.swap_remove(found);
            proof {
                lemma_episode_removed(before, self.inner@, found as int, *key);
            }
        } else {
            proof {
                assert forall|k: i32, v: i32|
                    #![trigger has_episode_pair(self.inner@, k, v)]
                    has_episode_pair(self.inner@, k, v) <==> (has_episode_pair(self.inner@, k, v)
                    && k != *key) by {
                    if has_episode_pair(self.inner@, k, v) && k == *key {
                        let j = choose|j: int|
                            0 <= j < self.inner@.len() && (#[trigger] self.inner@[j]).0 == k
                                && self.inner@[j].1 == v;
                        assert((self.inner@[j]).0 == *key);
                    }
                }
            }
        }
    }
}

/// Whether the pairs map a title with characters `key` to `value`.
pub open spec fn has_title_pair(s: Seq<(String, i32)>, key: Seq<char>, value: i32) -> bool {
    exists|i: int| 0 <= i < s.len() && (#[trigger] s[i]).0@ == key && s[i].1 == value
}

/// Whether any pair carries a title with characters `key`.
pub open spec fn has_title_key(s: Seq<(String, i32)>, key: Seq<char>) -> bool {
    exists|i: int| 0 <= i < s.len() && (#[trigger] s[i]).0@ == key
}

/// Whether any pair carries the id `value`.
pub open spec fn has_title_value(s: Seq<(String, i32)>, value: i32) -> bool {
    exists|i: int| 0 <= i < s.len() && (#[trigger] s[i]).1 == value
}

/// Titles and ids are both unique, so lookup in either direction is
/// well defined.
pub open spec fn title_wf(s: Seq<(String, i32)>) -> bool {
    &&& forall|i: int, j: int|
        0 <= i < j < s.len() ==> (#[trigger] s[i]).0@ != (#[trigger] s[j]).0@
    &&& forall|i: int, j: int| 0 <= i < j < s.len() ==> (#[trigger] s[i]).1 != (#[trigger] s[j]).1
}

/// Swap-removing the only pair carrying id `value` removes exactly it.
proof fn lemma_title_removed_value(
    before: Seq<(String, i32)>,
    after: Seq<(String, i32)>,
    idx: int,
    value: i32,
)
    requires
        title_wf(before),
        0 <= idx < before.len(),
        before[idx].1 == value,
        after == before.update(idx, before.last()).drop_last(),
    ensures
        title_wf(after),
        !has_title_value(after, value),
        forall|k: Seq<char>, v: i32|
            #![trigger has_title_pair(after, k, v)]
            has_title_pair(after, k, v) <==> (has_title_pair(before, k, v) && v != value),
{
    lemma_swap_remove_elems(before, after, idx);
    let last = before.len() - 1;
    assert forall|i2: int, j2: int|
        0 <= i2 < j2 < after.len() implies ((#[trigger] after[i2]).0@ != (#[trigger] after[j2]).0@
        && after[i2].1 != after[j2].1) by {
        let t1: int = if i2 == idx {
            last
        } else {
            i2
        };
        let t2: int = if j2 == idx {
            last
        } else {
            j2
        };
        assert(after[i2] == before[t1]);
        assert(after[j2] == before[t2]);
    }
    assert forall|j: int| 0 <= j < after.len() implies (#[trigger] after[j]).1 != value by {
        let t: int = if j == idx {
            last
        } else {
            j
        };
        assert(after[j] == before[t]);
        if before[t].1 == value {
            assert(before[t].1 == before[idx].1);
        }
    }
    assert forall|k: Seq<char>, v: i32|
        #![trigger has_title_pair(after, k, v)]
        has_title_pair(after, k, v) ==> (has_title_pair(before, k, v) && v != value) by {
        if has_title_pair(after, k, v) {
            let j = choose|j: int|
                0 <= j < after.len() && (#[trigger] after[j]).0@ == k && after[j].1 == v;
            let t: int = if j == idx {
                last
            } else {
                j
            };
            assert(after[j] == before[t]);
            assert(before[t].0@ == k && before[t].1 == v);
        }
    }
    assert forall|k: Seq<char>, v: i32|
        #![trigger has_title_pair(after, k, v)]
        (has_title_pair(before, k, v) && v != value) ==> has_title_pair(after, k, v) by {
        if has_title_pair(before, k, v) && v != value {
            let t = choose|t: int|
                0 <= t < before.len() && (#[trigger] before[t]).0@ == k && before[t].1 == v;
            assert(t != idx);
            let j: int = if t == last {
                idx
            } else {
                t
            };
            assert(after[j] == before[t]);
            assert(after[j].0@ == k && after[j].1 == v);
        }
    }
}


/// Swap-removing the only pair carrying title `key` removes exactly it.
proof fn lemma_title_removed_key(
    before: Seq<(String, i32)>,
    after: Seq<(String, i32)>,
    idx: int,
    key: Seq<char>,
)
    requires
        title_wf(before),
        0 <= idx < before.len(),
        before[idx].0@ == key,
        after == before.update(idx, before.last()).drop_last(),
    ensures
        title_wf(after),
        !has_title_key(after, key),
        forall|k: Seq<char>, v: i32|
            #![trigger has_title_pair(after, k, v)]
            has_title_pair(after, k, v) <==> (has_title_pair(before, k, v) && k != key),
{
    lemma_swap_remove_elems(before, after, idx);
    let last = before.len() - 1;
    assert forall|i2: int, j2: int|
        0 <= i2 < j2 < after.len() implies ((#[trigger] after[i2]).0@ != (#[trigger] after[j2]).0@
        && after[i2].1 != after[j2].1) by {
        let t1: int = if i2 == idx {
            last
        } else {
            i2
        };
        let t2: int = if j2 == idx {
            last
        } else {
            j2
        };
        assert(after[i2] == before[t1]);
        assert(after[j2] == before[t2]);
    }
    assert forall|j: int| 0 <= j < after.len() implies (#[trigger] after[j]).0@ != key by {
        let t: int = if j == idx {
            last
        } else {
            j
        };
        assert(after[j] == before[t]);
        if before[t].0@ == key {
            assert(before[t].0@ == before[idx].0@);
        }
    }
    assert forall|k: Seq<char>, v: i32|
        #![trigger has_title_pair(after, k, v)]
        has_title_pair(after, k, v) ==> (has_title_pair(before, k, v) && k != key) by {
        if has_title_pair(after, k, v) {
            let j = choose|j: int|
                0 <= j < after.len() && (#[trigger] after[j]).0@ == k && after[j].1 == v;
            let t: int = if j == idx {
                last
            } else {
                j
            };
            assert(after[j] == before[t]);
            assert(before[t].0@ == k && before[t].1 == v);
        }
    }
    assert forall|k: Seq<char>, v: i32|
        #![trigger has_title_pair(after, k, v)]
        (has_title_pair(before, k, v) && k != key) ==> has_title_pair(after, k, v) by {
        if has_title_pair(before, k, v) && k != key {
            let t = choose|t: int|
                0 <= t < before.len() && (#[trigger] before[t]).0@ == k && before[t].1 == v;
            assert(t != idx);
            let j: int = if t == last {
                idx
            } else {
                t
            };
            assert(after[j] == before[t]);
            assert(after[j].0@ == k && after[j].1 == v);
        }
    }
}


/// Title overrides between raw titles and entry ids.
#[derive(Debug)]
pub struct TitleOverrides {
    pub inner: Vec<(String, i32)>,
}

impl TitleOverrides {
    pub open spec fn wf(&self) -> bool {
        title_wf(self.inner@)
    }

    pub fn new() -> (r: Self)
        ensures
            r.wf(),
            r.inner@.len() == 0,
    {
        Self { inner: Vec::new() }
    }

    /// Looks the entry id up by the raw title.
    pub fn get(self: &Self, key: &String) -> (r: Option<i32>)
        ensures
            match r {
                Option::Some(v) => has_title_pair(self.inner@, key@, v),
                Option::None => !has_title_key(self.inner@, key@),
            },
    {
        let n = self.inner.len();
        let mut i: usize = 0;
        while i < n
            invariant
                n == self.inner@.len(),
                i <= n,
                forall|k: int| 0 <= k < i ==> (#[trigger] self.inner@[k]).0@ != key@,
            decreases n - i,
        {
            if self.inner[i].0.eq(key) {
                return Option::Some(self.inner[i].1);
            }
            i += 1;
        }
        Option::None
    }

    /// Looks the raw title up by the entry id.
    pub fn get_key(self: &Self, value: &i32) -> (r: Option<String>)
        ensures
            match r {
                Option::Some(s) => has_title_pair(self.inner@, s@, *value),
                Option::None => !has_title_value(self.inner@, *value),
            },
    {
        let n = self.inner.len();
        let mut i: usize = 0;
        while i < n
            invariant
                n == self.inner@.len(),
                i <= n,
                forall|k: int| 0 <= k < i ==> (#[trigger] self.inner@[k]).1 != *value,
            decreases n - i,
        {
            if self.inner[i].1 == *value {
                let found = self.inner[i].0.clone();
                return Option::Some(found);
            }
            i += 1;
        }
        Option::None
    }

    /// Sets a title override for an id, replacing any existing override
    /// with the same title or the same id.
    #[verifier::rlimit(100)]
    pub fn set(self: &mut Self, key: String, value: i32)
        requires
            old(self).wf(),
        ensures
            final(self).wf(),
            forall|k: Seq<char>, v: i32|
                #![trigger has_title_pair(final(self).inner@, k, v)]
                has_title_pair(final(self).inner@, k, v) <==> ((k == key@ && v == value) || (
                has_title_pair(old(self).inner@, k, v) && k != key@ && v != value)),
    {
        self.remove_value(&value);
        let ghost s1 = self.inner@;
        self.remove_key(&key);
        let ghost s2 = self.inner@;
        proof {
            if has_title_value(s2, value) {
                let j = choose|j: int| 0 <= j < s2.len() && (#[trigger] s2[j]).1 == value;
                assert(has_title_pair(s2, s2[j].0@, value));
                assert(has_title_pair(s1, s2[j].0@, value));
            }
        }
        self.inner.push((key, value));
        proof {
            let pushed = self.inner@;
            assert forall|k: Seq<char>, v: i32|
                #![trigger has_title_pair(pushed, k, v)]
                has_title_pair(pushed, k, v) ==> ((k == key@ && v == value) || (has_title_pair(
                old(self).inner@,
                k,
                v,
            ) && k != key@ && v != value)) by {
                if has_title_pair(pushed, k, v) {
                    let j = choose|j: int|
                        0 <= j < pushed.len() && (#[trigger] pushed[j]).0@ == k && pushed[j].1
                            == v;
                    if j < s2.len() {
                        assert(s2[j].0@ == k && s2[j].1 == v);
                        assert(has_title_pair(s2, k, v));
                    } else {
                        assert(pushed[j] == (key, value));
                    }
                }
            }
            assert forall|k: Seq<char>, v: i32|
                #![trigger has_title_pair(pushed, k, v)]
                ((k == key@ && v == value) || (has_title_pair(old(self).inner@, k, v) && k != key@
                    && v != value)) ==> has_title_pair(pushed, k, v) by {
                if k == key@ && v == value {
                    assert((pushed[pushed.len() - 1]).0@ == k && pushed[pushed.len() - 1].1 == v);
                }
                if has_title_pair(old(self).inner@, k, v) && k != key@ && v != value {
                    assert(has_title_pair(s1, k, v));
                    assert(has_title_pair(s2, k, v));
                    let j = choose|j: int|
                        0 <= j < s2.len() && (#[trigger] s2[j]).0@ == k && s2[j].1 == v;
                    assert((pushed[j]).0@ == k && pushed[j].1 == v);
                }
            }
            assert forall|i2: int, j2: int|
                0 <= i2 < j2 < self.inner@.len() implies ((#[trigger] self.inner@[i2]).0@ != (
            #[trigger] self.inner@[j2]).0@ && self.inner@[i2].1 != self.inner@[j2].1) by {
                if j2 == self.inner@.len() - 1 {
                    assert(self.inner@[i2] == s2[i2]);
                    assert(!has_title_key(s2, key@));
                    assert(!has_title_value(s2, value));
                    assert(s2[i2].0@ != key@);
                    assert(s2[i2].1 != value);
                } else {
                    assert(self.inner@[i2] == s2[i2]);
                    assert(self.inner@[j2] == s2[j2]);
                }
            }
        }
    }

    /// Removes the override carrying the id, if any.
    pub fn remove_value(self: &mut Self, value: &i32)
        requires
            old(self).wf(),
        ensures
            final(self).wf(),
            !has_title_value(final(self).inner@, *value),
            forall|k: Seq<char>, v: i32|
                #![trigger has_title_pair(final(self).inner@, k, v)]
                has_title_pair(final(self).inner@, k, v) <==> (has_title_pair(
                    old(self).inner@,
                    k,
                    v,
                ) && v != *value),
    {
        let n = self.inner.len();
        let mut i: usize = 0;
        let mut found: usize = n;
        while i < n
            invariant
                n == self.inner@.len(),
                i <= n,
                found <= n,
                found == n ==> forall|k: int| 0 <= k < i ==> (#[trigger] self.inner@[k]).1
                    != *value,
                found < n ==> self.inner@[found as int].1 == *value,
            decreases n - i,
        {
            if found == n && self.inner[i].1 == *value {
                found = i;
            }
            i += 1;
        }
        if found < n {
            let ghost before = self.inner@;
            self.inner.swap_remove(found);
            proof {
                lemma_title_removed_value(before, self.inner@, found as int, *value);
            }
        } else {
            proof {
                assert forall|k: Seq<char>, v: i32|
                    #![trigger has_title_pair(self.inner@, k, v)]
                    has_title_pair(self.inner@, k, v) <==> (has_title_pair(self.inner@, k, v) && v
                    != *value) by {
                    if has_title_pair(self.inner@, k, v) && v == *value {
                        let j = choose|j: int|
                            0 <= j < self.inner@.len() && (#[trigger] self.inner@[j]).0@ == k
                                && self.inner@[j].1 == v;
                        assert((self.inner@[j]).1 == *value);
                    }
                }
            }
        }
    }

    /// Removes the override carrying the title, if any.
    fn remove_key(self: &mut Self, key: &String)
        requires
            old(self).wf(),
        ensures
            final(self).wf(),
            !has_title_key(final(self).inner@, key@),
            forall|k: Seq<char>, v: i32|
                #![trigger has_title_pair(final(self).inner@, k, v)]
                has_title_pair(final(self).inner@, k, v) <==> (has_title_pair(
                    old(self).inner@,
                    k,
                    v,
                ) && k != key@),
    {
        let n = self.inner.len();
        let mut i: usize = 0;
        let mut found: usize = n;
        while i < n
            invariant
                n == self.inner@.len(),
                i <= n,
                found <= n,
                found == n ==> forall|k: int| 0 <= k < i ==> (#[trigger] self.inner@[k]).0@
                    != key@,
                found < n ==> self.inner@[found as int].0@ == key@,
            decreases n - i,
        {
            if found == n && self.inner[i].0.eq(key) {
                found = i;
            }
            i += 1;
        }
        if found < n {
            let ghost before = self.inner@;
            self.inner.swap_remove(found);
            proof {
                lemma_title_removed_key(before, self.inner@, found as int, key@);
            }
        } else {
            proof {
                assert forall|k: Seq<char>, v: i32|
                    #![trigger has_title_pair(self.inner@, k, v)]
                    has_title_pair(self.inner@, k, v) <==> (has_title_pair(self.inner@, k, v) && k
                    != key@) by {
                    if has_title_pair(self.inner@, k, v) && k == key@ {
                        let j = choose|j: int|
                            0 <= j < self.inner@.len() && (#[trigger] self.inner@[j]).0@ == k
                                && self.inner@[j].1 == v;
                        assert((self.inner@[j]).0@ == key@);
                    }
                }
            }
        }
    }
}

} // verus!
