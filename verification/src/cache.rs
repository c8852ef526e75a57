//! Memoizing evaluation cache: a map from exact quaternion keys to computed
//! results.
//!
//! Keys compare by exact bit-level equality of the four components.  The
//! cache grows monotonically; nothing is ever evicted.  A lookup of a known
//! key returns the stored result without invoking the computation; a lookup
//! of an unknown key invokes it once and stores what it returned.

use crate::evaluator::EvalResult;
use crate::quaternion::Quaternion;
use vstd::prelude::*;

verus! {

/// The map described by a sequence of key/value pairs, later pairs winning.
spec fn entries_map(s: Seq<(Quaternion, EvalResult)>) -> Map<Quaternion, EvalResult>
    decreases s.len(),
{
    if s.len() == 0 {
        Map::empty()
    } else {
        entries_map(s.drop_last()).insert(s.last().0, s.last().1)
    }
}

/// Every stored key is in the described map.
proof fn lemma_entries_map_covers(s: Seq<(Quaternion, EvalResult)>, n: int)
    requires
        0 <= n < s.len(),
    ensures
        entries_map(s).contains_key(s[n].0),
    decreases s.len(),
{
    if n < s.len() - 1 {
        lemma_entries_map_covers(s.drop_last(), n);
    }
}

/// A key stored nowhere is absent from the described map.
proof fn lemma_entries_map_absent(s: Seq<(Quaternion, EvalResult)>, key: Quaternion)
    requires
        forall|n: int| 0 <= n < s.len() ==> (#[trigger] s[n]).0 != key,
    ensures
        !entries_map(s).contains_key(key),
    decreases s.len(),
{
    if s.len() > 0 {
        lemma_entries_map_absent(s.drop_last(), key);
    }
}

/// When no later pair repeats the key at `n`, the described map holds
/// exactly the value stored at `n`.
proof fn lemma_entries_map_found(s: Seq<(Quaternion, EvalResult)>, n: int)
    requires
        0 <= n < s.len(),
        forall|m: int| n < m < s.len() ==> (#[trigger] s[m]).0 != s[n].0,
    ensures
        entries_map(s).contains_key(s[n].0),
        entries_map(s)[s[n].0] == s[n].1,
    decreases s.len(),
{
    if n < s.len() - 1 {
        lemma_entries_map_found(s.drop_last(), n);
    }
}

/// A monotone map from exact quaternion keys to evaluation results.
pub struct Cache {
    entries: Vec<(Quaternion, EvalResult)>,
}

impl View for Cache {
    type V = Map<Quaternion, EvalResult>;

    closed spec fn view(&self) -> Map<Quaternion, EvalResult> {
        entries_map(self.entries@)
    }
}

impl Cache {
    /// No key is stored twice.
    pub closed spec fn wf(self) -> bool {
        forall|m: int, n: int|
            0 <= m < n < self.entries@.len() ==> (#[trigger] self.entries@[m]).0 != (
            #[trigger] self.entries@[n]).0
    }

    /// An empty cache.
    pub fn new() -> (r: Cache)
        ensures
            r.wf(),
            r@ == Map::<Quaternion, EvalResult>::empty(),
    {
        Cache { entries: Vec::new() }
    }

    /// The stored result for `key`, if one exists.
    pub fn get(&self, key: Quaternion) -> (r: Option<EvalResult>)
        requires
            self.wf(),
        ensures
            match r {
                Some(v) => self@.contains_key(key) && self@[key] == v,
                None => !self@.contains_key(key),
            },
    {
        let n = self.entries.len();
        let mut idx: usize = 0;
        while idx < n
            invariant
                self.wf(),
                n == self.entries@.len(),
                idx <= n,
                forall|m: int| 0 <= m < idx ==> (#[trigger] self.entries@[m]).0 != key,
            decreases n - idx,
        {
            let (k, v) = self.entries[idx];
            if k.x == key.x && k.i == key.i && k.j == key.j && k.k == key.k {
                proof {
                    lemma_entries_map_found(self.entries@, idx as int);
                }
                return Some(v);
            }
            idx = idx + 1;
        }
        proof {
            lemma_entries_map_absent(self.entries@, key);
        }
        None
    }

    /// Returns the stored result for `key` if there is one, without invoking
    /// `compute`; otherwise invokes `compute` once on `key`, stores what it
    /// returned, and returns it.
    pub fn lookup_or_compute<F: Fn(Quaternion) -> EvalResult>(
        &mut self,
        key: Quaternion,
        compute: F,
    ) -> (r: EvalResult)
        requires
            old(self).wf(),
            call_requires(compute, (key,)),
        ensures
            final(self).wf(),
            old(self)@.contains_key(key) ==> r == old(self)@[key] && final(self)@ == old(self)@,
            !old(self)@.contains_key(key) ==> call_ensures(compute, (key,), r) && final(self)@ == old(
                self,
            )@.insert(key, r),
            final(self)@.contains_key(key) && final(self)@[key] == r,
    {
        match self.get(key) {
            Some(v) => v,
            None => {
                let v = compute(key);
                proof {
                    assert forall|n: int| 0 <= n < self.entries@.len() implies (
                    #[trigger] self.entries@[n]).0 != key by {
                        lemma_entries_map_covers(self.entries@, n);
                    }
                    assert(self.entries@.push((key, v)).drop_last() =~= self.entries@);
                }
                self.entries.push((key, v));
                proof {
                    lemma_entries_map_found(self.entries@, self.entries@.len() - 1);
                }
                v
            },
        }
    }
}

} // verus!
