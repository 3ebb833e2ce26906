//! The gradient map: gradients accumulated so far, keyed by the unique
//! identity of the tensor they belong to.
//!
//! Entries are allocated lazily: the first access under an identity installs
//! a zero-filled storage of the owning tensor's shape. Reading an entry that
//! was never touched is a caller bug, which the contracts here rule out
//! statically by demanding the key be present.

use vstd::prelude::*;

use crate::ratio::Ratio;
use crate::shapes::{counts_fit, spec_numel, strides_fit};
use crate::storage::{CpuError, StridedArray};

verus! {

/// The map described by an association list, later entries overriding
/// earlier ones (the list in fact keeps its keys distinct).
pub open spec fn entries_map(s: Seq<(u64, StridedArray<Ratio>)>) -> Map<
    u64,
    StridedArray<Ratio>,
>
    decreases s.len(),
{
    if s.len() == 0 {
        Map::empty()
    } else {
        entries_map(s.drop_last()).insert(s.last().0, s.last().1)
    }
}

/// No key occurs twice.
pub open spec fn distinct_keys(s: Seq<(u64, StridedArray<Ratio>)>) -> bool {
    forall|i: int, j: int| 0 <= i < j < s.len() ==> (#[trigger] s[i]).0 != (#[trigger] s[j]).0
}

/// A key is in the map exactly when some entry holds it.
proof fn lemma_entries_contains(s: Seq<(u64, StridedArray<Ratio>)>, k: u64)
    ensures
        entries_map(s).contains_key(k) <==> exists|i: int| 0 <= i < s.len() && (#[trigger] s[i]).0
            == k,
    decreases s.len(),
{
    if s.len() > 0 {
        lemma_entries_contains(s.drop_last(), k);
        if s.last().0 == k {
            assert(s[s.len() - 1].0 == k);
        } else {
            if entries_map(s).contains_key(k) {
                let i = choose|i: int| 0 <= i < s.len() - 1 && (#[trigger] s.drop_last()[i]).0
                    == k;
                assert(s[i].0 == k);
            }
            if exists|i: int| 0 <= i < s.len() && (#[trigger] s[i]).0 == k {
                let i = choose|i: int| 0 <= i < s.len() && (#[trigger] s[i]).0 == k;
                assert(i < s.len() - 1);
                assert(s.drop_last()[i].0 == k);
            }
        }
    }
}

/// With distinct keys, the entry holding a key gives the map's value at it.
proof fn lemma_entries_at(s: Seq<(u64, StridedArray<Ratio>)>, i: int)
    requires
        distinct_keys(s),
        0 <= i < s.len(),
    ensures
        entries_map(s).contains_key(s[i].0),
        entries_map(s)[s[i].0] == s[i].1,
    decreases s.len(),
{
    lemma_entries_contains(s, s[i].0);
    if i == s.len() - 1 {
    } else {
        assert(distinct_keys(s.drop_last()));
        assert(s.drop_last()[i] == s[i]);
        lemma_entries_at(s.drop_last(), i);
        assert(s[i].0 != s[s.len() - 1].0);
    }
}

/// Replacing the entry at `i` replaces the map's value at its key.
proof fn lemma_entries_update(
    s: Seq<(u64, StridedArray<Ratio>)>,
    i: int,
    v: StridedArray<Ratio>,
)
    requires
        distinct_keys(s),
        0 <= i < s.len(),
    ensures
        entries_map(s.update(i, (s[i].0, v))) =~= entries_map(s).insert(s[i].0, v),
        distinct_keys(s.update(i, (s[i].0, v))),
    decreases s.len(),
{
    let s2 = s.update(i, (s[i].0, v));
    assert forall|a: int, b: int| 0 <= a < b < s2.len() implies (#[trigger] s2[a]).0 != (
    #[trigger] s2[b]).0 by {
        assert(s2[a].0 == s[a].0 && s2[b].0 == s[b].0);
    }
    if i == s.len() - 1 {
        assert(s2.drop_last() =~= s.drop_last());
        assert(s2.last() == (s[i].0, v));
    } else {
        assert(distinct_keys(s.drop_last()));
        assert(s.drop_last()[i] == s[i]);
        lemma_entries_update(s.drop_last(), i, v);
        assert(s2.drop_last() =~= s.drop_last().update(i, (s[i].0, v)));
        assert(s2.last() == s.last());
        lemma_entries_at(s, i);
        assert(s[i].0 != s.last().0);
    }
}

/// Removing the entry at `i` removes its key from the map.
proof fn lemma_entries_remove(s: Seq<(u64, StridedArray<Ratio>)>, i: int)
    requires
        distinct_keys(s),
        0 <= i < s.len(),
    ensures
        entries_map(s.remove(i)) =~= entries_map(s).remove(s[i].0),
        distinct_keys(s.remove(i)),
    decreases s.len(),
{
    let s2 = s.remove(i);
    assert forall|a: int, b: int| 0 <= a < b < s2.len() implies (#[trigger] s2[a]).0 != (
    #[trigger] s2[b]).0 by {
        let oa = if a < i {
            a
        } else {
            a + 1
        };
        let ob = if b < i {
            b
        } else {
            b + 1
        };
        assert(s2[a] == s[oa] && s2[b] == s[ob]);
    }
    if i == s.len() - 1 {
        assert(s2 =~= s.drop_last());
        lemma_entries_at(s, i);
        assert forall|k: u64| true implies entries_map(s.drop_last()).contains_key(k)
            == entries_map(s).remove(s[i].0).contains_key(k) by {
            lemma_entries_contains(s.drop_last(), k);
            lemma_entries_contains(s, k);
            if k != s[i].0 {
                if exists|t: int| 0 <= t < s.len() && (#[trigger] s[t]).0 == k {
                    let t = choose|t: int| 0 <= t < s.len() && (#[trigger] s[t]).0 == k;
                    assert(t < s.len() - 1);
                    assert(s.drop_last()[t].0 == k);
                }
                if exists|t: int| 0 <= t < s.len() - 1 && (#[trigger] s.drop_last()[t]).0 == k {
                    let t = choose|t: int|
                        0 <= t < s.len() - 1 && (#[trigger] s.drop_last()[t]).0 == k;
                    assert(s[t].0 == k);
                }
            } else {
                if entries_map(s.drop_last()).contains_key(k) {
                    let t = choose|t: int|
                        0 <= t < s.len() - 1 && (#[trigger] s.drop_last()[t]).0 == k;
                    assert(s[t].0 == s[s.len() - 1].0);
                    assert(false);
                }
            }
        }
        assert forall|k: u64|
            entries_map(s.drop_last()).contains_key(k) implies entries_map(s.drop_last())[k]
            == entries_map(s).remove(s[i].0)[k] by {
            lemma_entries_contains(s.drop_last(), k);
            let t = choose|t: int| 0 <= t < s.len() - 1 && (#[trigger] s.drop_last()[t]).0 == k;
            assert(s[t] == s.drop_last()[t]);
            lemma_entries_at(s.drop_last(), t);
            lemma_entries_at(s, t);
        }
    } else {
        assert(distinct_keys(s.drop_last()));
        assert(s.drop_last()[i] == s[i]);
        lemma_entries_remove(s.drop_last(), i);
        assert(s2.drop_last() =~= s.drop_last().remove(i));
        assert(s2.last() == s.last());
        lemma_entries_at(s, i);
        assert(s[i].0 != s.last().0);
    }
}

/// Identity-keyed store of accumulated gradients.
#[derive(Debug)]
pub struct Gradients {
    entries: Vec<(u64, StridedArray<Ratio>)>,
}

impl Gradients {
    /// The map this container stands for.
    pub closed spec fn view(self) -> Map<u64, StridedArray<Ratio>> {
        entries_map(self.entries@)
    }

    /// Keys are distinct and every stored gradient is a valid storage.
    pub closed spec fn wf(self) -> bool {
        &&& distinct_keys(self.entries@)
        &&& forall|i: int|
            0 <= i < self.entries@.len() ==> (#[trigger] self.entries@[i]).1.wf()
    }

    /// Every value of the map is a valid storage.
    pub proof fn lemma_values_wf(self, k: u64)
        requires
            self.wf(),
            self.view().contains_key(k),
        ensures
            self.view()[k].wf(),
    {
        lemma_entries_contains(self.entries@, k);
        let i = choose|i: int|
            0 <= i < self.entries@.len() && (#[trigger] self.entries@[i]).0 == k;
        lemma_entries_at(self.entries@, i);
    }

    /// An empty gradient map, as backward passes start from.
    pub fn new() -> (r: Gradients)
        ensures
            r.wf(),
            r.view() == Map::<u64, StridedArray<Ratio>>::empty(),
    {
        Gradients { entries: Vec::new() }
    }

    /// The position of `id`'s entry, if any.
    fn find(&self, id: u64) -> (r: Option<usize>)
        ensures
            match r {
                Some(i) => i < self.entries@.len() && self.entries@[i as int].0 == id
                    && self.view().contains_key(id),
                None => !self.view().contains_key(id),
            },
    {
        let n = self.entries.len();
        let mut i: usize = 0;
        while i < n
            invariant
                i <= n,
                n == self.entries@.len(),
                forall|t: int| 0 <= t < i ==> (#[trigger] self.entries@[t]).0 != id,
            decreases n - i,
        {
            if self.entries[i].0 == id {
                proof {
                    lemma_entries_contains(self.entries@, id);
                }
                return Some(i);
            }
            i += 1;
        }
        proof {
            lemma_entries_contains(self.entries@, id);
        }
        None
    }

    /// Whether a gradient is recorded under `id`.
    pub fn contains(&self, id: u64) -> (r: bool)
        ensures
            r == self.view().contains_key(id),
    {
        match self.find(id) {
            Some(_) => true,
            None => false,
        }
    }

    /// Installs a zero gradient of the given shape under `id` if the map has
    /// none yet; the gradient of an untouched tensor is zero.
    pub fn try_alloc_for(&mut self, id: u64, shape: &Vec<usize>) -> (r: Result<(), CpuError>)
        requires
            old(self).wf(),
        ensures
            final(self).wf(),
            match r {
                Ok(_) => if old(self).view().contains_key(id) {
                    final(self).view() == old(self).view()
                } else {
                    &&& final(self).view() =~= old(self).view().insert(
                        id,
                        final(self).view()[id],
                    )
                    &&& final(self).view().contains_key(id)
                    &&& final(self).view()[id].sh() == shape@
                    &&& final(self).view()[id].logical() == Seq::new(
                        spec_numel(shape@) as nat,
                        |k: int| Ratio::spec_zero(),
                    )
                },
                Err(_) => final(self).view() == old(self).view() && (!counts_fit(shape@)
                    || !strides_fit(shape@) || spec_dot_weight_large(shape@)),
            },
    {
        match self.find(id) {
            Some(_) => Ok(()),
            None => {
                let zeros = match StridedArray::filled(crate::storage::clone_dims(shape), Ratio::zero()) {
                    Ok(a) => a,
                    Err(e) => {
                        return Err(e);
                    },
                };
                let ghost s = self.entries@;
                self.entries.push((id, zeros));
                proof {
                    assert(self.entries@.drop_last() =~= s);
                    assert forall|a: int, b: int|
                        0 <= a < b < self.entries@.len() implies (#[trigger] self.entries@[a]).0
                        != (#[trigger] self.entries@[b]).0 by {
                        if b < self.entries@.len() - 1 {
                            assert(s[a] == self.entries@[a] && s[b] == self.entries@[b]);
                        } else {
                            lemma_entries_contains(s, id);
                            assert(s[a] == self.entries@[a]);
                        }
                    }
                }
                Ok(())
            },
        }
    }

    /// Removes and returns the gradient stored under `id`.
    pub fn remove(&mut self, id: u64) -> (r: Option<StridedArray<Ratio>>)
        requires
            old(self).wf(),
        ensures
            final(self).wf(),
            match r {
                Some(a) => {
                    &&& old(self).view().contains_key(id)
                    &&& a == old(self).view()[id]
                    &&& final(self).view() == old(self).view().remove(id)
                },
                None => !old(self).view().contains_key(id) && final(self).view() == old(
                    self,
                ).view(),
            },
    {
        match self.find(id) {
            Some(i) => {
                proof {
                    lemma_entries_at(self.entries@, i as int);
                    lemma_entries_remove(self.entries@, i as int);
                }
                let pair = self.entries.remove(i);
                Some(pair.1)
            },
            None => None,
        }
    }

    /// A read-only view of the gradient stored under `id`. Asking for a
    /// gradient that was never touched is a bug in the backward operation,
    /// so presence is a precondition.
    pub fn get(&self, id: u64) -> (r: &StridedArray<Ratio>)
        requires
            self.wf(),
            self.view().contains_key(id),
        ensures
            *r == self.view()[id],
    {
        match self.find(id) {
            Some(i) => {
                proof {
                    lemma_entries_at(self.entries@, i as int);
                }
                &self.entries[i].1
            },
            None => {
                proof {
                    assert(false);
                }
                &self.entries[0].1
            },
        }
    }

    /// Exclusive access to the gradient stored under `id`; the map afterward
    /// holds whatever the caller leaves behind. Presence is a precondition.
    pub fn get_mut(&mut self, id: u64) -> (r: &mut StridedArray<Ratio>)
        requires
            old(self).wf(),
            old(self).view().contains_key(id),
        ensures
            *r == old(self).view()[id],
            r.wf(),
            final(self).view() =~= old(self).view().insert(id, *final(r)),
            final(r).wf() ==> final(self).wf(),
    {
        match self.find(id) {
            Some(i) => {
                proof {
                    lemma_entries_at(self.entries@, i as int);
                    lemma_entries_update(self.entries@, i as int, self.entries@[i as int].1);
                }
                let ghost s = self.entries@;
                let ghost ii = i as int;
                let entry = &mut self.entries[i];
                proof {
                    assert(s[ii].1.wf());
                }
                let r = &mut entry.1;
                proof {
                    lemma_entries_update(s, ii, *final(r));
                }
                r
            },
            None => {
                proof {
                    assert(false);
                }
                let entry = &mut self.entries[0];
                &mut entry.1
            },
        }
    }

    /// Decides the container invariant at runtime.
    pub fn check(&self) -> (r: bool)
        ensures
            r == self.wf(),
    {
        let n = self.entries.len();
        let mut i: usize = 0;
        while i < n
            invariant
                i <= n,
                n == self.entries@.len(),
                forall|a: int, b: int|
                    0 <= a < b < i ==> (#[trigger] self.entries@[a]).0 != (
                    #[trigger] self.entries@[b]).0,
                forall|a: int| 0 <= a < i ==> (#[trigger] self.entries@[a]).1.wf(),
            decreases n - i,
        {
            if !self.entries[i].1.check() {
                return false;
            }
            let mut j: usize = 0;
            while j < i
                invariant
                    j <= i < n,
                    n == self.entries@.len(),
                    forall|a: int|
                        0 <= a < j ==> (#[trigger] self.entries@[a]).0 != self.entries@[i as int].0,
                decreases i - j,
            {
                if self.entries[j].0 == self.entries[i].0 {
                    return false;
                }
                j += 1;
            }
            i += 1;
        }
        true
    }

    /// How many identities have a gradient recorded.
    pub closed spec fn size(self) -> int {
        self.entries@.len() as int
    }

    /// Takes out one entry, unspecified which, for draining the map.
    pub fn pop_entry(&mut self) -> (r: Option<(u64, StridedArray<Ratio>)>)
        requires
            old(self).wf(),
        ensures
            final(self).wf(),
            final(self).size() >= 0,
            match r {
                Some(pair) => {
                    &&& old(self).view().contains_key(pair.0)
                    &&& pair.1 == old(self).view()[pair.0]
                    &&& pair.1.wf()
                    &&& final(self).view() == old(self).view().remove(pair.0)
                    &&& final(self).size() == old(self).size() - 1
                },
                None => final(self).view() == old(self).view() && old(self).view()
                    =~= Map::<u64, StridedArray<Ratio>>::empty() && final(self).size() == old(
                    self,
                ).size(),
            },
    {
        let n = self.entries.len();
        if n == 0 {
            proof {
                assert(self.view() =~= Map::<u64, StridedArray<Ratio>>::empty());
            }
            return None;
        }
        proof {
            lemma_entries_at(self.entries@, n - 1);
            lemma_entries_remove(self.entries@, n - 1);
        }
        let pair = self.entries.remove(n - 1);
        Some(pair)
    }

    /// Exclusive access to the gradient under `id`, installing a zero
    /// gradient of the given shape first when none is recorded yet.
    pub fn get_or_alloc_mut(&mut self, id: u64, shape: &Vec<usize>) -> (r: Result<
        &mut StridedArray<Ratio>,
        CpuError,
    >)
        requires
            old(self).wf(),
        ensures
            match r {
                Ok(ptr) => {
                    &&& ptr.wf()
                    &&& (old(self).view().contains_key(id) ==> *ptr == old(self).view()[id])
                    &&& (!old(self).view().contains_key(id) ==> ptr.sh() == shape@
                        && ptr.logical() == Seq::new(
                        spec_numel(shape@) as nat,
                        |k: int| Ratio::spec_zero(),
                    ))
                    &&& final(self).view() =~= old(self).view().insert(id, *final(ptr))
                    &&& (final(ptr).wf() ==> final(self).wf())
                },
                Err(_) => final(self).wf() && final(self).view() == old(self).view() && (
                !counts_fit(shape@) || !strides_fit(shape@) || spec_dot_weight_large(shape@)),
            },
    {
        match self.try_alloc_for(id, shape) {
            Ok(_) => {},
            Err(e) => {
                return Err(e);
            },
        }
        Ok(self.get_mut(id))
    }

    /// Installs or replaces the gradient under `id`.
    pub fn insert(&mut self, id: u64, value: StridedArray<Ratio>)
        requires
            old(self).wf(),
            value.wf(),
        ensures
            final(self).wf(),
            final(self).view() =~= old(self).view().insert(id, value),
    {
        match self.find(id) {
            Some(i) => {
                proof {
                    lemma_entries_update(self.entries@, i as int, value);
                }
                self.entries[i].1 = value;
            },
            None => {
                let ghost s = self.entries@;
                self.entries.push((id, value));
                proof {
                    assert(self.entries@.drop_last() =~= s);
                    assert forall|a: int, b: int|
                        0 <= a < b < self.entries@.len() implies (#[trigger] self.entries@[a]).0
                        != (#[trigger] self.entries@[b]).0 by {
                        if b < self.entries@.len() - 1 {
                            assert(s[a] == self.entries@[a] && s[b] == self.entries@[b]);
                        } else {
                            lemma_entries_contains(s, id);
                            assert(s[a] == self.entries@[a]);
                        }
                    }
                }
            },
        }
    }
}

/// Whether the shape's weight under its own canonical strides leaves
/// `usize`; the one remaining way allocation of a gradient can fail.
pub open spec fn spec_dot_weight_large(sh: Seq<usize>) -> bool {
    crate::shapes::spec_dot(sh, crate::shapes::spec_canonical(sh)) > usize::MAX
}

} // verus!
