//! Kernel provider: serves entries of a (possibly index-permuted) Gram
//! matrix together with a cached diagonal, so the solver can reorder or
//! double the sample space without recomputing similarity scores.
use vstd::prelude::*;

use crate::fixed::{KERNEL_LIMIT, MAX_SAMPLES, mag};

verus! {

/// An owned Gram matrix plus an index permutation.
///
/// `map` sends a dual-variable index to a row/column of `entries`; the
/// regression formulations use it to fold the doubled dual index space back
/// onto the original samples.  `diag` caches `entries[map[i]][map[i]]`.
pub struct GramKernel {
    entries: Vec<Vec<i128>>,
    map: Vec<usize>,
    diag: Vec<i128>,
}

impl GramKernel {
    /// Number of dual variables served.
    pub closed spec fn size(&self) -> nat {
        self.map@.len()
    }

    /// Number of underlying samples.
    pub closed spec fn base(&self) -> nat {
        self.entries@.len()
    }

    /// Raw similarity score between dual indices `i` and `j`.
    pub closed spec fn entry_at(&self, i: int, j: int) -> int {
        self.entries@[self.map@[i] as int]@[self.map@[j] as int] as int
    }

    /// Sample index that dual index `i` is mapped to.
    pub closed spec fn map_at(&self, i: int) -> int {
        self.map@[i] as int
    }

    pub closed spec fn wf(&self) -> bool {
        let b = self.base();
        &&& forall|i: int| 0 <= i < b ==> #[trigger] self.entries@[i]@.len() == b
        &&& forall|i: int, j: int|
            0 <= i < b && 0 <= j < b ==> mag(#[trigger] self.entries@[i]@[j] as int)
                <= KERNEL_LIMIT
        &&& forall|i: int| 0 <= i < self.size() ==> 0 <= #[trigger] self.map@[i] < b
        &&& self.diag@.len() == self.size()
        &&& forall|i: int|
            0 <= i < self.size() ==> #[trigger] self.diag@[i] as int == self.entry_at(i, i)
        &&& self.size() <= MAX_SAMPLES
    }

    /// Wrap a square matrix with the identity permutation.
    pub fn new(entries: Vec<Vec<i128>>) -> (r: GramKernel)
        requires
            entries@.len() <= MAX_SAMPLES,
            forall|i: int|
                0 <= i < entries@.len() ==> #[trigger] entries@[i]@.len() == entries@.len(),
            forall|i: int, j: int|
                0 <= i < entries@.len() && 0 <= j < entries@.len() ==> mag(
                    #[trigger] entries@[i]@[j] as int,
                ) <= KERNEL_LIMIT,
        ensures
            r.wf(),
            r.size() == entries@.len(),
            r.base() == entries@.len(),
            forall|i: int| 0 <= i < r.size() ==> r.map_at(i) == i,
            forall|i: int, j: int|
                0 <= i < r.size() && 0 <= j < r.size() ==> #[trigger] r.entry_at(i, j)
                    == entries@[r.map_at(i)]@[r.map_at(j)] as int,
    {
        let n = entries.len();
        let mut map: Vec<usize> = Vec::new();
        let mut diag: Vec<i128> = Vec::new();
        let mut i: usize = 0;
        while i < n
            invariant
                i <= n,
                n == entries@.len(),
                forall|k: int|
                    0 <= k < entries@.len() ==> #[trigger] entries@[k]@.len() == entries@.len(),
                map@.len() == i,
                diag@.len() == i,
                forall|k: int| 0 <= k < i ==> #[trigger] map@[k] == k,
                forall|k: int| 0 <= k < i ==> #[trigger] diag@[k] == entries@[k]@[k],
            decreases n - i,
        {
            map.push(i);
            diag.push(entries[i][i]);
            i = i + 1;
        }
        GramKernel { entries, map, diag }
    }

    /// Wrap a square matrix with the doubled permutation used by the
    /// regression formulations: dual indices `i` and `i + n` both map to
    /// sample `i`.
    pub fn doubled(entries: Vec<Vec<i128>>) -> (r: GramKernel)
        requires
            2 * entries@.len() <= MAX_SAMPLES,
            forall|i: int|
                0 <= i < entries@.len() ==> #[trigger] entries@[i]@.len() == entries@.len(),
            forall|i: int, j: int|
                0 <= i < entries@.len() && 0 <= j < entries@.len() ==> mag(
                    #[trigger] entries@[i]@[j] as int,
                ) <= KERNEL_LIMIT,
        ensures
            r.wf(),
            r.size() == 2 * entries@.len(),
            r.base() == entries@.len(),
            forall|i: int| 0 <= i < entries@.len() ==> r.map_at(i) == i,
            forall|i: int|
                entries@.len() <= i < 2 * entries@.len() ==> r.map_at(i) == i - entries@.len(),
            forall|i: int, j: int|
                0 <= i < r.size() && 0 <= j < r.size() ==> #[trigger] r.entry_at(i, j)
                    == entries@[r.map_at(i)]@[r.map_at(j)] as int,
    {
        let n = entries.len();
        let mut map: Vec<usize> = Vec::new();
        let mut diag: Vec<i128> = Vec::new();
        let mut i: usize = 0;
        while i < n
            invariant
                i <= n,
                n == entries@.len(),
                2 * n <= MAX_SAMPLES,
                forall|k: int|
                    0 <= k < entries@.len() ==> #[trigger] entries@[k]@.len() == entries@.len(),
                map@.len() == i,
                diag@.len() == i,
                forall|k: int| 0 <= k < i ==> #[trigger] map@[k] == k,
                forall|k: int| 0 <= k < i ==> #[trigger] diag@[k] == entries@[k]@[k],
            decreases n - i,
        {
            map.push(i);
            diag.push(entries[i][i]);
            i = i + 1;
        }
        let mut i: usize = 0;
        while i < n
            invariant
                i <= n,
                n == entries@.len(),
                2 * n <= MAX_SAMPLES,
                forall|k: int|
                    0 <= k < entries@.len() ==> #[trigger] entries@[k]@.len() == entries@.len(),
                map@.len() == n + i,
                diag@.len() == n + i,
                forall|k: int| 0 <= k < n ==> #[trigger] map@[k] == k,
                forall|k: int| n <= k < n + i ==> #[trigger] map@[k] == k - n,
                forall|k: int| 0 <= k < n + i ==> 0 <= #[trigger] map@[k] < n,
                forall|k: int|
                    0 <= k < n + i ==> #[trigger] diag@[k]
                        == entries@[map@[k] as int]@[map@[k] as int],
            decreases n - i,
        {
            map.push(i);
            diag.push(entries[i][i]);
            i = i + 1;
        }
        GramKernel { entries, map, diag }
    }

    /// A well-formed provider serves at most `MAX_SAMPLES` dual variables.
    pub proof fn lemma_size_bounded(&self)
        requires
            self.wf(),
        ensures
            self.size() <= MAX_SAMPLES,
    {
    }

    /// A well-formed provider serves only entries within `KERNEL_LIMIT`.
    pub proof fn lemma_entry_bounded(&self, i: int, j: int)
        requires
            self.wf(),
            0 <= i < self.size(),
            0 <= j < self.size(),
        ensures
            mag(self.entry_at(i, j)) <= KERNEL_LIMIT,
    {
    }

    /// Number of dual variables served.
    pub fn len(&self) -> (r: usize)
        ensures
            r == self.size(),
    {
        self.map.len()
    }

    /// Similarity score between dual indices `i` and `j`.
    pub fn eval(&self, i: usize, j: usize) -> (r: i128)
        requires
            self.wf(),
            i < self.size(),
            j < self.size(),
        ensures
            r as int == self.entry_at(i as int, j as int),
            mag(r as int) <= KERNEL_LIMIT,
    {
        self.entries[self.map[i]][self.map[j]]
    }

    /// Cached diagonal entry for dual index `i`.
    pub fn diag_entry(&self, i: usize) -> (r: i128)
        requires
            self.wf(),
            i < self.size(),
        ensures
            r as int == self.entry_at(i as int, i as int),
            mag(r as int) <= KERNEL_LIMIT,
    {
        self.diag[i]
    }
}

} // verus!
