//! Active-row masks and per-row errors for the columnar evaluators.
//!
//! The interpreter evaluates one row at a time and is lazy: an `if` evaluates
//! only its selected branch, `and`/`or` stop at the first deciding item, and an
//! error stops the row it occurs in. The columnar evaluators compute one node
//! for many rows at once, so they carry that control flow as data:
//!
//! - a [`RowMask`] names the rows whose evaluation reaches the node; a node does
//!   work, and can fail, only for them;
//! - a [`RowErrors`] records the first error of each row, and a failing row
//!   leaves the mask for the rest of the enclosing expression.
use crate::error::{ErrorView, EvalError};
use vstd::prelude::*;

verus! {

/// How many of the first `n` bits are set.
pub open spec fn set_bits(bits: Seq<bool>, n: nat) -> nat
    decreases n,
{
    if n == 0 || n > bits.len() {
        0
    } else {
        set_bits(bits, (n - 1) as nat) + if bits[n - 1] {
            1nat
        } else {
            0nat
        }
    }
}

/// The set bits among the first `n`, ascending.
pub open spec fn set_rows(bits: Seq<bool>, n: nat) -> Seq<usize>
    decreases n,
{
    if n == 0 || n > bits.len() {
        Seq::empty()
    } else if bits[n - 1] {
        set_rows(bits, (n - 1) as nat).push((n - 1) as usize)
    } else {
        set_rows(bits, (n - 1) as nat)
    }
}

proof fn set_bits_bounds(bits: Seq<bool>, n: nat)
    requires
        n <= bits.len(),
    ensures
        set_bits(bits, n) <= n,
        set_bits(bits, n) == 0 <==> forall|i: int| 0 <= i < n ==> !#[trigger] bits[i],
        set_bits(bits, n) == n <==> forall|i: int| 0 <= i < n ==> #[trigger] bits[i],
    decreases n,
{
    if n > 0 {
        set_bits_bounds(bits, (n - 1) as nat);
        if set_bits(bits, n) == n {
            assert(bits[n - 1]);
        }
    }
}

/// The rows that a columnar node is evaluated for.
#[derive(Debug)]
pub struct RowMask {
    bits: Vec<bool>,
    count: usize,
}

impl RowMask {
    #[verifier::type_invariant]
    spec fn counted(self) -> bool {
        self.count == set_bits(self.bits@, self.bits@.len())
    }

    /// One bit per row.
    pub closed spec fn view(&self) -> Seq<bool> {
        self.bits@
    }

    /// Whether a row is active.
    pub open spec fn has(&self, row: int) -> bool {
        0 <= row < self@.len() && self@[row]
    }

    /// Whether no row is active.
    pub open spec fn vacant(&self) -> bool {
        forall|row: int| !#[trigger] self.has(row)
    }

    /// Every row.
    pub fn all(len: usize) -> (r: RowMask)
        ensures
            r@ == Seq::new(len as nat, |i: int| true),
    {
        let mut bits: Vec<bool> = Vec::new();
        let mut i: usize = 0;
        while i < len
            invariant
                i <= len,
                bits@ =~= Seq::new(i as nat, |j: int| true),
            decreases len - i,
        {
            bits.push(true);
            i = i + 1;
        }
        proof {
            set_bits_bounds(bits@, len as nat);
        }
        RowMask { bits, count: len }
    }

    /// No row.
    pub fn none(len: usize) -> (r: RowMask)
        ensures
            r@ == Seq::new(len as nat, |i: int| false),
    {
        let mut bits: Vec<bool> = Vec::new();
        let mut i: usize = 0;
        while i < len
            invariant
                i <= len,
                bits@ =~= Seq::new(i as nat, |j: int| false),
            decreases len - i,
        {
            bits.push(false);
            i = i + 1;
        }
        proof {
            set_bits_bounds(bits@, len as nat);
        }
        RowMask { bits, count: 0 }
    }

    /// The rows whose bit is set.
    pub fn from_bits(bits: Vec<bool>) -> (r: RowMask)
        ensures
            r@ == bits@,
    {
        let mut count: usize = 0;
        let mut i: usize = 0;
        while i < bits.len()
            invariant
                i <= bits@.len(),
                count <= i,
                count == set_bits(bits@, i as nat),
            decreases bits@.len() - i,
        {
            if bits[i] {
                count = count + 1;
            }
            i = i + 1;
        }
        RowMask { bits, count }
    }

    /// Number of rows, active or not.
    pub fn len(&self) -> (r: usize)
        ensures
            r == self@.len(),
    {
        self.bits.len()
    }

    /// Number of active rows.
    pub fn count(&self) -> (r: usize)
        ensures
            r == set_bits(self@, self@.len()),
    {
        proof {
            use_type_invariant(self);
        }
        self.count
    }

    pub fn is_empty(&self) -> (r: bool)
        ensures
            r == self.vacant(),
    {
        proof {
            use_type_invariant(self);
            set_bits_bounds(self.bits@, self.bits@.len());
            if self.count != 0 {
                let i = choose|i: int| 0 <= i < self.bits@.len() && #[trigger] self.bits@[i];
                assert(self.has(i));
            }
        }
        self.count == 0
    }

    pub fn is_all(&self) -> (r: bool)
        ensures
            r == (forall|row: int| 0 <= row < self@.len() ==> #[trigger] self.has(row)),
    {
        proof {
            use_type_invariant(self);
            set_bits_bounds(self.bits@, self.bits@.len());
            if self.count != self.bits@.len() {
                let i = choose|i: int| 0 <= i < self.bits@.len() && !#[trigger] self.bits@[i];
                assert(!self.has(i));
            }
        }
        self.count == self.bits.len()
    }

    pub fn contains(&self, row: usize) -> (r: bool)
        ensures
            r == self.has(row as int),
    {
        row < self.bits.len() && self.bits[row]
    }

    /// The active rows, ascending.
    pub fn rows(&self) -> (r: Vec<usize>)
        ensures
            r@ == set_rows(self@, self@.len()),
    {
        let mut rows: Vec<usize> = Vec::new();
        let mut i: usize = 0;
        while i < self.bits.len()
            invariant
                i <= self.bits@.len(),
                rows@ == set_rows(self.bits@, i as nat),
            decreases self.bits@.len() - i,
        {
            if self.bits[i] {
                rows.push(i);
            }
            i = i + 1;
        }
        rows
    }

    /// The active rows for which `keep` holds.
    pub fn filter<F: Fn(usize) -> bool>(&self, keep: F) -> (r: RowMask)
        requires
            forall|row: usize| self.has(row as int) ==> #[trigger] call_requires(keep, (row,)),
        ensures
            r@.len() == self@.len(),
            forall|row: usize|
                row < self@.len() ==> if self.has(row as int) {
                    call_ensures(keep, (row,), #[trigger] r@[row as int])
                } else {
                    !#[trigger] r@[row as int]
                },
    {
        let mut bits: Vec<bool> = Vec::new();
        let mut i: usize = 0;
        while i < self.bits.len()
            invariant
                i <= self.bits@.len(),
                bits@.len() == i,
                forall|row: usize| self.has(row as int) ==> #[trigger] call_requires(keep, (row,)),
                forall|row: usize|
                    row < i ==> if self.has(row as int) {
                        call_ensures(keep, (row,), #[trigger] bits@[row as int])
                    } else {
                        !#[trigger] bits@[row as int]
                    },
            decreases self.bits@.len() - i,
        {
            let kept = if self.bits[i] {
                keep(i)
            } else {
                false
            };
            bits.push(kept);
            i = i + 1;
        }
        RowMask::from_bits(bits)
    }

    /// The active rows whose bit in `kept` is set.
    pub(crate) fn keeping(&self, kept: &Vec<bool>) -> (r: RowMask)
        requires
            kept@.len() >= self@.len(),
        ensures
            r@.len() == self@.len(),
            forall|row: int| #[trigger] r.has(row) <==> self.has(row) && kept@[row],
    {
        let mut bits: Vec<bool> = Vec::new();
        let mut i: usize = 0;
        while i < self.bits.len()
            invariant
                i <= self.bits@.len(),
                kept@.len() >= self.bits@.len(),
                bits@.len() == i,
                forall|row: int|
                    0 <= row < i ==> (#[trigger] bits@[row] <==> self.bits@[row] && kept@[row]),
            decreases self.bits@.len() - i,
        {
            bits.push(self.bits[i] && kept[i]);
            i = i + 1;
        }
        RowMask::from_bits(bits)
    }

    pub fn duplicate(&self) -> (r: RowMask)
        ensures
            r@ == self@,
    {
        proof {
            use_type_invariant(self);
        }
        let mut bits: Vec<bool> = Vec::new();
        let mut i: usize = 0;
        while i < self.bits.len()
            invariant
                i <= self.bits@.len(),
                bits@ =~= self.bits@.take(i as int),
            decreases self.bits@.len() - i,
        {
            bits.push(self.bits[i]);
            i = i + 1;
        }
        assert(bits@ =~= self.bits@);
        RowMask { bits, count: self.count }
    }

    /// The active rows that have no recorded error.
    pub fn without(&self, errors: &RowErrors) -> (r: RowMask)
        ensures
            r@.len() == self@.len(),
            forall|row: int| #[trigger] r.has(row) <==> self.has(row) && !errors.failed(row),
    {
        let mut bits: Vec<bool> = Vec::new();
        let mut i: usize = 0;
        while i < self.bits.len()
            invariant
                i <= self.bits@.len(),
                bits@.len() == i,
                forall|row: int|
                    0 <= row < i ==> (#[trigger] bits@[row] <==> self.bits@[row] && !errors.failed(
                        row,
                    )),
            decreases self.bits@.len() - i,
        {
            let kept = self.bits[i] && !errors.contains(i);
            bits.push(kept);
            i = i + 1;
        }
        RowMask::from_bits(bits)
    }

    /// Rows active here and not in `other`.
    pub fn difference(&self, other: &RowMask) -> (r: RowMask)
        ensures
            r@.len() == self@.len(),
            forall|row: int| #[trigger] r.has(row) <==> self.has(row) && !other.has(row),
    {
        let mut bits: Vec<bool> = Vec::new();
        let mut i: usize = 0;
        while i < self.bits.len()
            invariant
                i <= self.bits@.len(),
                bits@.len() == i,
                forall|row: int|
                    0 <= row < i ==> (#[trigger] bits@[row] <==> self.bits@[row] && !other.has(
                        row,
                    )),
            decreases self.bits@.len() - i,
        {
            let kept = self.bits[i] && !other.contains(i);
            bits.push(kept);
            i = i + 1;
        }
        RowMask::from_bits(bits)
    }

    /// Rows active in either mask. Both are over the same rows.
    pub fn union(&self, other: &RowMask) -> (r: RowMask)
        requires
            self@.len() == other@.len(),
        ensures
            r@.len() == self@.len(),
            forall|row: int| #[trigger] r.has(row) <==> self.has(row) || other.has(row),
    {
        let mut bits: Vec<bool> = Vec::new();
        let mut i: usize = 0;
        while i < self.bits.len()
            invariant
                i <= self.bits@.len(),
                self.bits@.len() == other@.len(),
                bits@.len() == i,
                forall|row: int|
                    0 <= row < i ==> (#[trigger] bits@[row] <==> self.bits@[row] || other.has(row)),
            decreases self.bits@.len() - i,
        {
            let kept = self.bits[i] || other.contains(i);
            bits.push(kept);
            i = i + 1;
        }
        RowMask::from_bits(bits)
    }
}

/// A failing row and its error.
#[derive(Debug)]
pub struct RowError {
    pub row: usize,
    pub error: EvalError,
}

/// The first error of each failing row.
#[derive(Debug)]
pub struct RowErrors {
    entries: Vec<RowError>,
}

/// Whether the rows ascend strictly.
pub open spec fn rows_ascend(entries: Seq<RowError>) -> bool {
    forall|i: int, j: int|
        0 <= i < j < entries.len() ==> (#[trigger] entries[i]).row < (#[trigger] entries[j]).row
}

/// The error of a row, where it failed.
pub open spec fn error_of(entries: Seq<RowError>, row: int, n: nat) -> Option<ErrorView>
    decreases n,
{
    if n == 0 || n > entries.len() {
        None
    } else if entries[n - 1].row == row {
        Some(entries[n - 1].error@)
    } else {
        error_of(entries, row, (n - 1) as nat)
    }
}

proof fn error_of_meaning(entries: Seq<RowError>, row: int, n: nat)
    requires
        n <= entries.len(),
        rows_ascend(entries),
    ensures
        forall|i: int|
            0 <= i < n && (#[trigger] entries[i]).row == row ==> error_of(entries, row, n) == Some(
                entries[i].error@,
            ),
        (forall|i: int| 0 <= i < n ==> (#[trigger] entries[i]).row != row) ==> error_of(
            entries,
            row,
            n,
        ) is None,
    decreases n,
{
    if n > 0 {
        error_of_meaning(entries, row, (n - 1) as nat);
        assert forall|i: int|
            0 <= i < n && (#[trigger] entries[i]).row == row implies error_of(entries, row, n)
            == Some(entries[i].error@) by {
            if i < n - 1 {
                assert(entries[i].row < entries[n - 1].row);
            }
        }
    }
}

proof fn error_of_same(a: Seq<RowError>, b: Seq<RowError>, row: int, n: nat)
    requires
        n <= a.len(),
        n <= b.len(),
        forall|i: int| 0 <= i < n ==> (#[trigger] a[i]).row == b[i].row && a[i].error@
            == b[i].error@,
    ensures
        error_of(a, row, n) == error_of(b, row, n),
    decreases n,
{
    if n > 0 {
        error_of_same(a, b, row, (n - 1) as nat);
    }
}

impl RowErrors {
    #[verifier::type_invariant]
    spec fn ascending(self) -> bool {
        rows_ascend(self.entries@)
    }

    /// The error of a row, where it failed.
    pub closed spec fn at(&self, row: int) -> Option<ErrorView> {
        error_of(self.entries@, row, self.entries@.len())
    }

    /// Whether a row failed.
    pub open spec fn failed(&self, row: int) -> bool {
        self.at(row) is Some
    }

    /// The failing rows with their errors, ascending.
    pub closed spec fn listed(&self) -> Seq<RowError> {
        self.entries@
    }

    pub fn new() -> (r: RowErrors)
        ensures
            forall|row: int| #[trigger] r.at(row) is None,
    {
        RowErrors { entries: Vec::new() }
    }

    pub fn is_empty(&self) -> (r: bool)
        ensures
            r == (forall|row: int| #[trigger] self.at(row) is None),
    {
        proof {
            use_type_invariant(self);
            if self.entries@.len() > 0 {
                let row = self.entries@[0].row as int;
                error_of_meaning(self.entries@, row, self.entries@.len());
                assert(self.at(row) is Some);
            }
        }
        self.entries.len() == 0
    }

    /// The number of entries whose row is below `row`.
    fn position(&self, row: usize) -> (r: usize)
        ensures
            r <= self.entries@.len(),
            forall|i: int| 0 <= i < r ==> (#[trigger] self.entries@[i]).row < row,
            forall|i: int| r <= i < self.entries@.len() ==> (#[trigger] self.entries@[i]).row
                >= row,
    {
        proof {
            use_type_invariant(self);
        }
        let mut low: usize = 0;
        let mut high: usize = self.entries.len();
        while low < high
            invariant
                low <= high <= self.entries@.len(),
                rows_ascend(self.entries@),
                forall|i: int| 0 <= i < low ==> (#[trigger] self.entries@[i]).row < row,
                forall|i: int|
                    high <= i < self.entries@.len() ==> (#[trigger] self.entries@[i]).row >= row,
            decreases high - low,
        {
            let middle: usize = low + (high - low) / 2;
            if self.entries[middle].row < row {
                low = middle + 1;
            } else {
                high = middle;
            }
        }
        low
    }

    pub fn contains(&self, row: usize) -> (r: bool)
        ensures
            r == self.failed(row as int),
    {
        proof {
            use_type_invariant(self);
            error_of_meaning(self.entries@, row as int, self.entries@.len());
        }
        let i = self.position(row);
        i < self.entries.len() && self.entries[i].row == row
    }

    pub fn get(&self, row: usize) -> (r: Option<&EvalError>)
        ensures
            match r {
                Some(error) => self.at(row as int) == Some(error@),
                None => self.at(row as int) is None,
            },
    {
        proof {
            use_type_invariant(self);
            error_of_meaning(self.entries@, row as int, self.entries@.len());
        }
        let i = self.position(row);
        if i < self.entries.len() && self.entries[i].row == row {
            Some(&self.entries[i].error)
        } else {
            None
        }
    }

    /// Records `error` for `row` unless the row failed already: a row stops at
    /// its first error, so a later one never replaces it.
    pub fn record(&mut self, row: usize, error: EvalError)
        ensures
            forall|other: int| #[trigger]
                final(self).at(other) == if other == row && old(self).at(other) is None {
                    Some(error@)
                } else {
                    old(self).at(other)
                },
    {
        proof {
            use_type_invariant(&*self);
        }
        let i = self.position(row);
        let ghost before = self.entries@;
        if i < self.entries.len() && self.entries[i].row == row {
            proof {
                error_of_meaning(before, row as int, before.len());
            }
        } else {
            let ghost added = RowError { row, error };
            let mut entries: Vec<RowError> = Vec::new();
            std::mem::swap(&mut entries, &mut self.entries);
            entries.insert(i, RowError { row, error });
            proof {
                assert(entries@ == before.insert(i as int, added));
                assert(rows_ascend(entries@)) by {
                    assert forall|a: int, b: int| 0 <= a < b < entries@.len() implies (
                    #[trigger] entries@[a]).row < (#[trigger] entries@[b]).row by {
                        let pa = if a < i {
                            a
                        } else {
                            a - 1
                        };
                        let pb = if b < i {
                            b
                        } else {
                            b - 1
                        };
                        if a != i && b != i {
                            assert(before[pa].row < before[pb].row);
                        } else if a == i {
                            assert(before[pb].row >= row);
                            if before[pb].row == row {
                                assert(before[i as int].row >= row);
                                if pb > i {
                                    assert(before[i as int].row < before[pb].row);
                                }
                            }
                        } else {
                            assert(before[pa].row < row);
                        }
                    }
                }
                assert forall|other: int|
                    error_of(entries@, other, entries@.len()) == if other == row && error_of(
                        before,
                        other,
                        before.len(),
                    ) is None {
                        Some(error@)
                    } else {
                        error_of(before, other, before.len())
                    } by {
                    error_of_meaning(entries@, other, entries@.len());
                    error_of_meaning(before, other, before.len());
                    if exists|k: int| 0 <= k < before.len() && before[k].row == other {
                        let k = choose|k: int| 0 <= k < before.len() && before[k].row == other;
                        let m = if k < i {
                            k
                        } else {
                            k + 1
                        };
                        assert(entries@[m] == before[k]);
                    } else if other == row {
                        assert(entries@[i as int].row == row);
                    } else {
                        assert forall|k: int| 0 <= k < entries@.len() implies (
                        #[trigger] entries@[k]).row != other by {
                            if k < i {
                                assert(entries@[k] == before[k]);
                            } else if k > i {
                                assert(entries@[k] == before[k - 1]);
                            }
                        }
                    }
                }
            }
            self.entries = entries;
        }
    }

    /// Records the same error for every row of `mask` that has none.
    pub fn record_all(&mut self, mask: &RowMask, error: &EvalError)
        ensures
            forall|row: int| #[trigger]
                final(self).at(row) == if mask.has(row) && old(self).at(row) is None {
                    Some(error@)
                } else {
                    old(self).at(row)
                },
    {
        let len = mask.len();
        let mut i: usize = 0;
        while i < len
            invariant
                i <= len,
                len == mask@.len(),
                forall|row: int| #[trigger]
                    self.at(row) == if row < i && mask.has(row) && old(self).at(row) is None {
                        Some(error@)
                    } else {
                        old(self).at(row)
                    },
            decreases len - i,
        {
            if mask.contains(i) {
                self.record(i, error.duplicate());
            }
            i = i + 1;
        }
    }

    /// Merges the errors of a later stage. Rows that failed already keep their
    /// earlier error.
    pub fn absorb(&mut self, other: RowErrors)
        ensures
            forall|row: int| #[trigger]
                final(self).at(row) == match old(self).at(row) {
                    Some(error) => Some(error),
                    None => other.at(row),
                },
    {
        proof {
            use_type_invariant(&other);
        }
        let n = other.entries.len();
        let mut i: usize = 0;
        while i < n
            invariant
                i <= n,
                n == other.entries@.len(),
                rows_ascend(other.entries@),
                forall|row: int| #[trigger]
                    self.at(row) == match old(self).at(row) {
                        Some(error) => Some(error),
                        None => error_of(other.entries@, row, i as nat),
                    },
            decreases n - i,
        {
            let ghost prior = *self;
            let entry = &other.entries[i];
            self.record(entry.row, entry.error.duplicate());
            proof {
                assert forall|row: int| #[trigger]
                    self.at(row) == match old(self).at(row) {
                        Some(error) => Some(error),
                        None => error_of(other.entries@, row, (i + 1) as nat),
                    } by {
                    assert(prior.at(row) == match old(self).at(row) {
                        Some(error) => Some(error),
                        None => error_of(other.entries@, row, i as nat),
                    });
                    if row == entry.row {
                        error_of_meaning(other.entries@, row, i as nat);
                        assert forall|k: int| 0 <= k < i implies (
                        #[trigger] other.entries@[k]).row != row by {
                            assert(other.entries@[k].row < other.entries@[i as int].row);
                        }
                    }
                }
            }
            i = i + 1;
        }
    }

    /// The errors of the rows active in `mask`.
    pub fn restricted_to(&self, mask: &RowMask) -> (r: RowErrors)
        ensures
            forall|row: int| #[trigger]
                r.at(row) == if mask.has(row) {
                    self.at(row)
                } else {
                    None
                },
    {
        proof {
            use_type_invariant(self);
        }
        let mut r = RowErrors::new();
        let mut i: usize = 0;
        while i < self.entries.len()
            invariant
                i <= self.entries@.len(),
                rows_ascend(self.entries@),
                forall|row: int| #[trigger]
                    r.at(row) == if mask.has(row) {
                        error_of(self.entries@, row, i as nat)
                    } else {
                        None
                    },
            decreases self.entries@.len() - i,
        {
            let ghost prior = r;
            let entry = &self.entries[i];
            proof {
                error_of_meaning(self.entries@, entry.row as int, i as nat);
                assert forall|k: int| 0 <= k < i implies (#[trigger] self.entries@[k]).row
                    != entry.row by {
                    assert(self.entries@[k].row < self.entries@[i as int].row);
                }
            }
            if mask.contains(entry.row) {
                r.record(entry.row, entry.error.duplicate());
            }
            proof {
                assert forall|row: int| #[trigger]
                    r.at(row) == if mask.has(row) {
                        error_of(self.entries@, row, (i + 1) as nat)
                    } else {
                        None
                    } by {
                    assert(prior.at(row) == if mask.has(row) {
                        error_of(self.entries@, row, i as nat)
                    } else {
                        None
                    });
                }
            }
            i = i + 1;
        }
        r
    }

    /// Names `rule` in each `match` failure that does not name its rule yet.
    pub fn within_rule(self, rule: &str) -> (r: RowErrors)
        ensures
            forall|row: int| #[trigger]
                r.at(row) == match self.at(row) {
                    Some(error) => Some(error.within(rule@)),
                    None => None,
                },
    {
        proof {
            use_type_invariant(&self);
        }
        let mut entries: Vec<RowError> = Vec::new();
        let mut i: usize = 0;
        while i < self.entries.len()
            invariant
                i <= self.entries@.len(),
                entries@.len() == i,
                rows_ascend(self.entries@),
                forall|k: int|
                    0 <= k < i ==> (#[trigger] entries@[k]).row == self.entries@[k].row
                        && entries@[k].error@ == self.entries@[k].error@.within(rule@),
            decreases self.entries@.len() - i,
        {
            let entry = &self.entries[i];
            entries.push(
                RowError { row: entry.row, error: entry.error.duplicate().within_rule(rule) },
            );
            i = i + 1;
        }
        proof {
            assert forall|row: int| #[trigger]
                error_of(entries@, row, entries@.len()) == match self.at(row) {
                    Some(error) => Some(error.within(rule@)),
                    None => None,
                } by {
                error_of_mapped(self.entries@, entries@, rule@, row, entries@.len());
            }
        }
        RowErrors { entries }
    }

    /// The lowest failing row and its error.
    pub fn first(&self) -> (r: Option<(usize, &EvalError)>)
        ensures
            match r {
                Some((row, error)) => self.at(row as int) == Some(error@) && forall|other: int|
                    #[trigger] self.failed(other) ==> row <= other,
                None => forall|other: int| !#[trigger] self.failed(other),
            },
    {
        proof {
            use_type_invariant(self);
            assert forall|other: int| #[trigger] self.failed(other) implies self.entries@.len() > 0
                && self.entries@[0].row <= other by {
                error_of_meaning(self.entries@, other, self.entries@.len());
                if forall|k: int|
                    0 <= k < self.entries@.len() ==> (#[trigger] self.entries@[k]).row != other {
                } else {
                    let k = choose|k: int|
                        0 <= k < self.entries@.len() && (#[trigger] self.entries@[k]).row == other;
                    if k > 0 {
                        assert(self.entries@[0].row < self.entries@[k].row);
                    }
                }
            }
        }
        if self.entries.len() == 0 {
            None
        } else {
            proof {
                error_of_meaning(
                    self.entries@,
                    self.entries@[0].row as int,
                    self.entries@.len(),
                );
            }
            Some((self.entries[0].row, &self.entries[0].error))
        }
    }

    /// The failing rows with their errors, ascending.
    pub fn entries(&self) -> (r: &Vec<RowError>)
        ensures
            r@ == self.listed(),
            rows_ascend(r@),
            forall|i: int|
                0 <= i < r@.len() ==> self.at((#[trigger] r@[i]).row as int) == Some(r@[i].error@),
            forall|row: int| #[trigger]
                self.failed(row) ==> exists|i: int| 0 <= i < r@.len() && (#[trigger] r@[i]).row
                    == row,
    {
        proof {
            use_type_invariant(self);
            assert forall|i: int| 0 <= i < self.entries@.len() implies self.at(
                (#[trigger] self.entries@[i]).row as int,
            ) == Some(self.entries@[i].error@) by {
                error_of_meaning(
                    self.entries@,
                    self.entries@[i].row as int,
                    self.entries@.len(),
                );
            }
            assert forall|row: int| #[trigger] self.failed(row) implies exists|i: int|
                0 <= i < self.entries@.len() && (#[trigger] self.entries@[i]).row == row by {
                error_of_meaning(self.entries@, row, self.entries@.len());
            }
        }
        &self.entries
    }

    pub fn duplicate(&self) -> (r: RowErrors)
        ensures
            forall|row: int| #[trigger] r.at(row) == self.at(row),
    {
        proof {
            use_type_invariant(self);
        }
        let mut entries: Vec<RowError> = Vec::new();
        let mut i: usize = 0;
        while i < self.entries.len()
            invariant
                i <= self.entries@.len(),
                entries@.len() == i,
                rows_ascend(self.entries@),
                forall|k: int|
                    0 <= k < i ==> (#[trigger] entries@[k]).row == self.entries@[k].row
                        && entries@[k].error@ == self.entries@[k].error@,
            decreases self.entries@.len() - i,
        {
            let entry = &self.entries[i];
            entries.push(RowError { row: entry.row, error: entry.error.duplicate() });
            i = i + 1;
        }
        proof {
            assert forall|row: int| #[trigger]
                error_of(entries@, row, entries@.len()) == self.at(row) by {
                error_of_same(entries@, self.entries@, row, entries@.len());
            }
        }
        RowErrors { entries }
    }
}

proof fn error_of_mapped(
    a: Seq<RowError>,
    b: Seq<RowError>,
    rule: Seq<char>,
    row: int,
    n: nat,
)
    requires
        n <= a.len(),
        n <= b.len(),
        forall|k: int|
            0 <= k < n ==> (#[trigger] b[k]).row == a[k].row && b[k].error@ == a[k].error@.within(
                rule,
            ),
    ensures
        error_of(b, row, n) == match error_of(a, row, n) {
            Some(error) => Some(error.within(rule)),
            None => None,
        },
    decreases n,
{
    if n > 0 {
        error_of_mapped(a, b, rule, row, (n - 1) as nat);
    }
}

} // verus!
