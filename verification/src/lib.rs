//! A prime sieve over a bounded range, after Eratosthenes. A `Sieve` is
//! built for a fixed inclusive limit, populated once by striking out every
//! proper multiple of each number up to the square root of the limit, and
//! then answers primality queries for any value up to the limit.

mod primality;

use crate::primality::{
    has_proper_factor_below, is_prime, lemma_equal_multiples_in_window, lemma_factor_bound_extend,
    lemma_multiple_of_composite, lemma_no_factor_below_sqrt_is_prime, lemma_square_vs_quotient,
};
use vstd::prelude::*;

verus! {

/// Why a query on a sieve could not be answered.
#[derive(Debug, Clone, Copy, PartialEq, Eq, Structural)]
pub enum SieveError {
    /// The sieve has not been populated yet; its table carries no
    /// information. Populate it and retry.
    NotPopulated,
    /// The queried value lies above the sieve's configured limit. The error
    /// carries the offending value and that limit.
    OutOfBounds { value: usize, limit: usize },
}

/// A primality table for the values `0..=limit`, populated at most once.
#[derive(Debug, PartialEq, Eq)]
pub struct Sieve {
    max: usize,
    table: Vec<bool>,
    filled: bool,
}

impl Sieve {
    /// The configured inclusive limit, as seen by specifications.
    pub closed spec fn spec_max(&self) -> usize {
        self.max
    }

    /// Whether the sieve has been populated.
    pub closed spec fn populated(&self) -> bool {
        self.filled
    }

    /// Well-formedness: the table spans `0..=max`; before population every
    /// flag is optimistically true, and after population the flag at `n`
    /// holds exactly when `n` is prime.
    pub closed spec fn wf(&self) -> bool {
        &&& self.table@.len() == self.max + 1
        &&& !self.filled ==> forall|k: int| 0 <= k <= self.max ==> self.table@[k] == true
        &&& self.filled ==> forall|k: int| 0 <= k <= self.max ==> self.table@[k] == is_prime(k)
    }

    /// What a lookup answers: a query on an unpopulated sieve is rejected,
    /// a query above the limit is rejected with the offending value, and
    /// any other query reports true primality.
    pub open spec fn spec_lookup(&self, target: usize) -> Result<bool, SieveError> {
        if !self.populated() {
            Err(SieveError::NotPopulated)
        } else if target > self.spec_max() {
            Err(SieveError::OutOfBounds { value: target, limit: self.spec_max() })
        } else {
            Ok(is_prime(target as int))
        }
    }

    /// Create a sieve for the values `0..=max` without populating it: every
    /// flag starts out true and queries are still rejected.
    pub fn unfilled(max: usize) -> (s: Sieve)
        requires
            max < usize::MAX,
        ensures
            s.wf(),
            !s.populated(),
            s.spec_max() == max,
    {
        let mut table: Vec<bool> = Vec::new();
        let n: usize = max + 1;
        while table.len() < n
            invariant
                table@.len() <= n,
                forall|k: int| 0 <= k < table@.len() ==> table@[k] == true,
            decreases n - table@.len(),
        {
            table.push(true);
        }
        Sieve { max, table, filled: false }
    }

    /// One elimination pass: if `i` still stands (no smaller factor struck
    /// it out), strike out every proper multiple of `i` up to the limit;
    /// otherwise leave the table untouched.
    fn process_ahead(&mut self, i: usize)
        requires
            old(self).table@.len() == old(self).max + 1,
            2 <= i,
            i * i <= old(self).max,
        ensures
            final(self).max == old(self).max,
            final(self).filled == old(self).filled,
            final(self).table@.len() == old(self).table@.len(),
            !old(self).table@[i as int] ==> final(self).table@ == old(self).table@,
            old(self).table@[i as int] ==> forall|k: int|
                0 <= k <= old(self).max ==> final(self).table@[k] == (old(self).table@[k] && !(k
                    % (i as int) == 0 && 2 * i <= k)),
    {
        proof {
            assert(2 * i <= i * i) by (nonlinear_arith)
                requires
                    2 <= i,
            ;
            vstd::arithmetic::div_mod::lemma_mod_multiples_basic(2, i as int);
        }
        if !self.table[i] {
            return;
        }
        let mut cur: u128 = 2 * (i as u128);
        while cur <= self.max as u128
            invariant
                self.max == old(self).max,
                self.filled == old(self).filled,
                self.table@.len() == old(self).table@.len(),
                self.table@.len() == self.max + 1,
                2 <= i,
                i * i <= self.max,
                old(self).table@[i as int],
                (cur as int) % (i as int) == 0,
                2 * i <= cur,
                cur <= self.max + i,
                forall|k: int|
                    0 <= k <= self.max ==> self.table@[k] == (old(self).table@[k] && !(k
                        % (i as int) == 0 && 2 * i <= k < cur)),
            decreases self.max + i - cur,
        {
            let idx: usize = cur as usize;
            self.table[idx] = false;
            proof {
                assert forall|k: int|
                    0 <= k <= self.max implies self.table@[k] == (old(self).table@[k] && !(k
                    % (i as int) == 0 && 2 * i <= k < cur + i)) by {
                    if k % (i as int) == 0 && 2 * i <= k && cur <= k < cur + i {
                        lemma_equal_multiples_in_window(i as int, cur as int, k);
                    }
                }
                vstd::arithmetic::div_mod::lemma_mod_add_multiples_vanish(cur as int, i as int);
            }
            cur = cur + (i as u128);
        }
    }

    /// Populate the sieve: strike out 0, 1, and every composite value up to
    /// the limit, then mark the sieve populated. Populating an already
    /// populated sieve is a no-op.
    pub fn fill(&mut self)
        requires
            old(self).wf(),
        ensures
            final(self).wf(),
            final(self).populated(),
            final(self).spec_max() == old(self).spec_max(),
            old(self).populated() ==> *final(self) == *old(self),
    {
        if self.filled {
            return;
        }
        self.table[0] = false;
        if self.max >= 1 {
            self.table[1] = false;
        }
        let mut i: usize = 2;
        while i <= self.max / i
            invariant
                self.table@.len() == self.max + 1,
                !self.filled,
                self.max == old(self).max,
                2 <= i <= self.max + 2,
                forall|k: int|
                    0 <= k <= self.max ==> #[trigger] self.table@[k] == (k >= 2
                        && !has_proper_factor_below(k, i as int)),
            decreases self.max + 2 - i,
        {
            proof {
                lemma_square_vs_quotient(i as int, self.max as int);
                assert(2 * i <= i * i) by (nonlinear_arith)
                    requires
                        2 <= i,
                ;
            }
            let ghost prev = self.table@;
            self.process_ahead(i);
            proof {
                if prev[i as int] {
                    assert forall|k: int|
                        0 <= k <= self.max implies self.table@[k] == (k >= 2
                        && !has_proper_factor_below(k, i + 1)) by {
                        lemma_factor_bound_extend(k, i as int);
                    }
                } else {
                    assert(has_proper_factor_below(i as int, i as int));
                    assert forall|k: int|
                        0 <= k <= self.max implies self.table@[k] == (k >= 2
                        && !has_proper_factor_below(k, i + 1)) by {
                        lemma_factor_bound_extend(k, i as int);
                        if k % (i as int) == 0 && 2 * i <= k {
                            lemma_multiple_of_composite(k, i as int);
                        }
                    }
                }
            }
            i = i + 1;
        }
        proof {
            lemma_square_vs_quotient(i as int, self.max as int);
            assert forall|k: int| 0 <= k <= self.max implies self.table@[k] == is_prime(k) by {
                lemma_no_factor_below_sqrt_is_prime(k, i as int);
            }
        }
        self.filled = true;
    }

    /// Create a sieve for the values `0..=max` and populate it at once; the
    /// result is ready for queries.
    pub fn new(max: usize) -> (s: Sieve)
        requires
            max < usize::MAX,
        ensures
            s.wf(),
            s.populated(),
            s.spec_max() == max,
    {
        let mut result = Sieve::unfilled(max);
        result.fill();
        result
    }

    /// The inclusive limit this sieve was configured with.
    pub fn max(&self) -> (r: usize)
        ensures
            r == self.spec_max(),
    {
        self.max
    }

    /// Report whether `target` is prime: true exactly when `target` is at
    /// least 2 and has no divisor strictly between 1 and itself. Rejected
    /// with `NotPopulated` on an unpopulated sieve and with `OutOfBounds`
    /// when `target` exceeds the limit.
    pub fn lookup(&self, target: usize) -> (r: Result<bool, SieveError>)
        requires
            self.wf(),
        ensures
            r == self.spec_lookup(target),
    {
        if !self.filled {
            Err(SieveError::NotPopulated)
        } else if target > self.max {
            Err(SieveError::OutOfBounds { value: target, limit: self.max })
        } else {
            Ok(self.table[target])
        }
    }

    /// Keep exactly the primes among the candidates, in their original
    /// order and with duplicates retained. The first candidate whose lookup
    /// fails aborts the whole operation with that lookup's error.
    pub fn filter(&self, target: Vec<usize>) -> (r: Result<Vec<usize>, SieveError>)
        requires
            self.wf(),
        ensures
            target@.len() > 0 && !self.populated() ==> r == Err::<Vec<usize>, SieveError>(
                SieveError::NotPopulated,
            ),
            (self.populated() || target@.len() == 0) && all_below(target@, self.spec_max())
                ==> (r matches Ok(v) && v@ == primes_in(target@)),
            self.populated() && !all_below(target@, self.spec_max()) ==> (exists|x: int|
                first_exceeding(target@, self.spec_max(), x) && r == Err::<Vec<usize>, SieveError>(
                    SieveError::OutOfBounds { value: target@[x], limit: self.spec_max() },
                )),
    {
        let mut result: Vec<usize> = Vec::new();
        let mut idx: usize = 0;
        while idx < target.len()
            invariant
                self.wf(),
                idx <= target@.len(),
                idx > 0 ==> self.populated(),
                forall|j: int| 0 <= j < idx ==> target@[j] <= self.spec_max(),
                result@ == primes_in(target@.take(idx as int)),
            decreases target@.len() - idx,
        {
            let x = target[idx];
            match self.lookup(x) {
                Err(e) => {
                    proof {
                        if self.populated() {
                            assert(first_exceeding(target@, self.spec_max(), idx as int));
                        }
                    }
                    return Err(e);
                },
                Ok(keep) => {
                    if keep {
                        result.push(x);
                    }
                },
            }
            proof {
                assert(target@.take(idx + 1) =~= target@.take(idx as int).push(
                    target@[idx as int],
                ));
                target@.take(idx as int).lemma_filter_push(x, |n: usize| is_prime(n as int));
            }
            idx = idx + 1;
        }
        proof {
            assert(target@.take(target@.len() as int) =~= target@);
        }
        Ok(result)
    }
}

/// Every candidate lies within the limit.
pub open spec fn all_below(cand: Seq<usize>, limit: usize) -> bool {
    forall|j: int| 0 <= j < cand.len() ==> cand[j] <= limit
}

/// `x` is the position of the first candidate that exceeds the limit.
pub open spec fn first_exceeding(cand: Seq<usize>, limit: usize, x: int) -> bool {
    &&& 0 <= x < cand.len()
    &&& cand[x] > limit
    &&& forall|j: int| 0 <= j < x ==> cand[j] <= limit
}

/// The subsequence of primes among the candidates: a stable filter, keeping
/// original order and multiplicity.
pub open spec fn primes_in(cand: Seq<usize>) -> Seq<usize> {
    cand.filter(|n: usize| is_prime(n as int))
}

/// On any populated sieve whose limit is at least 1, looking up 0 or 1
/// answers false: neither is prime.
pub proof fn lemma_lookup_rejects_zero_and_one(s: &Sieve)
    requires
        s.populated(),
        s.spec_max() >= 1,
    ensures
        s.spec_lookup(0) == Ok::<bool, SieveError>(false),
        s.spec_lookup(1) == Ok::<bool, SieveError>(false),
{
}

/// On a populated sieve, looking up any in-bounds value reports ground-truth
/// primality: true exactly when the value is at least 2 and has no divisor
/// strictly between 1 and itself.
pub proof fn lemma_lookup_reports_primality(s: &Sieve, target: usize)
    requires
        s.populated(),
        target <= s.spec_max(),
    ensures
        s.spec_lookup(target) == Ok::<bool, SieveError>(is_prime(target as int)),
{
}

/// Looking up any value on an unpopulated sieve, in bounds or not, fails
/// with `NotPopulated`.
pub proof fn lemma_unpopulated_lookup_fails(s: &Sieve, target: usize)
    requires
        !s.populated(),
    ensures
        s.spec_lookup(target) == Err::<bool, SieveError>(SieveError::NotPopulated),
{
}

/// Looking up a value above the limit of a populated sieve fails with
/// `OutOfBounds`, carrying the offending value and the limit.
pub proof fn lemma_lookup_beyond_limit_fails(s: &Sieve, target: usize)
    requires
        s.populated(),
        target > s.spec_max(),
    ensures
        s.spec_lookup(target) == Err::<bool, SieveError>(
            SieveError::OutOfBounds { value: target, limit: s.spec_max() },
        ),
{
}

} // verus!
