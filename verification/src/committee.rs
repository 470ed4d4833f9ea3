//! The validator committee: named authorities with voting weights, and the
//! quorum threshold that certificates must reach.

use vstd::prelude::*;
use crate::base_types::{bytes_eq, AuthorityName};

verus! {

/// The sum of all weights in a voting-rights table.
pub open spec fn spec_weight_sum(s: Seq<(AuthorityName, u64)>) -> int
    decreases s.len(),
{
    if s.len() == 0 {
        0
    } else {
        spec_weight_sum(s.drop_last()) + s.last().1
    }
}

/// The weight of a named authority, or zero when it is unknown.
pub open spec fn spec_weight_of(s: Seq<(AuthorityName, u64)>, name: Seq<u8>) -> int
    decreases s.len(),
{
    if s.len() == 0 {
        0
    } else if s.last().0@ == name {
        s.last().1 as int
    } else {
        spec_weight_of(s.drop_last(), name)
    }
}

/// No authority is listed twice.
pub open spec fn spec_unique_names(s: Seq<(AuthorityName, u64)>) -> bool {
    forall|i: int, j: int| 0 <= i < j < s.len() ==> s[i].0@ != s[j].0@
}

/// The committee of authorities and their voting rights.
pub struct Committee {
    pub voting_rights: Vec<(AuthorityName, u64)>,
    pub total_votes: u64,
}

impl Committee {
    /// Names are unique and the cached total matches the table.
    pub open spec fn well_formed(self) -> bool {
        &&& spec_unique_names(self.voting_rights@)
        &&& self.total_votes as int == spec_weight_sum(self.voting_rights@)
    }

    /// The quorum threshold: strictly more than two thirds of all votes.
    pub open spec fn spec_quorum_threshold(self) -> int {
        2 * (self.total_votes as int) / 3 + 1
    }

    /// Assemble a committee from a voting-rights table.
    pub fn new(voting_rights: Vec<(AuthorityName, u64)>) -> (r: Committee)
        requires
            spec_unique_names(voting_rights@),
            spec_weight_sum(voting_rights@) <= u64::MAX,
        ensures
            r.well_formed(),
            r.voting_rights@ == voting_rights@,
    {
        let mut total: u64 = 0;
        let mut i: usize = 0;
        proof {
            assert(voting_rights@.take(0) =~= Seq::<(AuthorityName, u64)>::empty());
        }
        while i < voting_rights.len()
            invariant
                0 <= i <= voting_rights@.len(),
                spec_unique_names(voting_rights@),
                spec_weight_sum(voting_rights@) <= u64::MAX,
                total as int == spec_weight_sum(voting_rights@.take(i as int)),
            decreases voting_rights@.len() - i,
        {
            proof {
                lemma_weight_sum_take_bound(voting_rights@, i + 1);
                assert(voting_rights@.take(i + 1).drop_last() =~= voting_rights@.take(i as int));
                assert(voting_rights@.take(i + 1).last() == voting_rights@[i as int]);
                lemma_weight_sum_nonneg(voting_rights@.take(i as int));
            }
            total = total + voting_rights[i].1;
            i += 1;
        }
        proof {
            assert(voting_rights@.take(voting_rights@.len() as int) =~= voting_rights@);
        }
        Committee { voting_rights, total_votes: total }
    }

    /// The voting weight of an authority; zero for an unknown signer.
    pub fn weight(&self, author: &AuthorityName) -> (r: u64)
        ensures
            r as int == spec_weight_of(self.voting_rights@, author@),
    {
        let n = self.voting_rights.len();
        let mut i: usize = n;
        proof {
            assert(self.voting_rights@.take(n as int) =~= self.voting_rights@);
        }
        while i > 0
            invariant
                0 <= i <= n,
                n == self.voting_rights@.len(),
                spec_weight_of(self.voting_rights@, author@) == spec_weight_of(
                    self.voting_rights@.take(i as int),
                    author@,
                ),
            decreases i,
        {
            i -= 1;
            proof {
                assert(self.voting_rights@.take(i + 1).drop_last() =~= self.voting_rights@.take(
                    i as int,
                ));
                assert(self.voting_rights@.take(i + 1).last() == self.voting_rights@[i as int]);
            }
            if bytes_eq(&self.voting_rights[i].0.0, &author.0) {
                return self.voting_rights[i].1;
            }
        }
        proof {
            assert(self.voting_rights@.take(0) =~= Seq::<(AuthorityName, u64)>::empty());
        }
        0
    }

    /// The quorum threshold as a machine integer.
    pub fn quorum_threshold(&self) -> (r: u64)
        ensures
            r as int == self.spec_quorum_threshold(),
    {
        let t2 = 2 * (self.total_votes as u128);
        let q = t2 / 3 + 1;
        proof {
            assert(q <= u64::MAX as u128);
        }
        q as u64
    }

    /// Clone the committee table.
    pub fn duplicate(&self) -> (r: Committee)
        ensures
            r.voting_rights@ == self.voting_rights@,
            r.total_votes == self.total_votes,
    {
        Committee {
            voting_rights: crate::messages::copy_vec(&self.voting_rights),
            total_votes: self.total_votes,
        }
    }
}

/// A weight sum is never negative.
pub proof fn lemma_weight_sum_nonneg(s: Seq<(AuthorityName, u64)>)
    ensures
        spec_weight_sum(s) >= 0,
    decreases s.len(),
{
    if s.len() > 0 {
        lemma_weight_sum_nonneg(s.drop_last());
    }
}

/// A prefix sum never exceeds the whole sum.
pub proof fn lemma_weight_sum_take_bound(s: Seq<(AuthorityName, u64)>, n: int)
    requires
        0 <= n <= s.len(),
    ensures
        spec_weight_sum(s.take(n)) <= spec_weight_sum(s),
    decreases s.len() - n,
{
    if n == s.len() {
        assert(s.take(n) =~= s);
    } else {
        lemma_weight_sum_take_bound(s, n + 1);
        assert(s.take(n + 1).drop_last() =~= s.take(n));
        assert(s.take(n + 1).last() == s[n]);
    }
}

} // verus!
