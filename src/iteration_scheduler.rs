//! The order in which a campaign runs its tests.

use vstd::prelude::*;

verus! {

/// The strategies that order a campaign's test executions.
pub enum SchedulerType {
    StageredScheduler,
}

/// A strategy for ordering the test executions of a campaign.
pub trait IterationScheduler {
    /// How many times each test is repeated.
    spec fn spec_nb_iteration(&self) -> nat;

    /// The order in which test indices are run, for `nb_tests` tests.
    spec fn spec_order(&self, nb_tests: nat) -> Seq<u32>;

    fn nb_iteration(&self) -> (r: u32)
        ensures
            r as nat == self.spec_nb_iteration(),
    ;

    fn get_ordered_list(&self, nb_tests: u32) -> (r: Vec<u32>)
        ensures
            r@ == self.spec_order(nb_tests as nat),
    ;
}

/// `[0, 1, ..., nb_tests - 1]`.
pub open spec fn index_range(nb_tests: nat) -> Seq<u32> {
    Seq::new(nb_tests, |i: int| i as u32)
}

/// `rounds` consecutive copies of `index_range(nb_tests)`.
pub open spec fn staggered(nb_tests: nat, rounds: nat) -> Seq<u32>
    decreases rounds,
{
    if rounds == 0 {
        Seq::empty()
    } else {
        staggered(nb_tests, (rounds - 1) as nat) + index_range(nb_tests)
    }
}

/// The staggered order holds `nb_tests * rounds` indices, and the index at
/// position `k` is `k % nb_tests`: the full range of tests, `rounds` times over.
pub proof fn law_staggered_rounds(nb_tests: nat, rounds: nat)
    requires
        nb_tests <= u32::MAX,
    ensures
        staggered(nb_tests, rounds).len() == nb_tests * rounds,
        forall|k: int|
            0 <= k < nb_tests * rounds ==> #[trigger] staggered(nb_tests, rounds)[k] as int == k
                % nb_tests as int,
    decreases rounds,
{
    if rounds > 0 {
        let r1 = (rounds - 1) as nat;
        law_staggered_rounds(nb_tests, r1);
        let prev = staggered(nb_tests, r1);
        assert(nb_tests * rounds == nb_tests * r1 + nb_tests) by (nonlinear_arith)
            requires
                r1 + 1 == rounds,
        ;
        assert forall|k: int| 0 <= k < nb_tests * rounds implies #[trigger] staggered(
            nb_tests,
            rounds,
        )[k] as int == k % nb_tests as int by {
            if k >= nb_tests * r1 {
                let j = k - nb_tests * r1;
                assert(k % nb_tests as int == j) by (nonlinear_arith)
                    requires
                        k == j + nb_tests * r1,
                        0 <= j < nb_tests,
                ;
                assert(staggered(nb_tests, rounds)[k] == index_range(nb_tests)[j]);
            } else {
                assert(staggered(nb_tests, rounds)[k] == prev[k]);
            }
        }
    } else {
        assert(nb_tests * rounds == 0) by (nonlinear_arith)
            requires
                rounds == 0,
        ;
    }
}

/// Repeats the whole range of tests, round after round.
pub struct StageredScheduler {
    nb_iteration: u32,
}

impl StageredScheduler {
    pub fn new(nb_iteration: u32) -> (r: Self)
        ensures
            r.spec_nb_iteration() == nb_iteration as nat,
    {
        Self { nb_iteration }
    }
}

impl IterationScheduler for StageredScheduler {
    closed spec fn spec_nb_iteration(&self) -> nat {
        self.nb_iteration as nat
    }

    open spec fn spec_order(&self, nb_tests: nat) -> Seq<u32> {
        staggered(nb_tests, self.spec_nb_iteration())
    }

    fn nb_iteration(&self) -> (r: u32) {
        self.nb_iteration
    }

    fn get_ordered_list(&self, nb_tests: u32) -> (r: Vec<u32>) {
        let mut v: Vec<u32> = Vec::new();
        let mut round: u32 = 0;
        while round < self.nb_iteration
            invariant
                round <= self.nb_iteration,
                v@ == staggered(nb_tests as nat, round as nat),
            decreases self.nb_iteration - round,
        {
            let ghost before = v@;
            let mut t: u32 = 0;
            while t < nb_tests
                invariant
                    t <= nb_tests,
                    v@ == before + index_range(t as nat),
                decreases nb_tests - t,
            {
                v.push(t);
                assert(index_range((t + 1) as nat) =~= index_range(t as nat).push(t));
                t = t + 1;
            }
            round = round + 1;
        }
        v
    }
}

} // verus!
