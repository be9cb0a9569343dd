//! The execution protocol of a campaign, as a sequence of steps.

use vstd::prelude::*;

verus! {

/// The measurement components, in the order in which they start.
#[derive(PartialEq, Eq, Structural, Clone, Copy)]
pub enum Component {
    Transfer,
    Storage,
    Energy,
}

/// One action of a campaign, for the host to perform.
#[derive(PartialEq, Eq, Structural, Clone, Copy)]
pub enum Step {
    /// `before_campaign` of a component.
    BeforeCampaign(Component),
    /// `prepare` of the service at this index.
    PrepareService(usize),
    /// `before_test` of a component.
    BeforeTest(Component),
    /// Run the test at this index; a failure aborts the campaign.
    RunTest(usize),
    /// `after_test` of a component.
    AfterTest(Component),
    /// Read the components' values into a record of the test at this index.
    RecordResults(usize),
    /// `clean` of the service at this index.
    CleanService(usize),
    /// `release` of the service at this index.
    ReleaseService(usize),
    /// `after_campaign` of a component.
    AfterCampaign(Component),
    /// Compute the report's totals.
    ComputeTotal,
}

/// The four hooks of a component.
#[derive(PartialEq, Eq, Structural, Clone, Copy)]
pub enum Phase {
    BeforeCampaign,
    BeforeTest,
    AfterTest,
    AfterCampaign,
}

pub open spec fn component_step(phase: Phase, c: Component) -> Step {
    match phase {
        Phase::BeforeCampaign => Step::BeforeCampaign(c),
        Phase::BeforeTest => Step::BeforeTest(c),
        Phase::AfterTest => Step::AfterTest(c),
        Phase::AfterCampaign => Step::AfterCampaign(c),
    }
}

/// The hooks that end something visit the components in the reverse of the
/// start order.
pub open spec fn is_reversed(phase: Phase) -> bool {
    phase == Phase::AfterTest || phase == Phase::AfterCampaign
}

/// The hook `phase` of every component of `cs`, in the order of `phase`.
pub open spec fn component_steps(cs: Seq<Component>, phase: Phase) -> Seq<Step> {
    Seq::new(
        cs.len(),
        |k: int|
            component_step(
                phase,
                if is_reversed(phase) {
                    cs[cs.len() - 1 - k]
                } else {
                    cs[k]
                },
            ),
    )
}

pub open spec fn prepare_steps(ms: Seq<usize>) -> Seq<Step> {
    Seq::new(ms.len(), |k: int| Step::PrepareService(ms[k]))
}

/// `clean` then `release` of each service, service after service.
pub open spec fn clean_release_steps(ms: Seq<usize>) -> Seq<Step> {
    Seq::new(
        2 * ms.len(),
        |k: int|
            if k % 2 == 0 {
                Step::CleanService(ms[k / 2])
            } else {
                Step::ReleaseService(ms[k / 2])
            },
    )
}

/// One execution of test `t`, whose services are at the indices `ms`.
pub open spec fn iteration_steps(t: usize, ms: Seq<usize>, cs: Seq<Component>) -> Seq<Step> {
    prepare_steps(ms) + component_steps(cs, Phase::BeforeTest) + seq![Step::RunTest(t)]
        + component_steps(cs, Phase::AfterTest)
        + seq![Step::RecordResults(t)] + clean_release_steps(ms)
}

/// The executions of the tests of `order`, one after the other; `matched[t]`
/// holds the indices of the services of test `t`.
pub open spec fn body_steps(order: Seq<u32>, matched: Seq<Seq<usize>>, cs: Seq<Component>) -> Seq<
    Step,
>
    decreases order.len(),
{
    if order.len() == 0 {
        Seq::empty()
    } else {
        body_steps(order.drop_last(), matched, cs) + iteration_steps(
            order.last() as usize,
            matched[order.last() as int],
            cs,
        )
    }
}

/// What ends every campaign, aborted or not.
pub open spec fn teardown_steps(cs: Seq<Component>) -> Seq<Step> {
    component_steps(cs, Phase::AfterCampaign) + seq![Step::ComputeTotal]
}

/// The whole campaign when no test fails.
pub open spec fn campaign_plan(order: Seq<u32>, matched: Seq<Seq<usize>>, cs: Seq<Component>) -> Seq<
    Step,
> {
    component_steps(cs, Phase::BeforeCampaign) + body_steps(order, matched, cs) + teardown_steps(cs)
}

fn push_component_steps(steps: &mut Vec<Step>, cs: &Vec<Component>, phase: Phase)
    ensures
        final(steps)@ == old(steps)@ + component_steps(cs@, phase),
{
    let ghost base = steps@;
    let reversed = phase == Phase::AfterTest || phase == Phase::AfterCampaign;
    let n = cs.len();
    let mut k: usize = 0;
    while k < n
        invariant
            n == cs@.len(),
            reversed == is_reversed(phase),
            k <= n,
            steps@ =~= base + component_steps(cs@, phase).subrange(0, k as int),
        decreases n - k,
    {
        let c = if reversed {
            cs[n - 1 - k]
        } else {
            cs[k]
        };
        let s = match phase {
            Phase::BeforeCampaign => Step::BeforeCampaign(c),
            Phase::BeforeTest => Step::BeforeTest(c),
            Phase::AfterTest => Step::AfterTest(c),
            Phase::AfterCampaign => Step::AfterCampaign(c),
        };
        steps.push(s);
        assert(component_steps(cs@, phase).subrange(0, k + 1) =~= component_steps(
            cs@,
            phase,
        ).subrange(0, k as int).push(s));
        k = k + 1;
    }
    assert(component_steps(cs@, phase).subrange(0, n as int) =~= component_steps(cs@, phase));
}

fn push_iteration(steps: &mut Vec<Step>, t: usize, ms: &Vec<usize>, cs: &Vec<Component>)
    ensures
        final(steps)@ == old(steps)@ + iteration_steps(t, ms@, cs@),
{
    let ghost base = steps@;
    let mut k: usize = 0;
    while k < ms.len()
        invariant
            k <= ms@.len(),
            steps@ =~= base + prepare_steps(ms@).subrange(0, k as int),
        decreases ms.len() - k,
    {
        steps.push(Step::PrepareService(ms[k]));
        assert(prepare_steps(ms@).subrange(0, k + 1) =~= prepare_steps(ms@).subrange(
            0,
            k as int,
        ).push(Step::PrepareService(ms@[k as int])));
        k = k + 1;
    }
    assert(prepare_steps(ms@).subrange(0, ms@.len() as int) =~= prepare_steps(ms@));
    push_component_steps(steps, cs, Phase::BeforeTest);
    steps.push(Step::RunTest(t));
    push_component_steps(steps, cs, Phase::AfterTest);
    steps.push(Step::RecordResults(t));
    let ghost mid = steps@;
    let mut k: usize = 0;
    while k < ms.len()
        invariant
            k <= ms@.len(),
            steps@ =~= mid + clean_release_steps(ms@).subrange(0, 2 * k),
        decreases ms.len() - k,
    {
        steps.push(Step::CleanService(ms[k]));
        steps.push(Step::ReleaseService(ms[k]));
        proof {
            let cr = clean_release_steps(ms@);
            assert((2 * k) % 2 == 0 && (2 * k) / 2 == k) by (nonlinear_arith);
            assert((2 * k + 1) % 2 == 1 && (2 * k + 1) / 2 == k) by (nonlinear_arith);
            assert(cr[2 * k] == Step::CleanService(ms@[k as int]));
            assert(cr[2 * k + 1] == Step::ReleaseService(ms@[k as int]));
            assert(cr.subrange(0, 2 * k + 2) =~= cr.subrange(0, 2 * k).push(
                Step::CleanService(ms@[k as int]),
            ).push(Step::ReleaseService(ms@[k as int])));
        }
        k = k + 1;
    }
    assert(clean_release_steps(ms@).subrange(0, 2 * ms@.len() as int) =~= clean_release_steps(ms@));
    assert(steps@ =~= base + iteration_steps(t, ms@, cs@));
}

/// A campaign in progress: the host asks for the next step, performs it, and
/// reports a failed test with `abort`, which skips what is left of the
/// executions but not the teardown.
pub struct Campaign {
    steps: Vec<Step>,
    next: usize,
    teardown: usize,
    aborted: bool,
}

impl Campaign {
    /// Every step of the campaign, in order, when no test fails.
    pub closed spec fn spec_steps(&self) -> Seq<Step> {
        self.steps@
    }

    /// The index of the next step to hand out.
    pub closed spec fn spec_next(&self) -> nat {
        self.next as nat
    }

    /// The index where the teardown begins.
    pub closed spec fn spec_teardown(&self) -> nat {
        self.teardown as nat
    }

    pub closed spec fn spec_aborted(&self) -> bool {
        self.aborted
    }

    pub open spec fn wf(&self) -> bool {
        &&& self.spec_next() <= self.spec_steps().len()
        &&& self.spec_teardown() <= self.spec_steps().len()
    }

    /// The campaign that runs the tests in `order`, where `matched[t]` holds
    /// the indices of the services of test `t`, with the components `cs`.
    pub fn new(order: &Vec<u32>, matched: &Vec<Vec<usize>>, cs: &Vec<Component>) -> (r: Self)
        requires
            forall|k: int| 0 <= k < order@.len() ==> (#[trigger] order@[k] as int) < matched@.len(),
        ensures
            r.wf(),
            r.spec_steps() == campaign_plan(order@, matched@.map_values(|m: Vec<usize>| m@), cs@),
            r.spec_next() == 0,
            r.spec_teardown() + cs@.len() + 1 == r.spec_steps().len(),
            !r.spec_aborted(),
    {
        let ghost mv = matched@.map_values(|m: Vec<usize>| m@);
        let mut steps: Vec<Step> = Vec::new();
        push_component_steps(&mut steps, cs, Phase::BeforeCampaign);
        let ghost start = steps@;
        let mut i: usize = 0;
        while i < order.len()
            invariant
                forall|k: int| 0 <= k < order@.len() ==> (#[trigger] order@[k] as int) < matched@.len(),
                mv == matched@.map_values(|m: Vec<usize>| m@),
                i <= order@.len(),
                steps@ == start + body_steps(order@.subrange(0, i as int), mv, cs@),
            decreases order.len() - i,
        {
            let t = order[i];
            push_iteration(&mut steps, t as usize, &matched[t as usize], cs);
            proof {
                let o1 = order@.subrange(0, i + 1);
                assert(o1.drop_last() =~= order@.subrange(0, i as int));
                assert(o1.last() == t);
                assert(mv[t as int] == matched@[t as int]@);
            }
            i = i + 1;
        }
        assert(order@.subrange(0, order@.len() as int) =~= order@);
        let teardown = steps.len();
        push_component_steps(&mut steps, cs, Phase::AfterCampaign);
        steps.push(Step::ComputeTotal);
        assert(steps@ =~= campaign_plan(order@, mv, cs@));
        Campaign { steps, next: 0, teardown, aborted: false }
    }

    /// The next step, or nothing once the campaign is over.
    pub fn next_step(&mut self) -> (r: Option<Step>)
        requires
            old(self).wf(),
        ensures
            final(self).wf(),
            final(self).spec_steps() == old(self).spec_steps(),
            final(self).spec_teardown() == old(self).spec_teardown(),
            final(self).spec_aborted() == old(self).spec_aborted(),
            old(self).spec_next() < old(self).spec_steps().len() ==> r == Some(
                old(self).spec_steps()[old(self).spec_next() as int],
            ) && final(self).spec_next() == old(self).spec_next() + 1,
            old(self).spec_next() >= old(self).spec_steps().len() ==> r is None
                && final(self).spec_next() == old(self).spec_next(),
    {
        if self.next < self.steps.len() {
            let s = self.steps[self.next];
            self.next = self.next + 1;
            Some(s)
        } else {
            None
        }
    }

    /// A test failed: what is left of the executions is skipped, and the
    /// next step is the first of the teardown.
    pub fn abort(&mut self)
        requires
            old(self).wf(),
        ensures
            final(self).wf(),
            final(self).spec_steps() == old(self).spec_steps(),
            final(self).spec_teardown() == old(self).spec_teardown(),
            final(self).spec_aborted(),
            final(self).spec_next() == if old(self).spec_next() < old(self).spec_teardown() {
                old(self).spec_teardown()
            } else {
                old(self).spec_next()
            },
    {
        if self.next < self.teardown {
            self.next = self.teardown;
        }
        self.aborted = true;
    }

    /// Whether a test failed.
    pub fn aborted(&self) -> (r: bool)
        ensures
            r == self.spec_aborted(),
    {
        self.aborted
    }
}

pub open spec fn is_teardown_step(s: Step) -> bool {
    s is AfterCampaign || s is ComputeTotal
}

proof fn lemma_body_has_no_teardown(order: Seq<u32>, matched: Seq<Seq<usize>>, cs: Seq<Component>)
    ensures
        forall|k: int|
            0 <= k < body_steps(order, matched, cs).len() ==> !is_teardown_step(
                #[trigger] body_steps(order, matched, cs)[k],
            ),
    decreases order.len(),
{
    if order.len() > 0 {
        lemma_body_has_no_teardown(order.drop_last(), matched, cs);
        let prev = body_steps(order.drop_last(), matched, cs);
        let it = iteration_steps(order.last() as usize, matched[order.last() as int], cs);
        let ms = matched[order.last() as int];
        assert forall|k: int| 0 <= k < it.len() implies !is_teardown_step(#[trigger] it[k]) by {
            let p = prepare_steps(ms);
            let b = component_steps(cs, Phase::BeforeTest);
            let a = component_steps(cs, Phase::AfterTest);
            let cr = clean_release_steps(ms);
            let k1 = k - p.len() - b.len() - 1 - a.len() - 1;
            if 0 <= k1 {
                assert(it[k] == cr[k1]);
            }
        }
        assert forall|k: int|
            0 <= k < body_steps(order, matched, cs).len() implies !is_teardown_step(
            #[trigger] body_steps(order, matched, cs)[k],
        ) by {
            if k >= prev.len() {
                assert(body_steps(order, matched, cs)[k] == it[k - prev.len()]);
            } else {
                assert(body_steps(order, matched, cs)[k] == prev[k]);
            }
        }
    }
}

/// Whatever test fails, the campaign's teardown still runs in full, and each
/// component's `after_campaign` exactly once: before the teardown no step
/// belongs to it; from the teardown on, the steps are `after_campaign` of
/// each component, each once, in the reverse of the start order, then the
/// totals, and no test runs.
pub proof fn law_abort_runs_teardown_once(
    order: Seq<u32>,
    matched: Seq<Seq<usize>>,
    cs: Seq<Component>,
)
    requires
        forall|i: int, j: int| 0 <= i < j < cs.len() ==> cs[i] != cs[j],
    ensures
        ({
            let p = campaign_plan(order, matched, cs);
            let t = p.len() - cs.len() - 1;
            &&& 0 <= t
            &&& p.subrange(t, p.len() as int) == teardown_steps(cs)
            &&& forall|k: int| 0 <= k < t ==> !is_teardown_step(#[trigger] p[k])
            &&& forall|k: int| t <= k < p.len() ==> !(#[trigger] p[k] is RunTest)
            &&& forall|c: Component|
                cs.contains(c) ==> exists|k: int|
                    t <= k < p.len() && #[trigger] p[k] == Step::AfterCampaign(c)
            &&& forall|k1: int, k2: int|
                t <= k1 < k2 < p.len() ==> #[trigger] p[k1] != #[trigger] p[k2]
        }),
{
    let p = campaign_plan(order, matched, cs);
    let pre = component_steps(cs, Phase::BeforeCampaign);
    let body = body_steps(order, matched, cs);
    let td = teardown_steps(cs);
    let t = (pre.len() + body.len()) as int;
    assert(p.len() == t + td.len());
    assert(p.subrange(t, p.len() as int) =~= td);
    lemma_body_has_no_teardown(order, matched, cs);
    assert forall|k: int| 0 <= k < t implies !is_teardown_step(#[trigger] p[k]) by {
        if k < pre.len() {
            assert(p[k] == pre[k]);
        } else {
            assert(p[k] == body[k - pre.len()]);
        }
    }
    assert forall|k: int| t <= k < p.len() implies !(#[trigger] p[k] is RunTest) by {
        assert(p[k] == td[k - t]);
    }
    assert forall|c: Component| cs.contains(c) implies exists|k: int|
        t <= k < p.len() && #[trigger] p[k] == Step::AfterCampaign(c) by {
        let i = choose|i: int| 0 <= i < cs.len() && cs[i] == c;
        let k = t + (cs.len() - 1 - i);
        assert(p[k] == td[k - t]);
    }
    assert forall|k1: int, k2: int| t <= k1 < k2 < p.len() implies #[trigger] p[k1]
        != #[trigger] p[k2] by {
        assert(p[k1] == td[k1 - t]);
        assert(p[k2] == td[k2 - t]);
        if k2 - t < cs.len() {
            assert(cs[cs.len() - 1 - (k1 - t)] != cs[cs.len() - 1 - (k2 - t)]);
        }
    }
}

/// The tests run by the steps `s`, in order.
pub open spec fn runs(s: Seq<Step>) -> Seq<usize>
    decreases s.len(),
{
    if s.len() == 0 {
        Seq::empty()
    } else {
        match s.last() {
            Step::RunTest(t) => runs(s.drop_last()).push(t),
            _ => runs(s.drop_last()),
        }
    }
}

/// How many results the steps `s` record.
pub open spec fn records(s: Seq<Step>) -> nat
    decreases s.len(),
{
    if s.len() == 0 {
        0
    } else {
        records(s.drop_last()) + if s.last() is RecordResults {
            1nat
        } else {
            0nat
        }
    }
}

proof fn lemma_counts_concat(a: Seq<Step>, b: Seq<Step>)
    ensures
        runs(a + b) == runs(a) + runs(b),
        records(a + b) == records(a) + records(b),
    decreases b.len(),
{
    if b.len() == 0 {
        assert(a + b =~= a);
        assert(runs(a) + runs(b) =~= runs(a));
    } else {
        lemma_counts_concat(a, b.drop_last());
        assert((a + b).drop_last() =~= a + b.drop_last());
        assert((a + b).last() == b.last());
        match b.last() {
            Step::RunTest(t) => {
                assert((runs(a) + runs(b.drop_last())).push(t) =~= runs(a) + runs(b.drop_last()).push(t));
            },
            _ => {},
        }
    }
}

/// Steps that neither run a test nor record a result.
pub open spec fn is_quiet(s: Seq<Step>) -> bool {
    forall|i: int| 0 <= i < s.len() ==> !(#[trigger] s[i] is RunTest) && !(s[i] is RecordResults)
}

proof fn lemma_counts_quiet(s: Seq<Step>)
    requires
        is_quiet(s),
    ensures
        runs(s) == Seq::<usize>::empty(),
        records(s) == 0,
    decreases s.len(),
{
    if s.len() > 0 {
        assert(is_quiet(s.drop_last())) by {
            assert forall|i: int| 0 <= i < s.drop_last().len() implies !(
            #[trigger] s.drop_last()[i] is RunTest) && !(s.drop_last()[i] is RecordResults) by {
                assert(s.drop_last()[i] == s[i]);
            }
        }
        lemma_counts_quiet(s.drop_last());
        assert(s[s.len() - 1] == s.last());
    }
}

proof fn lemma_component_steps_quiet(cs: Seq<Component>, phase: Phase)
    ensures
        is_quiet(component_steps(cs, phase)),
{
}

proof fn lemma_iteration_counts(t: usize, ms: Seq<usize>, cs: Seq<Component>)
    ensures
        ({
            let it = iteration_steps(t, ms, cs);
            let q = (ms.len() + cs.len()) as int;
            &&& it[q] == Step::RunTest(t)
            &&& runs(it.subrange(0, q + 1)) == seq![t]
            &&& records(it.subrange(0, q + 1)) == 0
            &&& runs(it) == seq![t]
            &&& records(it) == 1
        }),
{
    let p = prepare_steps(ms);
    let b = component_steps(cs, Phase::BeforeTest);
    let a = component_steps(cs, Phase::AfterTest);
    let cr = clean_release_steps(ms);
    let run = seq![Step::RunTest(t)];
    let rec = seq![Step::RecordResults(t)];
    let it = iteration_steps(t, ms, cs);
    let q = (ms.len() + cs.len()) as int;
    assert(is_quiet(p));
    lemma_component_steps_quiet(cs, Phase::BeforeTest);
    lemma_component_steps_quiet(cs, Phase::AfterTest);
    assert(is_quiet(cr)) by {
        assert forall|i: int| 0 <= i < cr.len() implies !(#[trigger] cr[i] is RunTest) && !(
        cr[i] is RecordResults) by {}
    }
    lemma_counts_quiet(p);
    lemma_counts_quiet(b);
    lemma_counts_quiet(a);
    lemma_counts_quiet(cr);
    assert(run.drop_last() =~= Seq::<Step>::empty());
    assert(rec.drop_last() =~= Seq::<Step>::empty());
    reveal_with_fuel(runs, 2);
    reveal_with_fuel(records, 2);
    assert(runs(run) =~= seq![t]);
    assert(records(run) == 0);
    assert(runs(rec) =~= Seq::<usize>::empty());
    assert(records(rec) == 1);
    lemma_counts_concat(p, b);
    lemma_counts_concat(p + b, run);
    lemma_counts_concat(p + b + run, a);
    lemma_counts_concat(p + b + run + a, rec);
    lemma_counts_concat(p + b + run + a + rec, cr);
    assert(it.subrange(0, q + 1) =~= p + b + run);
    assert(it[q] == Step::RunTest(t));
}

proof fn lemma_body_counts(order: Seq<u32>, matched: Seq<Seq<usize>>, cs: Seq<Component>)
    ensures
        runs(body_steps(order, matched, cs)) == order.map_values(|t: u32| t as usize),
        records(body_steps(order, matched, cs)) == order.len(),
    decreases order.len(),
{
    if order.len() == 0 {
        assert(order.map_values(|t: u32| t as usize) =~= Seq::<usize>::empty());
    } else {
        let prev = order.drop_last();
        lemma_body_counts(prev, matched, cs);
        let t = order.last() as usize;
        let ms = matched[order.last() as int];
        lemma_iteration_counts(t, ms, cs);
        lemma_counts_concat(body_steps(prev, matched, cs), iteration_steps(t, ms, cs));
        assert(order.map_values(|t: u32| t as usize) =~= prev.map_values(|t: u32| t as usize)
            + seq![t]);
    }
}

proof fn lemma_body_prefix(order: Seq<u32>, matched: Seq<Seq<usize>>, cs: Seq<Component>, k: int)
    requires
        0 <= k <= order.len(),
    ensures
        body_steps(order.subrange(0, k), matched, cs).len() <= body_steps(order, matched, cs).len(),
        body_steps(order, matched, cs).subrange(0, body_steps(order.subrange(0, k), matched, cs).len() as int)
            == body_steps(order.subrange(0, k), matched, cs),
    decreases order.len(),
{
    if k == order.len() {
        assert(order.subrange(0, k) =~= order);
        assert(body_steps(order, matched, cs).subrange(0, body_steps(order, matched, cs).len() as int)
            =~= body_steps(order, matched, cs));
    } else {
        let prev = order.drop_last();
        lemma_body_prefix(prev, matched, cs, k);
        assert(prev.subrange(0, k) =~= order.subrange(0, k));
        let bk = body_steps(order.subrange(0, k), matched, cs);
        let bp = body_steps(prev, matched, cs);
        let bo = body_steps(order, matched, cs);
        assert(bo.subrange(0, bk.len() as int) =~= bp.subrange(0, bk.len() as int));
    }
}

/// When the run of the `k`-th scheduled test fails and the campaign aborts,
/// the steps handed out up to that run have run exactly the tests
/// `order[0..=k]`, in order, and recorded exactly `k` results; the teardown
/// that follows runs no test and records nothing.
pub proof fn law_failed_run_records(
    order: Seq<u32>,
    matched: Seq<Seq<usize>>,
    cs: Seq<Component>,
    k: int,
)
    requires
        0 <= k < order.len(),
    ensures
        ({
            let p = campaign_plan(order, matched, cs);
            let q = (cs.len() + body_steps(order.subrange(0, k), matched, cs).len()
                + matched[order[k] as int].len() + cs.len()) as int;
            &&& q < p.len() - cs.len() - 1
            &&& p[q] == Step::RunTest(order[k] as usize)
            &&& runs(p.subrange(0, q + 1)) == order.subrange(0, k + 1).map_values(|t: u32| t as usize)
            &&& records(p.subrange(0, q + 1)) == k
            &&& runs(teardown_steps(cs)) == Seq::<usize>::empty()
            &&& records(teardown_steps(cs)) == 0
        }),
{
    let p = campaign_plan(order, matched, cs);
    let pre = component_steps(cs, Phase::BeforeCampaign);
    let body = body_steps(order, matched, cs);
    let o_k = order.subrange(0, k);
    let o_k1 = order.subrange(0, k + 1);
    let bk = body_steps(o_k, matched, cs);
    let bk1 = body_steps(o_k1, matched, cs);
    let t = order[k] as usize;
    let ms = matched[order[k] as int];
    let it = iteration_steps(t, ms, cs);
    let mq = (ms.len() + cs.len()) as int;
    let q = cs.len() + bk.len() + mq;
    assert(o_k1.drop_last() =~= o_k);
    assert(o_k1.last() == order[k]);
    assert(bk1 == bk + it);
    lemma_body_prefix(order, matched, cs, k + 1);
    lemma_iteration_counts(t, ms, cs);
    assert(p.subrange(0, q + 1) =~= pre + bk + it.subrange(0, mq + 1)) by {
        assert(body.subrange(0, bk1.len() as int) == bk1);
        assert forall|i: int| 0 <= i < q + 1 implies #[trigger] p[i] == (pre + bk + it.subrange(0, mq + 1))[i] by {
            if i >= pre.len() {
                assert(p[i] == body[i - pre.len()]);
                assert(body[i - pre.len()] == bk1[i - pre.len()]);
            }
        }
    }
    lemma_component_steps_quiet(cs, Phase::BeforeCampaign);
    lemma_counts_quiet(pre);
    lemma_body_counts(o_k, matched, cs);
    lemma_counts_concat(pre, bk);
    lemma_counts_concat(pre + bk, it.subrange(0, mq + 1));
    assert(o_k1.map_values(|t: u32| t as usize) =~= o_k.map_values(|t: u32| t as usize) + seq![t]);
    assert(p[q] == it[mq]);
    let td = teardown_steps(cs);
    lemma_component_steps_quiet(cs, Phase::AfterCampaign);
    assert(is_quiet(td)) by {
        assert forall|i: int| 0 <= i < td.len() implies !(#[trigger] td[i] is RunTest) && !(
        td[i] is RecordResults) by {
            if i < cs.len() {
                assert(td[i] == component_steps(cs, Phase::AfterCampaign)[i]);
            }
        }
    }
    lemma_counts_quiet(td);
    assert(p.len() == pre.len() + body.len() + td.len());
}

} // verus!
