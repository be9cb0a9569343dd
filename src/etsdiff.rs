//! A campaign's configuration, and the campaign built from it.

use vstd::prelude::*;

use crate::campaign::{campaign_plan, Campaign, Component};
use crate::etscomponent::{all_storage_paths, capped, present_sum, seq_sum, EComponent, Stage, OctetsComponent, SComponent, TComponent};
use crate::report::{Report, TestReport};
use crate::iteration_scheduler::{staggered, IterationScheduler, SchedulerType, StageredScheduler};
use crate::service::Service;
use crate::system_call::string_views;
use crate::test::{SystemCallTest, Test};

verus! {

/// The number of rounds when no scheduler was set.
pub const DEFAULT_NB_ITERATION: u32 = 2;

/// A campaign's configuration and its report: the services under test, the
/// tests, the measurement components, the scheduler.
pub struct ETSdiff {
    pub services: Vec<Service>,
    pub tests: Vec<SystemCallTest>,
    pub e_component: Option<EComponent>,
    pub s_component: Option<SComponent>,
    pub t_component: Option<TComponent>,
    pub scheduler: Option<StageredScheduler>,
    pub report: Report,
}

/// The components present, in their start order: transfer, storage, energy.
pub open spec fn components_of(
    t: bool,
    s: bool,
    e: bool,
) -> Seq<Component> {
    (if t { seq![Component::Transfer] } else { Seq::empty() })
        + (if s { seq![Component::Storage] } else { Seq::empty() })
        + (if e { seq![Component::Energy] } else { Seq::empty() })
}

/// The indices, in increasing order, of the first `n` names of `names` that
/// `wanted` holds.
pub open spec fn matching(names: Seq<Seq<char>>, wanted: Seq<Seq<char>>, n: nat) -> Seq<usize>
    decreases n,
{
    if n == 0 {
        Seq::empty()
    } else {
        let prev = matching(names, wanted, (n - 1) as nat);
        if wanted.contains(names[n - 1]) {
            prev.push((n - 1) as usize)
        } else {
            prev
        }
    }
}

pub open spec fn service_names(services: Seq<Service>) -> Seq<Seq<char>> {
    services.map_values(|s: Service| s.name@)
}

/// Whether `v` holds `s`.
fn contains_string(v: &Vec<String>, s: &String) -> (r: bool)
    ensures
        r == string_views(v@).contains(s@),
{
    let mut i: usize = 0;
    while i < v.len()
        invariant
            i <= v@.len(),
            forall|k: int| 0 <= k < i ==> #[trigger] string_views(v@)[k] != s@,
        decreases v.len() - i,
    {
        if v[i] == *s {
            assert(string_views(v@)[i as int] == s@);
            return true;
        }
        i = i + 1;
    }
    false
}

impl ETSdiff {
    pub open spec fn spec_components(&self) -> Seq<Component> {
        components_of(
            self.t_component is Some,
            self.s_component is Some,
            self.e_component is Some,
        )
    }

    /// The indices of the services of each test.
    pub open spec fn spec_matched(&self) -> Seq<Seq<usize>> {
        Seq::new(
            self.tests@.len(),
            |t: int|
                matching(
                    service_names(self.services@),
                    self.tests@[t].spec_services_names(),
                    self.services@.len(),
                ),
        )
    }

    /// No service, no test, every component, no scheduler, an empty report.
    pub fn new() -> (r: Self)
        ensures
            r.services@.len() == 0,
            r.tests@.len() == 0,
            r.e_component is Some,
            r.s_component is Some,
            r.t_component is Some,
            r.scheduler is None,
            r.report.spec_details().len() == 0,
            r.report.spec_total().len() == 0,
    {
        let mut r = ETSdiff {
            services: Vec::new(),
            tests: Vec::new(),
            e_component: None,
            s_component: None,
            t_component: None,
            scheduler: None,
            report: Report::new(),
        };
        r.set_s_component();
        r.set_t_component();
        r.set_e_component();
        r
    }

    pub fn set_s_component(&mut self)
        ensures
            final(self).s_component is Some,
            final(self).e_component == old(self).e_component,
            final(self).t_component == old(self).t_component,
            final(self).services == old(self).services,
            final(self).tests == old(self).tests,
            final(self).scheduler == old(self).scheduler,
            final(self).report == old(self).report,
    {
        self.s_component = Some(SComponent::new());
    }

    pub fn set_t_component(&mut self)
        ensures
            final(self).t_component matches Some(c) && c.spec_octets() == 0 && c.spec_stage()
                == Stage::Uninitialized,
            final(self).e_component == old(self).e_component,
            final(self).s_component == old(self).s_component,
            final(self).services == old(self).services,
            final(self).tests == old(self).tests,
            final(self).scheduler == old(self).scheduler,
            final(self).report == old(self).report,
    {
        self.t_component = Some(TComponent::new());
    }

    pub fn set_e_component(&mut self)
        ensures
            final(self).e_component matches Some(c) && c.spec_values().len() == 0
                && c.spec_stage() == Stage::Uninitialized && !c.spec_need_stop(),
            final(self).s_component == old(self).s_component,
            final(self).t_component == old(self).t_component,
            final(self).services == old(self).services,
            final(self).tests == old(self).tests,
            final(self).scheduler == old(self).scheduler,
            final(self).report == old(self).report,
    {
        self.e_component = Some(EComponent::new());
    }

    pub fn set_scheduler(&mut self, st: SchedulerType, nb_iteration: u32)
        ensures
            final(self).scheduler matches Some(s) && s.spec_nb_iteration() == nb_iteration,
            final(self).e_component == old(self).e_component,
            final(self).s_component == old(self).s_component,
            final(self).t_component == old(self).t_component,
            final(self).services == old(self).services,
            final(self).tests == old(self).tests,
            final(self).report == old(self).report,
    {
        self.scheduler = match st {
            SchedulerType::StageredScheduler => Some(StageredScheduler::new(nb_iteration)),
        };
    }

    /// The order of the test executions. Without a scheduler, the staggered
    /// one with `DEFAULT_NB_ITERATION` rounds is set first.
    pub fn get_ordered_tests_list(&mut self) -> (r: Vec<u32>)
        requires
            old(self).tests@.len() <= u32::MAX,
        ensures
            final(self).scheduler matches Some(s) && r@ == staggered(
                old(self).tests@.len(),
                s.spec_nb_iteration(),
            ) && (old(self).scheduler is None ==> s.spec_nb_iteration() == DEFAULT_NB_ITERATION)
                && (old(self).scheduler is Some ==> old(self).scheduler == final(self).scheduler),
            final(self).e_component == old(self).e_component,
            final(self).s_component == old(self).s_component,
            final(self).t_component == old(self).t_component,
            final(self).services == old(self).services,
            final(self).tests == old(self).tests,
            final(self).report == old(self).report,
    {
        if self.scheduler.is_none() {
            self.set_scheduler(SchedulerType::StageredScheduler, DEFAULT_NB_ITERATION);
        }
        let n = self.tests.len() as u32;
        match &self.scheduler {
            Some(s) => s.get_ordered_list(n),
            None => Vec::new(),
        }
    }

    /// The indices of the services whose name test `t` lists, in the order of
    /// the services.
    pub fn matched_services(&self, t: usize) -> (r: Vec<usize>)
        requires
            t < self.tests@.len(),
        ensures
            r@ == self.spec_matched()[t as int],
    {
        let wanted = self.tests[t].services_names();
        let ghost names = service_names(self.services@);
        let mut r: Vec<usize> = Vec::new();
        let mut i: usize = 0;
        while i < self.services.len()
            invariant
                names == service_names(self.services@),
                string_views(wanted@) == self.tests@[t as int].spec_services_names(),
                i <= self.services@.len(),
                r@ == matching(names, string_views(wanted@), i as nat),
            decreases self.services.len() - i,
        {
            assert(names[i as int] == self.services@[i as int].name@);
            if contains_string(wanted, &self.services[i].name) {
                r.push(i);
            }
            i = i + 1;
        }
        r
    }

    /// The components present, in their start order.
    pub fn components(&self) -> (r: Vec<Component>)
        ensures
            r@ == self.spec_components(),
    {
        let mut r: Vec<Component> = Vec::new();
        if self.t_component.is_some() {
            r.push(Component::Transfer);
        }
        if self.s_component.is_some() {
            r.push(Component::Storage);
        }
        if self.e_component.is_some() {
            r.push(Component::Energy);
        }
        assert(r@ =~= self.spec_components());
        r
    }

    /// The campaign over the tests in the scheduler's order (the default
    /// scheduler is set if none was), with the services that each test names
    /// and the components present.
    pub fn campaign(&mut self) -> (r: Campaign)
        requires
            old(self).tests@.len() <= u32::MAX,
        ensures
            final(self).scheduler matches Some(s) && r.spec_steps() == campaign_plan(
                staggered(old(self).tests@.len(), s.spec_nb_iteration()),
                old(self).spec_matched(),
                old(self).spec_components(),
            ) && (old(self).scheduler is None ==> s.spec_nb_iteration() == DEFAULT_NB_ITERATION),
            r.wf(),
            r.spec_next() == 0,
            !r.spec_aborted(),
            r.spec_teardown() + old(self).spec_components().len() + 1 == r.spec_steps().len(),
            final(self).e_component == old(self).e_component,
            final(self).s_component == old(self).s_component,
            final(self).t_component == old(self).t_component,
            final(self).services == old(self).services,
            final(self).tests == old(self).tests,
            final(self).report == old(self).report,
    {
        let order = self.get_ordered_tests_list();
        let n = self.tests.len();
        let mut matched: Vec<Vec<usize>> = Vec::new();
        let mut t: usize = 0;
        while t < n
            invariant
                n == self.tests@.len(),
                t <= n,
                matched@.len() == t,
                forall|k: int| 0 <= k < t ==> (#[trigger] matched@[k])@ == self.spec_matched()[k],
            decreases n - t,
        {
            matched.push(self.matched_services(t));
            t = t + 1;
        }
        let ghost mv = matched@.map_values(|m: Vec<usize>| m@);
        assert(mv =~= self.spec_matched());
        proof {
            let s = self.scheduler->0;
            crate::iteration_scheduler::law_staggered_rounds(n as nat, s.spec_nb_iteration());
        }
        assert forall|k: int| 0 <= k < order@.len() implies (#[trigger] order@[k] as int)
            < matched@.len() by {
            let s = self.scheduler->0;
            assert(n > 0) by {
                if n == 0 {
                    assert(n * s.spec_nb_iteration() == 0) by (nonlinear_arith)
                        requires
                            n == 0,
                    ;
                }
            }
        }
        let cs = self.components();
        Campaign::new(&order, &matched, &cs)
    }

    /// Reads the components' values into a record of test `t`, and adds it to
    /// the report. A component that is absent gives zero.
    pub fn record_results(&mut self, t: usize)
        requires
            t < old(self).tests@.len(),
        ensures
            final(self).report.spec_total() == old(self).report.spec_total(),
            final(self).report.spec_details().len() == old(self).report.spec_details().len() + 1,
            forall|k: int|
                0 <= k < old(self).report.spec_details().len()
                    ==> #[trigger] final(self).report.spec_details()[k]
                    == old(self).report.spec_details()[k],
            ({
                let r = final(self).report.spec_details().last();
                &&& r.name@ == old(self).tests@[t as int].spec_name()
                &&& r.energy as nat == match old(self).e_component {
                    Some(c) => if c.spec_stage() == Stage::Armed {
                        0
                    } else {
                        capped(seq_sum(c.spec_values()))
                    },
                    None => 0,
                }
                &&& r.transfer as nat == match old(self).t_component {
                    Some(c) => c.spec_octets(),
                    None => 0,
                }
                &&& old(self).s_component is None ==> r.storage == 0
                &&& old(self).s_component is Some ==> exists|sizes: Seq<Option<u64>>|
                    sizes.len() == all_storage_paths(old(self).services@).len() && r.storage as nat == capped(
                        #[trigger] present_sum(sizes),
                    )
            }),
            final(self).e_component == old(self).e_component,
            final(self).s_component == old(self).s_component,
            final(self).t_component == old(self).t_component,
            final(self).services == old(self).services,
            final(self).tests == old(self).tests,
            final(self).scheduler == old(self).scheduler,
    {
        let mut r = TestReport::new(self.tests[t].name().as_str());
        match &self.e_component {
            Some(c) => {
                r.energy = c.value();
            },
            None => {},
        }
        match &self.t_component {
            Some(c) => {
                r.transfer = c.to_octets();
            },
            None => {},
        }
        match &self.s_component {
            Some(c) => {
                r.storage = c.to_octets(&self.services);
            },
            None => {},
        }
        self.report.add_test_report(r);
    }
}

} // verus!
