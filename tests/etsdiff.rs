use etsdiff::campaign::{Component, Step};
use etsdiff::etsdiff::ETSdiff;
use etsdiff::iteration_scheduler::{IterationScheduler, SchedulerType};
use etsdiff::service::Service;
use etsdiff::test::SystemCallTest;

#[test]
fn etsdiff_creation() {
    let etsd = ETSdiff::new();

    assert_eq!(0, etsd.services.len());
    assert_eq!(0, etsd.tests.len());
    assert!(etsd.scheduler.is_none());
}

#[test]
fn etsdiff_services() {
    let mut etsd = ETSdiff::new();

    assert_eq!(0, etsd.services.len());
    etsd.services.push(Service::new("Service 1"));
    assert_eq!(1, etsd.services.len());
    etsd.services.push(Service::new("Service 2"));
    assert_eq!(2, etsd.services.len());
}

#[test]
fn etsdiff_tests() {
    let mut etsd = ETSdiff::new();

    assert_eq!(0, etsd.tests.len());
    etsd.tests.push(SystemCallTest::new("Test 1", "echo \"T1\""));
    assert_eq!(1, etsd.tests.len());
    etsd.tests.push(SystemCallTest::new("Test 2", "echo \"T2\""));
    assert_eq!(2, etsd.tests.len());
}

#[test]
fn etsdiff_set_e_component() {
    let etsd = ETSdiff::new();

    assert!(etsd.e_component.is_some());
}

#[test]
fn etsdiff_set_t_component() {
    let etsd = ETSdiff::new();

    assert!(etsd.s_component.is_some());
}

#[test]
fn etsdiff_set_s_component() {
    let etsd = ETSdiff::new();

    assert!(etsd.s_component.is_some());
}

#[test]
fn etsdiff_set_scheduler() {
    let mut etsd = ETSdiff::new();

    assert!(etsd.scheduler.is_none());

    etsd.set_scheduler(SchedulerType::StageredScheduler, 7);
    assert!(etsd.scheduler.is_some());
    assert_eq!(7, etsd.scheduler.unwrap().nb_iteration());
}

#[test]
fn etsdiff_defult_scheduler() {
    let mut etsd = ETSdiff::new();

    etsd.tests.push(SystemCallTest::new("Test 1", "echo \"T1\""));
    etsd.tests.push(SystemCallTest::new("Test 2", "echo \"T2\""));
    assert_eq!(2, etsd.tests.len());

    assert!(etsd.scheduler.is_none());
    assert_eq!(vec![0, 1, 0, 1], etsd.get_ordered_tests_list());
    assert!(etsd.scheduler.is_some());
}

#[test]
fn explicit_scheduler_is_kept() {
    let mut etsd = ETSdiff::new();
    etsd.tests.push(SystemCallTest::new("T", "true"));
    etsd.set_scheduler(SchedulerType::StageredScheduler, 3);
    assert_eq!(vec![0, 0, 0], etsd.get_ordered_tests_list());
    assert_eq!(3, etsd.scheduler.as_ref().unwrap().nb_iteration());
}

#[test]
fn matched_services_follow_test_declarations() {
    let mut etsd = ETSdiff::new();
    etsd.services.push(Service::new("A"));
    etsd.services.push(Service::new("B"));
    etsd.services.push(Service::new("C"));
    let mut t = SystemCallTest::new("T", "true");
    t.add_service_name("C");
    t.add_service_name("A");
    t.add_service_name("missing");
    etsd.tests.push(t);
    assert_eq!(vec![0, 2], etsd.matched_services(0));
}

#[test]
fn components_in_start_order() {
    let mut etsd = ETSdiff::new();
    assert!(etsd.components() == vec![Component::Transfer, Component::Storage, Component::Energy]);
    etsd.s_component = None;
    assert!(etsd.components() == vec![Component::Transfer, Component::Energy]);
}

#[test]
fn campaign_follows_the_protocol() {
    let mut etsd = ETSdiff::new();
    etsd.e_component = None;
    etsd.services.push(Service::new("A"));
    etsd.services.push(Service::new("B"));
    let mut t0 = SystemCallTest::new("T0", "true");
    t0.add_service_name("B");
    etsd.tests.push(t0);
    etsd.tests.push(SystemCallTest::new("T1", "true"));
    etsd.set_scheduler(SchedulerType::StageredScheduler, 1);

    let mut c = etsd.campaign();
    let mut steps = Vec::new();
    while let Some(s) = c.next_step() {
        steps.push(s);
    }
    let expected = vec![
        Step::BeforeCampaign(Component::Transfer),
        Step::BeforeCampaign(Component::Storage),
        Step::PrepareService(1),
        Step::BeforeTest(Component::Transfer),
        Step::BeforeTest(Component::Storage),
        Step::RunTest(0),
        Step::AfterTest(Component::Storage),
        Step::AfterTest(Component::Transfer),
        Step::RecordResults(0),
        Step::CleanService(1),
        Step::ReleaseService(1),
        Step::BeforeTest(Component::Transfer),
        Step::BeforeTest(Component::Storage),
        Step::RunTest(1),
        Step::AfterTest(Component::Storage),
        Step::AfterTest(Component::Transfer),
        Step::RecordResults(1),
        Step::AfterCampaign(Component::Storage),
        Step::AfterCampaign(Component::Transfer),
        Step::ComputeTotal,
    ];
    assert!(steps == expected);
    assert!(!c.aborted());
}

#[test]
fn failed_test_skips_to_teardown() {
    let mut etsd = ETSdiff::new();
    etsd.tests.push(SystemCallTest::new("T0", "false"));
    etsd.tests.push(SystemCallTest::new("T1", "true"));
    let mut c = etsd.campaign();
    let mut steps = Vec::new();
    while let Some(s) = c.next_step() {
        steps.push(s);
        if s == Step::RunTest(0) {
            c.abort();
        }
    }
    let expected = vec![
        Step::BeforeCampaign(Component::Transfer),
        Step::BeforeCampaign(Component::Storage),
        Step::BeforeCampaign(Component::Energy),
        Step::BeforeTest(Component::Transfer),
        Step::BeforeTest(Component::Storage),
        Step::BeforeTest(Component::Energy),
        Step::RunTest(0),
        Step::AfterCampaign(Component::Energy),
        Step::AfterCampaign(Component::Storage),
        Step::AfterCampaign(Component::Transfer),
        Step::ComputeTotal,
    ];
    assert!(steps == expected);
    assert!(c.aborted());
    for comp in [Component::Transfer, Component::Storage, Component::Energy] {
        assert_eq!(1, steps.iter().filter(|s| **s == Step::AfterCampaign(comp)).count());
    }
}

#[test]
fn record_results_reads_components() {
    let mut etsd = ETSdiff::new();
    etsd.tests.push(SystemCallTest::new("T0", "true"));
    if let Some(e) = etsd.e_component.as_mut() {
        e.before_campaign(true);
        assert!(e.before_test(vec![100]).is_ok());
        assert!(e.after_test(&vec![350]).is_ok());
    }
    if let Some(t) = etsd.t_component.as_mut() {
        t.before_campaign();
        assert!(t.before_test(&vec![]).is_ok());
        assert!(t.add_frame_len("42").is_ok());
        assert!(t.after_test().is_ok());
    }
    etsd.record_results(0);
    let d = etsd.report.details();
    assert_eq!(1, d.len());
    assert_eq!("T0", d[0].name);
    assert_eq!(250, d[0].energy);
    assert_eq!(42, d[0].transfer);
    assert_eq!(0, d[0].storage);
}

#[test]
fn failure_of_a_later_run_keeps_earlier_records() {
    let mut etsd = ETSdiff::new();
    etsd.tests.push(SystemCallTest::new("T0", "true"));
    etsd.tests.push(SystemCallTest::new("T1", "false"));
    etsd.set_scheduler(SchedulerType::StageredScheduler, 2);
    let mut c = etsd.campaign();
    let mut steps = Vec::new();
    while let Some(s) = c.next_step() {
        steps.push(s);
        if s == Step::RunTest(1) {
            c.abort();
        }
    }
    let runs: Vec<usize> = steps
        .iter()
        .filter_map(|s| match s {
            Step::RunTest(t) => Some(*t),
            _ => None,
        })
        .collect();
    assert_eq!(vec![0, 1], runs);
    assert_eq!(1, steps.iter().filter(|s| matches!(s, Step::RecordResults(_))).count());
    assert!(steps[steps.len() - 1] == Step::ComputeTotal);
    for comp in [Component::Transfer, Component::Storage, Component::Energy] {
        assert_eq!(1, steps.iter().filter(|s| **s == Step::AfterCampaign(comp)).count());
    }
}
