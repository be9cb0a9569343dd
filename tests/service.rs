use etsdiff::service::{Hook, HookEvent, HookStep, Service, ServiceError, MAX_PROCESS_LOOKUPS};
use etsdiff::system_call::SystemCall;

#[test]
fn service_creation() {
    let s = Service::new("Test Service");

    assert_eq!("Test Service", s.name);
    assert!(s.process_name.is_none());
    assert_eq!(0, s.ports.len());
    assert!(s.prepare.is_none());
    assert!(s.clean.is_none());
    assert!(s.release.is_none());
    assert_eq!(0, s.storage_paths.len());
}

#[test]
fn service_process_name() {
    let mut s = Service::new("Test Service");

    assert!(s.process_name.is_none());

    s.set_process_name("pidof");

    assert!(s.process_name.is_some());
    assert_eq!("pidof", s.process_name.unwrap());
}

#[test]
fn service_add_ports() {
    let mut s = Service::new("Test Service");

    assert_eq!(0, s.ports.len());

    s.add_port(8080);

    assert_eq!(1, s.ports.len());

    s.add_port(4326);

    assert_eq!(2, s.ports.len());
    assert_eq!(vec![8080, 4326], s.ports);
}

#[test]
fn service_add_storage_path() {
    let mut s = Service::new("Test Service");

    assert_eq!(0, s.storage_paths.len());

    s.add_storage_path("/path1");

    assert_eq!(1, s.storage_paths.len());

    s.add_storage_path("/path2");

    assert_eq!(2, s.storage_paths.len());
    assert_eq!(vec!["/path1", "/path2"], s.storage_paths);
}

/// Drives a hook the way the host does, answering every step with `answer`.
fn drive(s: &mut Service, hook: Hook, answer: impl Fn(HookStep) -> HookEvent) -> (HookStep, Vec<HookStep>) {
    let mut run = match hook {
        Hook::Prepare => s.prepare(),
        Hook::Clean => s.clean(),
        Hook::Release => s.release(),
    };
    let mut seen = Vec::new();
    while run.step != HookStep::Done && !matches!(run.step, HookStep::Error(_)) {
        seen.push(run.step);
        let ev = answer(run.step);
        run.advance(s, ev);
    }
    (run.step, seen)
}

#[test]
fn service_prepare() {
    let mut s = Service::new("Test Service");

    assert!(s.prepare().step == HookStep::Done);

    s.prepare = Some(SystemCall::new("ls"));

    let (end, seen) = drive(&mut s, Hook::Prepare, |_| HookEvent::Succeeded);
    assert!(end == HookStep::Done);
    assert!(seen == vec![HookStep::RunCommand]);
}

#[test]
fn service_clean() {
    let mut s = Service::new("Test Service");

    assert!(s.clean().step == HookStep::Done);

    s.clean = Some(SystemCall::new("ls -s"));

    let (end, seen) = drive(&mut s, Hook::Clean, |_| HookEvent::Succeeded);
    assert!(end == HookStep::Done);
    assert!(seen == vec![HookStep::RunCommand]);
    assert_eq!(s.command(Hook::Clean).unwrap().arguments(), ["-s"]);
}

#[test]
fn service_release() {
    let mut s = Service::new("Test Service");

    assert!(s.release().step == HookStep::Done);

    s.release = Some(SystemCall::new("ls -a"));

    let (end, seen) = drive(&mut s, Hook::Release, |_| HookEvent::Succeeded);
    assert!(end == HookStep::Done);
    assert!(seen == vec![HookStep::RunCommand]);
}

#[test]
fn failing_command_fails_the_hook() {
    let mut s = Service::new("S");
    s.prepare = Some(SystemCall::new("false"));
    s.set_process_name("p");
    let (end, seen) = drive(&mut s, Hook::Prepare, |_| HookEvent::Failed);
    assert!(end == HookStep::Error(ServiceError::ProcessFailure));
    assert!(seen == vec![HookStep::RunCommand]);
    assert!(!s.isolated);
}

#[test]
fn prepare_isolates_found_processes_then_release_dissolves() {
    let mut s = Service::new("S");
    s.set_process_name("worker");
    let (end, seen) = drive(&mut s, Hook::Prepare, |st| match st {
        HookStep::FindProcesses => HookEvent::Found(3),
        _ => HookEvent::Succeeded,
    });
    assert!(end == HookStep::Done);
    assert!(seen == vec![HookStep::FindProcesses, HookStep::Isolate]);
    assert!(s.isolated);

    s.release = Some(SystemCall::new("true"));
    let (end, seen) = drive(&mut s, Hook::Release, |_| HookEvent::Succeeded);
    assert!(end == HookStep::Done);
    assert!(seen == vec![HookStep::RunCommand, HookStep::Dissolve]);
    assert!(!s.isolated);
}

#[test]
fn prepare_gives_up_after_bounded_lookups() {
    let mut s = Service::new("S");
    s.set_process_name("absent");
    let (end, seen) = drive(&mut s, Hook::Prepare, |st| match st {
        HookStep::FindProcesses => HookEvent::Found(0),
        _ => HookEvent::Succeeded,
    });
    assert!(end == HookStep::Error(ServiceError::IsolationUnavailable));
    let lookups = seen.iter().filter(|st| **st == HookStep::FindProcesses).count();
    assert_eq!(MAX_PROCESS_LOOKUPS as usize, lookups);
    assert_eq!(2 * MAX_PROCESS_LOOKUPS as usize - 1, seen.len());
    assert!(!s.isolated);
}

#[test]
fn failed_isolation_is_reported() {
    let mut s = Service::new("S");
    s.set_process_name("w");
    let (end, _) = drive(&mut s, Hook::Prepare, |st| match st {
        HookStep::FindProcesses => HookEvent::Found(1),
        _ => HookEvent::Failed,
    });
    assert!(end == HookStep::Error(ServiceError::IsolationUnavailable));
    assert!(!s.isolated);
}

#[test]
fn unset_hooks_are_no_ops() {
    let s = Service::new("S");
    assert!(s.start_hook(Hook::Prepare).step == HookStep::Done);
    assert!(s.start_hook(Hook::Clean).step == HookStep::Done);
    assert!(s.start_hook(Hook::Release).step == HookStep::Done);
    assert!(s.command(Hook::Prepare).is_none());
}
