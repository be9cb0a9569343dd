//! The services under test and their lifecycle operations.

use vstd::prelude::*;

use crate::system_call::SystemCall;

verus! {

/// How many times `prepare` looks for the service's processes before it gives
/// up on isolating them.
pub const MAX_PROCESS_LOOKUPS: u32 = 10;

/// A subject under test, with its optional lifecycle commands and what the
/// measurements need to know of it.
pub struct Service {
    pub name: String,
    pub process_name: Option<String>,
    pub ports: Vec<u32>,
    pub prepare: Option<SystemCall>,
    pub clean: Option<SystemCall>,
    pub release: Option<SystemCall>,
    pub storage_paths: Vec<String>,
    /// Whether an isolation group holds this service's processes.
    pub isolated: bool,
}

/// The three lifecycle operations of a service.
#[derive(PartialEq, Eq, Structural, Clone, Copy)]
pub enum Hook {
    Prepare,
    Clean,
    Release,
}

/// Why a lifecycle operation did not succeed.
#[derive(PartialEq, Eq, Structural, Clone, Copy)]
pub enum ServiceError {
    /// The operation's command could not be started or exited with an error.
    ProcessFailure,
    /// No process of the configured name could be placed in an isolation
    /// group.
    IsolationUnavailable,
}

/// What the host has to do next for a lifecycle operation.
#[derive(PartialEq, Eq, Structural, Clone, Copy)]
pub enum HookStep {
    /// Run the operation's command, then report whether it succeeded.
    RunCommand,
    /// Look for running processes with the service's process name, then report
    /// how many were found.
    FindProcesses,
    /// Wait the delay between two lookups, then report success.
    Pause,
    /// Create the service's isolation group and move the processes found into
    /// it, then report whether that succeeded.
    Isolate,
    /// Take the processes out of the isolation group and delete it, then
    /// report; a failure to delete is not an error of the operation.
    Dissolve,
    /// The operation is over and succeeded.
    Done,
    /// The operation is over and failed.
    Error(ServiceError),
}

/// What the host reports after performing a step.
#[derive(PartialEq, Eq, Structural, Clone, Copy)]
pub enum HookEvent {
    Succeeded,
    Failed,
    Found(usize),
}

impl Service {
    /// A service named `name`, with no process name, port, command, storage
    /// path or isolation group.
    pub fn new(name: &str) -> (r: Self)
        ensures
            r.name@ == name@,
            r.process_name is None,
            r.ports@.len() == 0,
            r.prepare is None,
            r.clean is None,
            r.release is None,
            r.storage_paths@.len() == 0,
            !r.isolated,
    {
        Service {
            name: name.to_string(),
            process_name: None,
            ports: Vec::new(),
            prepare: None,
            clean: None,
            release: None,
            storage_paths: Vec::new(),
            isolated: false,
        }
    }

    pub fn set_process_name(&mut self, process_name: &str)
        ensures
            final(self).process_name matches Some(p) && p@ == process_name@,
            final(self).name == old(self).name,
            final(self).ports == old(self).ports,
            final(self).prepare == old(self).prepare,
            final(self).clean == old(self).clean,
            final(self).release == old(self).release,
            final(self).storage_paths == old(self).storage_paths,
            final(self).isolated == old(self).isolated,
    {
        self.process_name = Some(process_name.to_string());
    }

    pub fn add_port(&mut self, port: u32)
        ensures
            final(self).ports@ == old(self).ports@.push(port),
            final(self).name == old(self).name,
            final(self).process_name == old(self).process_name,
            final(self).prepare == old(self).prepare,
            final(self).clean == old(self).clean,
            final(self).release == old(self).release,
            final(self).storage_paths == old(self).storage_paths,
            final(self).isolated == old(self).isolated,
    {
        self.ports.push(port);
    }

    pub fn add_storage_path(&mut self, path: &str)
        ensures
            final(self).storage_paths@.len() == old(self).storage_paths@.len() + 1,
            forall|i: int|
                0 <= i < old(self).storage_paths@.len() ==> #[trigger] final(self).storage_paths@[i]
                    == old(self).storage_paths@[i],
            final(self).storage_paths@.last()@ == path@,
            final(self).name == old(self).name,
            final(self).process_name == old(self).process_name,
            final(self).ports == old(self).ports,
            final(self).prepare == old(self).prepare,
            final(self).clean == old(self).clean,
            final(self).release == old(self).release,
            final(self).isolated == old(self).isolated,
    {
        self.storage_paths.push(path.to_string());
    }

    /// The command that `hook` runs, if one is configured.
    pub open spec fn spec_command(&self, hook: Hook) -> Option<SystemCall> {
        match hook {
            Hook::Prepare => self.prepare,
            Hook::Clean => self.clean,
            Hook::Release => self.release,
        }
    }

    pub fn command(&self, hook: Hook) -> (r: Option<&SystemCall>)
        ensures
            r == match self.spec_command(hook) {
                Some(c) => Some(&c),
                None => None::<&SystemCall>,
            },
    {
        match hook {
            Hook::Prepare => self.prepare.as_ref(),
            Hook::Clean => self.clean.as_ref(),
            Hook::Release => self.release.as_ref(),
        }
    }
}

/// The step that follows a successful command of `hook`.
pub open spec fn after_command(s: Service, hook: Hook) -> HookStep {
    match hook {
        Hook::Prepare => if s.process_name is Some {
            HookStep::FindProcesses
        } else {
            HookStep::Done
        },
        Hook::Clean => HookStep::Done,
        Hook::Release => if s.isolated {
            HookStep::Dissolve
        } else {
            HookStep::Done
        },
    }
}

/// The first step of `hook` on `s`: its command if one is configured, else
/// what follows it.
pub open spec fn first_step(s: Service, hook: Hook) -> HookStep {
    if s.spec_command(hook) is Some {
        HookStep::RunCommand
    } else {
        after_command(s, hook)
    }
}

pub open spec fn found_some(ev: HookEvent) -> bool {
    match ev {
        HookEvent::Found(n) => n > 0,
        _ => false,
    }
}

/// The step that follows `last` when the host reports `ev`, after `lookups`
/// lookups that found nothing.
pub open spec fn step_after(s: Service, hook: Hook, last: HookStep, lookups: nat, ev: HookEvent) -> HookStep {
    match last {
        HookStep::RunCommand => if ev == HookEvent::Failed {
            HookStep::Error(ServiceError::ProcessFailure)
        } else {
            after_command(s, hook)
        },
        HookStep::FindProcesses => if found_some(ev) {
            HookStep::Isolate
        } else if lookups + 1 < MAX_PROCESS_LOOKUPS {
            HookStep::Pause
        } else {
            HookStep::Error(ServiceError::IsolationUnavailable)
        },
        HookStep::Pause => HookStep::FindProcesses,
        HookStep::Isolate => if ev == HookEvent::Succeeded {
            HookStep::Done
        } else {
            HookStep::Error(ServiceError::IsolationUnavailable)
        },
        _ => HookStep::Done,
    }
}

pub open spec fn is_finished(step: HookStep) -> bool {
    step is Done || step is Error
}

/// A lifecycle operation in progress on one service: the host performs
/// `step`, reports with `advance`, and stops once the step is finished.
pub struct HookRun {
    pub hook: Hook,
    /// Lookups made so far that found no process.
    pub lookups: u32,
    /// The step the host has to perform now.
    pub step: HookStep,
}

impl HookRun {
    pub open spec fn wf(&self) -> bool {
        self.lookups < MAX_PROCESS_LOOKUPS
    }

    /// Takes the host's report on `self.step` and moves to the next step.
    /// Isolating the processes marks the service as isolated, dissolving the
    /// group marks it as no longer isolated; nothing else of it changes.
    pub fn advance(&mut self, service: &mut Service, ev: HookEvent)
        requires
            old(self).wf(),
            !is_finished(old(self).step),
        ensures
            final(self).wf(),
            final(self).hook == old(self).hook,
            final(self).step == step_after(
                *old(service),
                old(self).hook,
                old(self).step,
                old(self).lookups as nat,
                ev,
            ),
            final(self).lookups == if old(self).step is FindProcesses && !found_some(ev)
                && old(self).lookups + 1 < MAX_PROCESS_LOOKUPS {
                (old(self).lookups + 1) as u32
            } else {
                old(self).lookups
            },
            final(service).isolated == if old(self).step is Isolate && ev == HookEvent::Succeeded {
                true
            } else if old(self).step is Dissolve {
                false
            } else {
                old(service).isolated
            },
            final(service).name == old(service).name,
            final(service).process_name == old(service).process_name,
            final(service).ports == old(service).ports,
            final(service).prepare == old(service).prepare,
            final(service).clean == old(service).clean,
            final(service).release == old(service).release,
            final(service).storage_paths == old(service).storage_paths,
    {
        let next = match self.step {
            HookStep::RunCommand => {
                if ev == HookEvent::Failed {
                    HookStep::Error(ServiceError::ProcessFailure)
                } else {
                    service.next_after_command(self.hook)
                }
            },
            HookStep::FindProcesses => {
                let found = match ev {
                    HookEvent::Found(n) => n > 0,
                    _ => false,
                };
                if found {
                    HookStep::Isolate
                } else if self.lookups + 1 < MAX_PROCESS_LOOKUPS {
                    self.lookups = self.lookups + 1;
                    HookStep::Pause
                } else {
                    HookStep::Error(ServiceError::IsolationUnavailable)
                }
            },
            HookStep::Pause => HookStep::FindProcesses,
            HookStep::Isolate => {
                if ev == HookEvent::Succeeded {
                    service.isolated = true;
                    HookStep::Done
                } else {
                    HookStep::Error(ServiceError::IsolationUnavailable)
                }
            },
            _ => {
                service.isolated = false;
                HookStep::Done
            },
        };
        self.step = next;
    }
}

impl Service {
    fn next_after_command(&self, hook: Hook) -> (r: HookStep)
        ensures
            r == after_command(*self, hook),
    {
        match hook {
            Hook::Prepare => if self.process_name.is_some() {
                HookStep::FindProcesses
            } else {
                HookStep::Done
            },
            Hook::Clean => HookStep::Done,
            Hook::Release => if self.isolated {
                HookStep::Dissolve
            } else {
                HookStep::Done
            },
        }
    }

    /// Starts `hook` on this service: `prepare` runs its command if any, then
    /// looks for the processes to isolate if a process name is set; `clean`
    /// runs its command if any; `release` runs its command if any, then
    /// dissolves the isolation group if there is one.
    pub fn start_hook(&self, hook: Hook) -> (r: HookRun)
        ensures
            r.wf(),
            r.hook == hook,
            r.lookups == 0,
            r.step == first_step(*self, hook),
    {
        let step = if self.command(hook).is_some() {
            HookStep::RunCommand
        } else {
            self.next_after_command(hook)
        };
        HookRun { hook, lookups: 0, step }
    }
}

impl Service {
    /// Starts `prepare`: see `start_hook`.
    pub fn prepare(&self) -> (r: HookRun)
        ensures
            r.wf(),
            r.hook == Hook::Prepare,
            r.lookups == 0,
            r.step == first_step(*self, Hook::Prepare),
    {
        self.start_hook(Hook::Prepare)
    }

    /// Starts `clean`: see `start_hook`.
    pub fn clean(&self) -> (r: HookRun)
        ensures
            r.wf(),
            r.hook == Hook::Clean,
            r.lookups == 0,
            r.step == first_step(*self, Hook::Clean),
    {
        self.start_hook(Hook::Clean)
    }

    /// Starts `release`: see `start_hook`.
    pub fn release(&self) -> (r: HookRun)
        ensures
            r.wf(),
            r.hook == Hook::Release,
            r.lookups == 0,
            r.step == first_step(*self, Hook::Release),
    {
        self.start_hook(Hook::Release)
    }
}

/// An operation with nothing to do succeeds at once, with no step for the
/// host: `clean` without a command, `prepare` without a command or a process
/// name, `release` without a command or an isolation group.
pub proof fn law_unset_hooks_succeed(s: Service)
    ensures
        s.clean is None ==> first_step(s, Hook::Clean) == HookStep::Done,
        s.prepare is None && s.process_name is None ==> first_step(s, Hook::Prepare)
            == HookStep::Done,
        s.release is None && !s.isolated ==> first_step(s, Hook::Release) == HookStep::Done,
{
}

/// However the host answers, `prepare` looks for processes at most
/// `MAX_PROCESS_LOOKUPS` times: a lookup that finds nothing either leads to a
/// pause before the next one, with the count raised, or ends the operation.
pub proof fn law_lookups_bounded(s: Service, hook: Hook, lookups: nat, ev: HookEvent)
    requires
        lookups + 1 >= MAX_PROCESS_LOOKUPS,
        !found_some(ev),
    ensures
        is_finished(step_after(s, hook, HookStep::FindProcesses, lookups, ev)),
{
}

} // verus!
