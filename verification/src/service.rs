//! Service supervision: descriptors, the per-service lifecycle state
//! machine, and the manager that classifies reaped children and re-arms
//! crashed services after their cooldown.
//!
//! Process control (spawning a child, delivering a termination signal,
//! the non-blocking wait) is performed by the embedding runtime; its
//! outcomes enter the verified state machine as plain values.  Every
//! transition below is therefore checked for every possible outcome of
//! the operating system primitives.

use vstd::prelude::*;

verus! {

/// The service's state.
#[derive(Clone, Copy, PartialEq, Eq, Structural, Debug)]
pub enum ServiceState {
    /// The service is running.
    Running,
    /// The service is stopped.
    Stopped,
    /// The service has crashed.
    Crashed,
}

/// Validated, immutable configuration for one service, as read from its
/// file by the descriptor source.
#[derive(Debug)]
pub struct ServiceDescriptor {
    /// The service's name.
    pub name: String,
    /// The service's description.
    pub desc: String,
    /// Tells whether the service is enabled; disabled services are loaded
    /// but never started automatically.
    pub enabled: bool,
    /// The delay in milliseconds before restarting the service after it
    /// crashed.  If `None`, the service is never restarted automatically.
    pub restart_delay: Option<u64>,
    /// The user used to run the service.
    pub user: String,
    /// The group used to run the service.
    pub group: String,
    /// The path to the program of the service.
    pub program_path: String,
}

impl ServiceDescriptor {
    /// A descriptor must at least name its service.
    pub open spec fn wf(&self) -> bool {
        self.name@.len() > 0
    }
}

/// Exclusive ownership of one spawned service process, identified by its
/// pid.  Deliberately not `Clone`: a handle is held by at most one
/// `Service`, and is released exactly once, on stop or crash detection.
#[derive(Debug)]
pub struct ProcessHandle {
    /// The child's process id.
    pub pid: u32,
}

/// What the runtime's spawn primitive reported.
pub enum SpawnOutcome {
    /// A child was created; its handle is transferred to the service.
    Spawned(ProcessHandle),
    /// The executable could not be launched; the message says why.
    Failed(String),
}

/// What the runtime's terminate-signal primitive reported.
pub enum SignalOutcome {
    /// The signal reached the process.
    Delivered,
    /// The process was already gone; treated as success.
    AlreadyGone,
    /// The signal could not be delivered; the message says why.
    Failed(String),
}

/// One reaped child: its pid and its raw exit status.
#[derive(Clone, Copy, Debug)]
pub struct ExitEvent {
    /// The pid of the child that terminated.
    pub pid: u32,
    /// The raw exit status; any unexpected termination of a running
    /// service counts as a crash, whatever this value is.
    pub status: i32,
}

/// The error kinds of the supervision engine and of its collaborators.
#[derive(Debug, PartialEq, Eq)]
pub enum Error {
    /// The descriptor source as a whole is unreadable; fatal to manager
    /// construction.
    Discovery(String),
    /// A single descriptor was malformed; that entry is skipped.
    DescriptorParse(String),
    /// The executable could not be launched.
    Spawn(String),
    /// The termination signal could not be delivered.
    Signal(String),
    /// The non-blocking wait primitive itself failed.
    Reap(String),
}

/// A service: its descriptor together with its runtime state.
pub struct Service {
    /// The service as represented in its file.
    pub desc: ServiceDescriptor,
    /// The current state of the service.
    pub state: ServiceState,
    /// The service's current process; held exactly while running.
    pub process: Option<ProcessHandle>,
    /// The timestamp of the last observed crash, in milliseconds;
    /// meaningful only while the state is `Crashed`.
    pub crash_timestamp: u64,
}

impl Service {
    /// The service invariant: a live process handle is held if and only
    /// if the service is running, and the descriptor is well formed.
    pub open spec fn wf(&self) -> bool {
        &&& self.desc.wf()
        &&& (self.state == ServiceState::Running <==> self.process is Some)
    }

    /// The service as first constructed from its descriptor: stopped,
    /// holding no process.
    pub open spec fn spec_from(desc: ServiceDescriptor) -> Service {
        Service { desc, state: ServiceState::Stopped, process: None, crash_timestamp: 0 }
    }

    /// The start transition.  Starting a running service changes nothing;
    /// otherwise the spawn outcome decides: a spawned child makes the
    /// service running, a failed spawn leaves it exactly as it was.
    pub open spec fn spec_start(pre: Service, outcome: SpawnOutcome) -> (Service, Result<(), Error>) {
        if pre.state == ServiceState::Running {
            (pre, Ok(()))
        } else {
            match outcome {
                SpawnOutcome::Spawned(h) => (
                    Service {
                        desc: pre.desc,
                        state: ServiceState::Running,
                        process: Some(h),
                        crash_timestamp: pre.crash_timestamp,
                    },
                    Ok(()),
                ),
                SpawnOutcome::Failed(m) => (pre, Err(Error::Spawn(m))),
            }
        }
    }

    /// The stop transition.  Stopping a service that is not running
    /// changes nothing.  For a running service, a delivered signal (or a
    /// process that was already gone) releases the handle and stops the
    /// service; a failed delivery leaves it exactly as it was.
    pub open spec fn spec_stop(pre: Service, outcome: SignalOutcome) -> (Service, Result<(), Error>) {
        if pre.state != ServiceState::Running {
            (pre, Ok(()))
        } else {
            match outcome {
                SignalOutcome::Failed(m) => (pre, Err(Error::Signal(m))),
                _ => (
                    Service {
                        desc: pre.desc,
                        state: ServiceState::Stopped,
                        process: None,
                        crash_timestamp: pre.crash_timestamp,
                    },
                    Ok(()),
                ),
            }
        }
    }

    /// The crash transition: the handle is released and the time of the
    /// observation is recorded.
    pub open spec fn spec_mark_crashed(pre: Service, timestamp: u64) -> Service {
        Service {
            desc: pre.desc,
            state: ServiceState::Crashed,
            process: None,
            crash_timestamp: timestamp,
        }
    }

    /// The restart (and reload) transition: stop, then start, propagating
    /// the first error encountered and leaving the state consistent with
    /// whichever sub-operation last completed.
    pub open spec fn spec_restart(
        pre: Service,
        sig: SignalOutcome,
        spawn: SpawnOutcome,
    ) -> (Service, Result<(), Error>) {
        let stopped = Service::spec_stop(pre, sig);
        if stopped.1 is Err {
            stopped
        } else {
            Service::spec_start(stopped.0, spawn)
        }
    }

    /// A crashed service is due for an automatic restart at `now` when it
    /// is enabled, a restart delay is configured, and that delay has
    /// elapsed since the crash.
    pub open spec fn spec_restart_due(&self, now: u64) -> bool {
        &&& self.state == ServiceState::Crashed
        &&& self.desc.enabled
        &&& self.desc.restart_delay is Some
        &&& now >= self.crash_timestamp + self.desc.restart_delay->0
    }

    /// Tells whether the service is enabled.
    pub fn is_enabled(&self) -> (enabled: bool)
        ensures
            enabled == self.desc.enabled,
    {
        self.desc.enabled
    }

    /// Returns the current state of the service.
    pub fn get_state(&self) -> (state: ServiceState)
        ensures
            state == self.state,
    {
        self.state
    }

    /// Returns the pid of the held process, if one is held.
    pub fn current_pid(&self) -> (pid: Option<u32>)
        ensures
            pid is Some <==> self.process is Some,
            pid is Some ==> pid->0 == self.process->0.pid,
    {
        match &self.process {
            Some(h) => Some(h.pid),
            None => None,
        }
    }

    /// Starts the service by applying the runtime's spawn outcome.  If the
    /// service is already running, nothing changes and the outcome is
    /// discarded.  On a failed spawn the state is left unchanged: the
    /// service is not silently marked running.
    pub fn start(&mut self, outcome: SpawnOutcome) -> (r: Result<(), Error>)
        requires
            old(self).wf(),
        ensures
            final(self).wf(),
            (*final(self), r) == Service::spec_start(*old(self), outcome),
    {
        if self.state == ServiceState::Running {
            return Ok(());
        }
        match outcome {
            SpawnOutcome::Spawned(h) => {
                self.process = Some(h);
                self.state = ServiceState::Running;
                Ok(())
            },
            SpawnOutcome::Failed(m) => Err(Error::Spawn(m)),
        }
    }

    /// Stops the service by applying the outcome of the termination
    /// signal.  If the service is not running, nothing changes: stopping
    /// is idempotent.  A process that was already gone counts as success.
    pub fn stop(&mut self, outcome: SignalOutcome) -> (r: Result<(), Error>)
        requires
            old(self).wf(),
        ensures
            final(self).wf(),
            (*final(self), r) == Service::spec_stop(*old(self), outcome),
    {
        if self.state != ServiceState::Running {
            return Ok(());
        }
        match outcome {
            SignalOutcome::Failed(m) => Err(Error::Signal(m)),
            _ => {
                self.process = None;
                self.state = ServiceState::Stopped;
                Ok(())
            },
        }
    }

    /// Records that the supervised process terminated without a stop
    /// having been issued: the handle is released, the service is marked
    /// crashed and the time of the observation is recorded.
    pub fn mark_crashed(&mut self, timestamp: u64)
        requires
            old(self).wf(),
            old(self).state == ServiceState::Running,
        ensures
            final(self).wf(),
            *final(self) == Service::spec_mark_crashed(*old(self), timestamp),
    {
        self.process = None;
        self.state = ServiceState::Crashed;
        self.crash_timestamp = timestamp;
    }

    /// Restarts the service: stop, then start, propagating the first
    /// error encountered.
    pub fn restart(&mut self, sig: SignalOutcome, spawn: SpawnOutcome) -> (r: Result<(), Error>)
        requires
            old(self).wf(),
        ensures
            final(self).wf(),
            (*final(self), r) == Service::spec_restart(*old(self), sig, spawn),
    {
        match self.stop(sig) {
            Err(e) => Err(e),
            Ok(_) => self.start(spawn),
        }
    }

    /// Reloads the service.  Reload is restart-as-reload: a running
    /// service is stopped and started again; one that is not running is
    /// simply started.
    pub fn reload(&mut self, sig: SignalOutcome, spawn: SpawnOutcome) -> (r: Result<(), Error>)
        requires
            old(self).wf(),
        ensures
            final(self).wf(),
            (*final(self), r) == Service::spec_restart(*old(self), sig, spawn),
    {
        if self.get_state() == ServiceState::Running {
            match self.stop(sig) {
                Err(e) => {
                    return Err(e);
                },
                Ok(_) => {},
            }
        }
        self.start(spawn)
    }

    /// Tells whether the service is due for an automatic restart at
    /// `now`.
    pub fn restart_due(&self, now: u64) -> (due: bool)
        ensures
            due == self.spec_restart_due(now),
    {
        match self.desc.restart_delay {
            Some(delay) => {
                self.state == ServiceState::Crashed && self.desc.enabled
                    && now >= self.crash_timestamp && now - self.crash_timestamp >= delay
            },
            None => false,
        }
    }
}

impl From<ServiceDescriptor> for Service {
    /// A freshly loaded service is stopped and holds no process.
    fn from(desc: ServiceDescriptor) -> (s: Service) {
        Service { desc, state: ServiceState::Stopped, process: None, crash_timestamp: 0 }
    }
}

impl vstd::std_specs::convert::FromSpecImpl<ServiceDescriptor> for Service {
    open spec fn obeys_from_spec() -> bool {
        true
    }

    open spec fn from_spec(desc: ServiceDescriptor) -> Service {
        Service::spec_from(desc)
    }
}

/// Whether some reaped exit event carries the given pid.
pub open spec fn exits_contain(exits: Seq<ExitEvent>, pid: u32) -> bool {
    exists|k: int| 0 <= k < exits.len() && (#[trigger] exits[k]).pid == pid
}

/// Whether some service of the sequence holds a handle to `pid`.
pub open spec fn seq_holds_pid(svcs: Seq<Service>, pid: u32) -> bool {
    exists|i: int|
        0 <= i < svcs.len() && (#[trigger] svcs[i]).process is Some && svcs[i].process->0.pid
            == pid
}

/// Whether the services of the sequence hold pairwise distinct pids.
pub open spec fn seq_pids_distinct(svcs: Seq<Service>) -> bool {
    forall|i: int, j: int|
        #![trigger svcs[i], svcs[j]]
        0 <= i < j < svcs.len() && svcs[i].process is Some && svcs[j].process is Some
            ==> svcs[i].process->0.pid != svcs[j].process->0.pid
}

/// What one supervision step does to one service: a running service
/// whose pid was reaped is marked crashed at `now`; every other service
/// is left untouched.  An orphan pid, matching no held handle, therefore
/// changes nothing.
pub open spec fn spec_tick_one(pre: Service, now: u64, exits: Seq<ExitEvent>) -> Service {
    if pre.process is Some && exits_contain(exits, pre.process->0.pid) {
        Service::spec_mark_crashed(pre, now)
    } else {
        pre
    }
}

/// The pid a spawn outcome would hand over, if any.
pub open spec fn spec_spawn_pid(oc: SpawnOutcome) -> Option<u32> {
    match oc {
        SpawnOutcome::Spawned(h) => Some(h.pid),
        SpawnOutcome::Failed(_) => None,
    }
}

/// What the boot-time start does to one service: enabled services are
/// started with their spawn outcome, disabled ones are left untouched.
pub open spec fn spec_boot_step(pre: Service, oc: SpawnOutcome) -> Service {
    if pre.desc.enabled {
        Service::spec_start(pre, oc).0
    } else {
        pre
    }
}

/// The spawn errors the boot-time start collects, in service order: one
/// for each enabled, not yet running service whose spawn failed.
pub open spec fn spec_boot_failures(svcs: Seq<Service>, ocs: Seq<SpawnOutcome>) -> Seq<Error>
    decreases svcs.len(),
{
    if svcs.len() == 0 || ocs.len() == 0 {
        Seq::empty()
    } else {
        let rest = spec_boot_failures(svcs.skip(1), ocs.skip(1));
        if svcs[0].desc.enabled && Service::spec_start(svcs[0], ocs[0]).1 is Err {
            seq![Service::spec_start(svcs[0], ocs[0]).1->Err_0] + rest
        } else {
            rest
        }
    }
}

/// The descriptors the discovery step keeps: the well-formed records, in
/// discovery order; malformed entries are skipped.
pub open spec fn spec_discovered(parsed: Seq<Result<ServiceDescriptor, String>>) -> Seq<
    ServiceDescriptor,
>
    decreases parsed.len(),
{
    if parsed.len() == 0 {
        Seq::empty()
    } else {
        let rest = spec_discovered(parsed.skip(1));
        match parsed[0] {
            Ok(d) => if d.wf() {
                seq![d] + rest
            } else {
                rest
            },
            Err(_) => rest,
        }
    }
}

/// The entries the discovery step rejects, in discovery order: the
/// per-entry parse failures and the records without a name.
pub open spec fn spec_rejected(parsed: Seq<Result<ServiceDescriptor, String>>) -> Seq<
    Result<ServiceDescriptor, String>,
>
    decreases parsed.len(),
{
    if parsed.len() == 0 {
        Seq::empty()
    } else {
        let rest = spec_rejected(parsed.skip(1));
        match parsed[0] {
            Ok(d) => if d.wf() {
                rest
            } else {
                seq![parsed[0]] + rest
            },
            Err(_) => seq![parsed[0]] + rest,
        }
    }
}

/// Finds the first exit event carrying `pid`, if any.
fn exits_match(exits: &Vec<ExitEvent>, pid: u32) -> (found: bool)
    ensures
        found == exits_contain(exits@, pid),
{
    let n = exits.len();
    let mut k: usize = 0;
    while k < n
        invariant
            k <= n,
            n == exits@.len(),
            forall|j: int| 0 <= j < k ==> (#[trigger] exits@[j]).pid != pid,
        decreases n - k,
    {
        if exits[k].pid == pid {
            return true;
        }
        k += 1;
    }
    false
}

/// The services manager: the owner of the service set and the home of
/// the supervision step.
pub struct Manager {
    /// The list of services, in discovery order.
    pub services: Vec<Service>,
}

impl Manager {
    /// The manager invariant: every service is well formed, and no two
    /// services hold a handle to the same live process.
    pub open spec fn wf(&self) -> bool {
        &&& forall|i: int|
            0 <= i < self.services@.len() ==> (#[trigger] self.services@[i]).wf()
        &&& seq_pids_distinct(self.services@)
    }

    /// Whether some service currently holds a handle to `pid`.
    pub open spec fn spec_holds_pid(&self, pid: u32) -> bool {
        seq_holds_pid(self.services@, pid)
    }

    /// Keeps the well-formed records of the per-entry results of the
    /// descriptor source and turns the rest into reported errors: one
    /// malformed descriptor fails that single entry without aborting
    /// discovery of the others.
    pub fn discover(parsed: Vec<Result<ServiceDescriptor, String>>) -> (r: (
        Vec<ServiceDescriptor>,
        Vec<Error>,
    ))
        ensures
            r.0@ == spec_discovered(parsed@),
            r.1@.len() == spec_rejected(parsed@).len(),
            forall|k: int|
                0 <= k < r.1@.len() ==> match spec_rejected(parsed@)[k] {
                    Ok(d) => (#[trigger] r.1@[k]) matches Error::DescriptorParse(m)
                        && m@ == "service descriptor has an empty name"@,
                    Err(m) => r.1@[k] == Error::DescriptorParse(m),
                },
            forall|i: int| 0 <= i < r.0@.len() ==> (#[trigger] r.0@[i]).wf(),
    {
        let ghost all = parsed@;
        let mut rest = parsed;
        let mut descs: Vec<ServiceDescriptor> = Vec::new();
        let mut errors: Vec<Error> = Vec::new();
        proof {
            assert(all.skip(0) =~= all);
        }
        let ghost done: int = 0;
        while rest.len() > 0
            invariant
                0 <= done <= all.len(),
                rest@ == all.skip(done),
                descs@ + spec_discovered(rest@) =~= spec_discovered(all),
                errors@.len() + spec_rejected(rest@).len() == spec_rejected(all).len(),
                forall|k: int|
                    0 <= k < errors@.len() ==> match spec_rejected(all)[k] {
                        Ok(d) => (#[trigger] errors@[k]) matches Error::DescriptorParse(m)
                            && m@ == "service descriptor has an empty name"@,
                        Err(m) => errors@[k] == Error::DescriptorParse(m),
                    },
                forall|k: int|
                    errors@.len() <= k < spec_rejected(all).len()
                        ==> #[trigger] spec_rejected(all)[k] == spec_rejected(rest@)[k - errors@.len()],
                forall|i: int| 0 <= i < descs@.len() ==> (#[trigger] descs@[i]).wf(),
            decreases rest@.len(),
        {
            let ghost pre_rest = rest@;
            let entry = rest.remove(0);
            proof {
                assert(pre_rest.skip(1) =~= rest@);
                assert(all.skip(done + 1) =~= rest@);
            }
            match entry {
                Ok(d) => {
                    if d.name.as_str().is_empty() {
                        errors.push(
                            Error::DescriptorParse(
                                String::from_str("service descriptor has an empty name"),
                            ),
                        );
                    } else {
                        descs.push(d);
                    }
                },
                Err(m) => {
                    errors.push(Error::DescriptorParse(m));
                },
            }
            proof {
                done = done + 1;
            }
        }
        proof {
            assert(rest@ =~= Seq::<Result<ServiceDescriptor, String>>::empty());
            assert(descs@ =~= spec_discovered(all));
        }
        (descs, errors)
    }

    /// Creates a manager owning one freshly constructed, stopped service
    /// per descriptor, in discovery order.
    pub fn new(descs: Vec<ServiceDescriptor>) -> (m: Manager)
        requires
            forall|i: int| 0 <= i < descs@.len() ==> (#[trigger] descs@[i]).wf(),
        ensures
            m.wf(),
            m.services@.len() == descs@.len(),
            forall|i: int|
                0 <= i < descs@.len() ==> m.services@[i] == Service::spec_from(
                    #[trigger] descs@[i],
                ),
    {
        let ghost all = descs@;
        let mut rest = descs;
        let mut services: Vec<Service> = Vec::new();
        proof {
            assert(all.skip(0) =~= all);
        }
        while rest.len() > 0
            invariant
                services@.len() + rest@.len() == all.len(),
                rest@ == all.skip(services@.len() as int),
                forall|i: int| 0 <= i < all.len() ==> (#[trigger] all[i]).wf(),
                forall|i: int|
                    0 <= i < services@.len() ==> services@[i] == Service::spec_from(
                        #[trigger] all[i],
                    ),
            decreases rest@.len(),
        {
            let ghost pre_rest = rest@;
            let ghost k = services@.len() as int;
            let d = rest.remove(0);
            proof {
                assert(pre_rest.skip(1) =~= rest@);
                assert(all.skip(k).skip(1) =~= all.skip(k + 1));
                assert(d == all[k]);
            }
            services.push(Service::from(d));
        }
        let m = Manager { services };
        proof {
            assert forall|i: int| 0 <= i < m.services@.len() implies (
            #[trigger] m.services@[i]).wf() by {
                assert(m.services@[i] == Service::spec_from(all[i]));
            }
            assert forall|i: int| 0 <= i < m.services@.len() implies (
            #[trigger] m.services@[i]).process is None by {
                assert(m.services@[i] == Service::spec_from(all[i]));
            }
        }
        m
    }

    /// Returns an immutable reference to the list of services.
    pub fn get_services(&self) -> (services: &Vec<Service>)
        ensures
            services == &self.services,
    {
        &self.services
    }

    /// Correlates a reaped pid with the service holding its handle,
    /// returning the service's index.  `None` means no service owns the
    /// pid: the reaped process was an orphan.
    pub fn get_service(&self, pid: u32) -> (found: Option<usize>)
        ensures
            match found {
                Some(i) => i < self.services@.len() && self.services@[i as int].process is Some
                    && self.services@[i as int].process->0.pid == pid,
                None => !self.spec_holds_pid(pid),
            },
    {
        let n = self.services.len();
        let mut i: usize = 0;
        while i < n
            invariant
                i <= n,
                n == self.services@.len(),
                forall|j: int|
                    0 <= j < i ==> !((#[trigger] self.services@[j]).process is Some
                        && self.services@[j].process->0.pid == pid),
            decreases n - i,
        {
            let matches_pid = match &self.services[i].process {
                Some(h) => h.pid == pid,
                None => false,
            };
            if matches_pid {
                return Some(i);
            }
            i += 1;
        }
        None
    }

    /// Starts the service at index `i` by applying a spawn outcome, as
    /// `Service::start` does; every other service is left untouched.  A
    /// freshly spawned pid must not collide with a held one: the manager
    /// never aliases two services to the same live process.
    pub fn start_service(&mut self, i: usize, outcome: SpawnOutcome) -> (r: Result<(), Error>)
        requires
            old(self).wf(),
            i < old(self).services@.len(),
            outcome matches SpawnOutcome::Spawned(h) ==> !old(self).spec_holds_pid(h.pid),
        ensures
            final(self).wf(),
            final(self).services@.len() == old(self).services@.len(),
            forall|j: int|
                0 <= j < old(self).services@.len() && j != i ==> final(self).services@[j] == old(
                    self,
                ).services@[j],
            (final(self).services@[i as int], r) == Service::spec_start(
                old(self).services@[i as int],
                outcome,
            ),
    {
        let ghost pid_of_outcome = spec_spawn_pid(outcome);
        let r = self.services[i].start(outcome);
        proof {
            let pre = old(self).services@;
            let post = self.services@;
            assert forall|a: int, b: int|
                #![trigger post[a], post[b]]
                0 <= a < b < post.len() && post[a].process is Some && post[b].process is Some
                    implies post[a].process->0.pid != post[b].process->0.pid by {
                if a != i && b != i {
                    assert(post[a] == pre[a] && post[b] == pre[b]);
                } else {
                    let other: int = if a == i {
                        b
                    } else {
                        a
                    };
                    assert(post[other] == pre[other]);
                    if post[i as int] != pre[i as int] {
                        // The service actually took a fresh handle.
                        assert(pid_of_outcome == Some(post[i as int].process->0.pid));
                        assert(!old(self).spec_holds_pid(post[i as int].process->0.pid));
                    }
                }
            }
        }
        r
    }

    /// The supervision step.  The runtime drains its non-blocking wait
    /// until nothing is left and hands the whole batch of reaped
    /// children in: every running service whose pid was reaped is marked
    /// crashed at `now`, orphans change nothing, and the returned
    /// indices are exactly the services that are then due for an
    /// automatic restart.  The step itself never fails and never starts
    /// a process: the runtime performs the requested spawns and applies
    /// their outcomes through `start_service`.
    pub fn tick(&mut self, now: u64, exits: &Vec<ExitEvent>) -> (restarts: Vec<usize>)
        requires
            old(self).wf(),
        ensures
            final(self).wf(),
            final(self).services@.len() == old(self).services@.len(),
            forall|i: int|
                0 <= i < old(self).services@.len() ==> final(self).services@[i] == spec_tick_one(
                    #[trigger] old(self).services@[i],
                    now,
                    exits@,
                ),
            forall|i: usize|
                i < old(self).services@.len() ==> (restarts@.contains(i)
                    <==> final(self).services@[i as int].spec_restart_due(now)),
            forall|k: int|
                0 <= k < restarts@.len() ==> (#[trigger] restarts@[k])
                    < old(self).services@.len(),
    {
        let ghost pre = old(self).services@;
        let n = self.services.len();

        // Classify every reaped child: a running service whose pid was
        // reaped crashed; a pid owned by nobody was an orphan, reaped
        // and discarded.
        let mut i: usize = 0;
        while i < n
            invariant
                i <= n,
                n == pre.len(),
                self.services@.len() == n,
                forall|j: int| 0 <= j < n ==> (#[trigger] pre[j]).wf(),
                seq_pids_distinct(pre),
                forall|j: int| i <= j < n ==> #[trigger] self.services@[j] == pre[j],
                forall|j: int|
                    0 <= j < i ==> #[trigger] self.services@[j] == spec_tick_one(
                        pre[j],
                        now,
                        exits@,
                    ),
            decreases n - i,
        {
            let reaped = match &self.services[i].process {
                Some(h) => exits_match(exits, h.pid),
                None => false,
            };
            if reaped {
                self.services[i].mark_crashed(now);
            }
            i += 1;
        }

        proof {
            assert forall|a: int, b: int|
                #![trigger self.services@[a], self.services@[b]]
                0 <= a < b < n && self.services@[a].process is Some
                    && self.services@[b].process is Some implies self.services@[a].process->0.pid
                != self.services@[b].process->0.pid by {
                assert(self.services@[a] == spec_tick_one(pre[a], now, exits@));
                assert(self.services@[b] == spec_tick_one(pre[b], now, exits@));
            }
        }

        // List the crashed services whose restart cooldown has elapsed;
        // the runtime spawns them and applies the outcomes.
        let mut restarts: Vec<usize> = Vec::new();
        let ghost mid = self.services@;
        let mut i: usize = 0;
        while i < n
            invariant
                i <= n,
                n == mid.len(),
                self.services@ == mid,
                forall|j: usize|
                    j < i ==> (restarts@.contains(j) <==> (#[trigger] mid[j as int]).spec_restart_due(
                        now,
                    )),
                forall|k: int| 0 <= k < restarts@.len() ==> (#[trigger] restarts@[k]) < i,
            decreases n - i,
        {
            if self.services[i].restart_due(now) {
                let ghost old_restarts = restarts@;
                restarts.push(i);
                proof {
                    assert forall|j: usize| j < i + 1 implies (restarts@.contains(j) <==> (
                    #[trigger] mid[j as int]).spec_restart_due(now)) by {
                        if j < i {
                            assert(restarts@.contains(j) <==> old_restarts.contains(j) || j == i)
                                by {
                                if old_restarts.contains(j) {
                                    let w = choose|w: int|
                                        0 <= w < old_restarts.len() && old_restarts[w] == j;
                                    assert(restarts@[w] == j);
                                }
                                if restarts@.contains(j) {
                                    let w = choose|w: int|
                                        0 <= w < restarts@.len() && restarts@[w] == j;
                                    if w < old_restarts.len() {
                                        assert(old_restarts[w] == j);
                                    }
                                }
                            }
                        } else {
                            assert(restarts@[restarts@.len() - 1] == i);
                        }
                    }
                }
            } else {
                proof {
                    assert forall|j: usize| j < i + 1 implies (restarts@.contains(j) <==> (
                    #[trigger] mid[j as int]).spec_restart_due(now)) by {
                        if j == i {
                            assert(!mid[j as int].spec_restart_due(now));
                        }
                    }
                }
            }
            i += 1;
        }
        restarts
    }

    /// Boot-time startup: starts every enabled service with its spawn
    /// outcome, in order.  A start failure for one service is collected
    /// and does not abort the startup of the others.  Freshly spawned
    /// pids must be pairwise distinct and must not collide with held
    /// ones.
    pub fn start_enabled(&mut self, outcomes: Vec<SpawnOutcome>) -> (failures: Vec<Error>)
        requires
            old(self).wf(),
            outcomes@.len() == old(self).services@.len(),
            forall|a: int, b: int|
                #![trigger outcomes@[a], outcomes@[b]]
                0 <= a < b < outcomes@.len() && spec_spawn_pid(outcomes@[a]) is Some
                    && spec_spawn_pid(outcomes@[b]) is Some
                    ==> spec_spawn_pid(outcomes@[a]) != spec_spawn_pid(outcomes@[b]),
            forall|a: int|
                0 <= a < outcomes@.len() && (#[trigger] spec_spawn_pid(outcomes@[a])) is Some
                    ==> !seq_holds_pid(old(self).services@, spec_spawn_pid(outcomes@[a])->0),
        ensures
            final(self).wf(),
            final(self).services@.len() == old(self).services@.len(),
            forall|i: int|
                0 <= i < old(self).services@.len() ==> final(self).services@[i] == spec_boot_step(
                    #[trigger] old(self).services@[i],
                    outcomes@[i],
                ),
            failures@ == spec_boot_failures(old(self).services@, outcomes@),
    {
        let ghost pre = old(self).services@;
        let ghost all_ocs = outcomes@;
        let n = self.services.len();
        let mut rest = outcomes;
        let mut failures: Vec<Error> = Vec::new();
        let mut i: usize = 0;
        proof {
            assert(pre.skip(0) =~= pre);
            assert(all_ocs.skip(0) =~= all_ocs);
        }
        while i < n
            invariant
                i <= n,
                n == pre.len(),
                self.services@.len() == n,
                all_ocs.len() == n,
                rest@ == all_ocs.skip(i as int),
                forall|a: int, b: int|
                    #![trigger all_ocs[a], all_ocs[b]]
                    0 <= a < b < n && spec_spawn_pid(all_ocs[a]) is Some && spec_spawn_pid(
                        all_ocs[b],
                    ) is Some ==> spec_spawn_pid(all_ocs[a]) != spec_spawn_pid(all_ocs[b]),
                forall|a: int|
                    0 <= a < n && (#[trigger] spec_spawn_pid(all_ocs[a])) is Some ==> !seq_holds_pid(
                        pre,
                        spec_spawn_pid(all_ocs[a])->0,
                    ),
                forall|j: int| 0 <= j < n ==> (#[trigger] pre[j]).wf(),
                seq_pids_distinct(pre),
                forall|j: int| i <= j < n ==> #[trigger] self.services@[j] == pre[j],
                forall|j: int|
                    0 <= j < i ==> #[trigger] self.services@[j] == spec_boot_step(
                        pre[j],
                        all_ocs[j],
                    ),
                forall|j: int| 0 <= j < n ==> (#[trigger] self.services@[j]).wf(),
                seq_pids_distinct(self.services@),
                failures@ + spec_boot_failures(pre.skip(i as int), rest@) =~= spec_boot_failures(
                    pre,
                    all_ocs,
                ),
            decreases n - i,
        {
            let ghost pre_rest = rest@;
            let ghost mid = self.services@;
            let oc = rest.remove(0);
            proof {
                assert(pre_rest.skip(1) =~= rest@);
                assert(all_ocs.skip(i as int).skip(1) =~= all_ocs.skip(i as int + 1));
                assert(oc == all_ocs[i as int]);
                assert(pre.skip(i as int).skip(1) =~= pre.skip(i as int + 1));
                assert(pre.skip(i as int)[0] == pre[i as int]);
            }
            let enabled = self.services[i].is_enabled();
            if enabled {
                let r = self.services[i].start(oc);
                proof {
                    lemma_start_enabled_step(pre, all_ocs, mid, self.services@, i as int);
                }
                match r {
                    Err(e) => {
                        failures.push(e);
                    },
                    Ok(_) => {},
                }
            }
            i += 1;
        }
        failures
    }
}

/// What a sequence of supervision steps, each with its time and its
/// batch of reaped children, does to one service.
pub open spec fn spec_run_ticks(s: Service, ticks: Seq<(u64, Seq<ExitEvent>)>) -> Service
    decreases ticks.len(),
{
    if ticks.len() == 0 {
        s
    } else {
        spec_run_ticks(spec_tick_one(s, ticks[0].0, ticks[0].1), ticks.skip(1))
    }
}

/// Law: stopping is idempotent.  Stopping a service that is not crashed
/// with a signal that reaches the process (or finds it already gone)
/// leaves it stopped without an error, and a second stop, whatever the
/// runtime reports for it, succeeds again, changes nothing, and leaves
/// it stopped: with no handle held there is nothing left to signal.
pub proof fn lemma_stop_idempotent(s: Service, first: SignalOutcome, second: SignalOutcome)
    requires
        s.wf(),
        s.state != ServiceState::Crashed,
        !(first is Failed),
    ensures
        ({
            let once = Service::spec_stop(s, first);
            let twice = Service::spec_stop(once.0, second);
            &&& once.1 == Ok::<(), Error>(())
            &&& once.0.state == ServiceState::Stopped
            &&& twice.1 == Ok::<(), Error>(())
            &&& twice.0 == once.0
            &&& twice.0.state == ServiceState::Stopped
        }),
{
}

/// Law: starting a running service is a no-op.  The held handle is not
/// replaced, the crash timestamp does not change, and no error is
/// reported, whatever the spawn outcome was.
pub proof fn lemma_start_while_running_noop(s: Service, outcome: SpawnOutcome)
    requires
        s.state == ServiceState::Running,
    ensures
        Service::spec_start(s, outcome).0 == s,
        Service::spec_start(s, outcome).1 == Ok::<(), Error>(()),
{
}

/// Law: crash classification.  A running service whose pid shows up
/// among the reaped children is marked crashed, with the crash timestamp
/// set to the time of the observing step; a service whose held pid was
/// not reaped — in particular every service, when the reaped pid was an
/// orphan owned by nobody — is left exactly as it was.
pub proof fn lemma_tick_classification(s: Service, now: u64, exits: Seq<ExitEvent>)
    requires
        s.wf(),
    ensures
        s.state == ServiceState::Running && exits_contain(exits, s.process->0.pid)
            ==> spec_tick_one(s, now, exits) == Service::spec_mark_crashed(s, now)
            && spec_tick_one(s, now, exits).state == ServiceState::Crashed
            && spec_tick_one(s, now, exits).crash_timestamp == now,
        !(s.process is Some && exits_contain(exits, s.process->0.pid))
            ==> spec_tick_one(s, now, exits) == s,
{
}

/// Law: restart cooldown.  A crashed, enabled service with a configured
/// restart delay is not due for an automatic restart at any time before
/// the delay has elapsed since its crash, and is due at every time from
/// that point on.  A supervision step never touches it meanwhile: it
/// holds no pid that could be reaped.
pub proof fn lemma_restart_cooldown(s: Service, now: u64, exits: Seq<ExitEvent>)
    requires
        s.wf(),
        s.state == ServiceState::Crashed,
        s.desc.enabled,
        s.desc.restart_delay is Some,
    ensures
        now < s.crash_timestamp + s.desc.restart_delay->0 ==> !s.spec_restart_due(now),
        now >= s.crash_timestamp + s.desc.restart_delay->0 ==> s.spec_restart_due(now),
        spec_tick_one(s, now, exits) == s,
{
}

/// Law: no restart without a delay.  A crashed service with no
/// configured restart delay is never due for an automatic restart and
/// stays crashed, unchanged, across arbitrarily many supervision steps;
/// only a manual start or restart can bring it back.
pub proof fn lemma_no_restart_without_delay(s: Service, ticks: Seq<(u64, Seq<ExitEvent>)>)
    requires
        s.wf(),
        s.state == ServiceState::Crashed,
        s.desc.restart_delay is None,
    ensures
        spec_run_ticks(s, ticks) == s,
        forall|now: u64| !s.spec_restart_due(now),
    decreases ticks.len(),
{
    if ticks.len() > 0 {
        assert(spec_tick_one(s, ticks[0].0, ticks[0].1) == s);
        lemma_no_restart_without_delay(s, ticks.skip(1));
    }
}

/// After the boot-time start of service `i`, the services still hold
/// pairwise distinct pids: a service keeps its old pid or takes the
/// fresh pid of its own spawn outcome, and those never collide.
proof fn lemma_start_enabled_step(
    pre: Seq<Service>,
    ocs: Seq<SpawnOutcome>,
    mid: Seq<Service>,
    post: Seq<Service>,
    i: int,
)
    requires
        pre.len() == ocs.len(),
        mid.len() == pre.len(),
        post.len() == pre.len(),
        0 <= i < pre.len(),
        seq_pids_distinct(pre),
        forall|a: int, b: int|
            #![trigger ocs[a], ocs[b]]
            0 <= a < b < ocs.len() && spec_spawn_pid(ocs[a]) is Some && spec_spawn_pid(
                ocs[b],
            ) is Some ==> spec_spawn_pid(ocs[a]) != spec_spawn_pid(ocs[b]),
        forall|a: int|
            0 <= a < ocs.len() && (#[trigger] spec_spawn_pid(ocs[a])) is Some ==> !seq_holds_pid(
                pre,
                spec_spawn_pid(ocs[a])->0,
            ),
        forall|j: int| i <= j < pre.len() ==> #[trigger] mid[j] == pre[j],
        forall|j: int| 0 <= j < i ==> #[trigger] mid[j] == spec_boot_step(pre[j], ocs[j]),
        forall|j: int| 0 <= j < pre.len() && j != i ==> #[trigger] post[j] == mid[j],
        post[i] == Service::spec_start(pre[i], ocs[i]).0,
    ensures
        seq_pids_distinct(post),
{
    assert forall|j: int|
        0 <= j < post.len() && (#[trigger] post[j]).process is Some implies (pre[j].process is Some
        && post[j].process->0.pid == pre[j].process->0.pid) || spec_spawn_pid(ocs[j]) == Some(
        post[j].process->0.pid,
    ) by {
        if j < i {
            assert(post[j] == spec_boot_step(pre[j], ocs[j]));
        } else if j == i {
            assert(post[j] == Service::spec_start(pre[j], ocs[j]).0);
        } else {
            assert(post[j] == pre[j]);
        }
    }
    assert forall|a: int, b: int|
        #![trigger post[a], post[b]]
        0 <= a < b < post.len() && post[a].process is Some
            && post[b].process is Some implies post[a].process->0.pid != post[b].process->0.pid by {
        let pa = post[a].process->0.pid;
        let pb = post[b].process->0.pid;
        let a_old = pre[a].process is Some && pa == pre[a].process->0.pid;
        let b_old = pre[b].process is Some && pb == pre[b].process->0.pid;
        if a_old && b_old {
            assert(pa != pb);
        } else if a_old && !b_old {
            assert(spec_spawn_pid(ocs[b]) == Some(pb));
            assert(seq_holds_pid(pre, pa));
            assert(pa != pb);
        } else if !a_old && b_old {
            assert(spec_spawn_pid(ocs[a]) == Some(pa));
            assert(seq_holds_pid(pre, pb));
            assert(pa != pb);
        } else {
            assert(spec_spawn_pid(ocs[a]) == Some(pa));
            assert(spec_spawn_pid(ocs[b]) == Some(pb));
            assert(pa != pb);
        }
    }
}

} // verus!

