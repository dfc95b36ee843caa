//! The state the Bluetooth backend keeps between the turns of its loop, and
//! how every event changes it: the refresh interval the timer runs at,
//! whether a discovery task runs, whether the adapter is scanning, and the
//! list of nearby devices discovery has found.

use vstd::prelude::*;
use crate::bluetooth::{
    discovery_action, fresh_entries, is_fresh, law_nearby_list_well_kept,
    law_upsert_nearby_keeps_others, law_upsert_nearby_single_entry, law_without_address_keeps_others,
    nearby_well_kept, prune_nearby, remove_nearby, upsert_nearby,
    without_address, DiscoveredDevice, DiscoveryAction,
};
use crate::config::{effective_refresh_secs, effective_refresh_secs_spec, refresh_timer_update};
use crate::sorting::stable_sorted;

verus! {

/// Something that happens to the backend.
#[derive(Debug)]
pub enum BackendEvent {
    /// The loop read the configured refresh interval, in seconds, at the
    /// top of a turn.
    ConfigRead(u64),
    /// The refresh timer fired and the device list was refreshed; the
    /// monotonic clock reads this many milliseconds.
    Tick(u64),
    /// The UI asked to start discovery.
    StartDiscovery,
    /// The UI asked to stop discovery.
    StopDiscovery,
    /// Discovery found a device, or heard from it again.
    Found(DiscoveredDevice),
    /// Discovery reports the device with this address gone.
    Gone(String),
    /// The discovery task could not start discovering.
    DiscoveryFailed,
}

/// What the loop has to do after an event.
#[derive(Debug, PartialEq, Eq, Structural)]
pub enum BackendAction {
    Nothing,
    /// Restart the refresh timer at this interval, in seconds.
    RestartTimer(u64),
    /// Start the discovery task and note when the scan started.
    SpawnDiscovery,
    /// Abort the running discovery task.
    AbortDiscovery,
}

/// The backend's state between the turns of its loop.
pub struct Backend {
    interval_secs: u64,
    task_running: bool,
    scanning: bool,
    nearby: Vec<DiscoveredDevice>,
}

/// Mathematical picture of a [`Backend`].
pub struct BackendModel {
    pub interval_secs: u64,
    pub task_running: bool,
    pub scanning: bool,
    pub nearby: Seq<DiscoveredDevice>,
}

impl View for Backend {
    type V = BackendModel;

    closed spec fn view(&self) -> BackendModel {
        BackendModel {
            interval_secs: self.interval_secs,
            task_running: self.task_running,
            scanning: self.scanning,
            nearby: self.nearby@,
        }
    }
}

/// The backend when its loop starts: the timer runs at the configured
/// interval (at least one second), no discovery, nothing nearby.
pub open spec fn backend_initial(configured: u64) -> BackendModel {
    BackendModel {
        interval_secs: effective_refresh_secs_spec(configured),
        task_running: false,
        scanning: false,
        nearby: Seq::empty(),
    }
}

/// The backend after an event.
pub open spec fn backend_after(m: BackendModel, e: BackendEvent) -> BackendModel {
    match e {
        BackendEvent::ConfigRead(c) => BackendModel { interval_secs: effective_refresh_secs_spec(c), ..m },
        BackendEvent::Tick(now_ms) => BackendModel { nearby: fresh_entries(m.nearby, now_ms), ..m },
        BackendEvent::StartDiscovery => if m.task_running {
            m
        } else {
            BackendModel { task_running: true, scanning: true, ..m }
        },
        BackendEvent::StopDiscovery => BackendModel {
            task_running: false,
            scanning: false,
            nearby: Seq::empty(),
            ..m
        },
        BackendEvent::Found(d) => BackendModel {
            nearby: stable_sorted(without_address(m.nearby, d.address@).push(d)),
            ..m
        },
        BackendEvent::Gone(a) => BackendModel { nearby: without_address(m.nearby, a@), ..m },
        BackendEvent::DiscoveryFailed => BackendModel { scanning: false, ..m },
    }
}

/// What the loop has to do after an event.
pub open spec fn backend_action(m: BackendModel, e: BackendEvent) -> BackendAction {
    match e {
        BackendEvent::ConfigRead(c) => if effective_refresh_secs_spec(c) != m.interval_secs {
            BackendAction::RestartTimer(effective_refresh_secs_spec(c))
        } else {
            BackendAction::Nothing
        },
        BackendEvent::StartDiscovery => if m.task_running {
            BackendAction::Nothing
        } else {
            BackendAction::SpawnDiscovery
        },
        BackendEvent::StopDiscovery => if m.task_running {
            BackendAction::AbortDiscovery
        } else {
            BackendAction::Nothing
        },
        _ => BackendAction::Nothing,
    }
}

impl Backend {
    /// The backend when its loop starts, with the configured interval.
    pub fn new(configured: u64) -> (b: Backend)
        ensures
            b@ == backend_initial(configured),
    {
        let b = Backend {
            interval_secs: effective_refresh_secs(configured),
            task_running: false,
            scanning: false,
            nearby: Vec::new(),
        };
        assert(b@.nearby =~= Seq::<DiscoveredDevice>::empty());
        b
    }

    /// The interval the refresh timer runs at, in seconds.
    pub fn interval_secs(&self) -> (s: u64)
        ensures
            s == self@.interval_secs,
    {
        self.interval_secs
    }

    /// Whether the adapter is scanning.
    pub fn scanning(&self) -> (b: bool)
        ensures
            b == self@.scanning,
    {
        self.scanning
    }

    /// The devices discovery has found, strongest signal first.
    pub fn nearby(&self) -> (n: &Vec<DiscoveredDevice>)
        ensures
            n@ == self@.nearby,
    {
        &self.nearby
    }

    /// Applies an event and says what the loop has to do.
    pub fn apply(&mut self, e: BackendEvent) -> (a: BackendAction)
        ensures
            final(self)@ == backend_after(old(self)@, e),
            a == backend_action(old(self)@, e),
    {
        match e {
            BackendEvent::ConfigRead(c) => match refresh_timer_update(self.interval_secs, c) {
                Some(secs) => {
                    self.interval_secs = secs;
                    BackendAction::RestartTimer(secs)
                },
                None => BackendAction::Nothing,
            },
            BackendEvent::Tick(now_ms) => {
                prune_nearby(&mut self.nearby, now_ms);
                BackendAction::Nothing
            },
            BackendEvent::StartDiscovery => match discovery_action(self.task_running, true) {
                DiscoveryAction::Spawn => {
                    self.task_running = true;
                    self.scanning = true;
                    BackendAction::SpawnDiscovery
                },
                _ => BackendAction::Nothing,
            },
            BackendEvent::StopDiscovery => {
                let abort = match discovery_action(self.task_running, false) {
                    DiscoveryAction::Stop { abort_task } => abort_task,
                    _ => false,
                };
                self.task_running = false;
                self.scanning = false;
                self.nearby = Vec::new();
                proof {
                    assert(self.nearby@ =~= Seq::<DiscoveredDevice>::empty());
                }
                if abort {
                    BackendAction::AbortDiscovery
                } else {
                    BackendAction::Nothing
                }
            },
            BackendEvent::Found(d) => {
                upsert_nearby(&mut self.nearby, d);
                BackendAction::Nothing
            },
            BackendEvent::Gone(a) => {
                remove_nearby(&mut self.nearby, a.as_str());
                BackendAction::Nothing
            },
            BackendEvent::DiscoveryFailed => {
                self.scanning = false;
                BackendAction::Nothing
            },
        }
    }
}

/// The backend is in order: the timer never runs faster than once a
/// second, the adapter scans only while a discovery task runs, and the
/// nearby list holds one entry per address, strongest signal first.
pub open spec fn backend_well_kept(m: BackendModel) -> bool {
    &&& m.interval_secs >= 1
    &&& m.scanning ==> m.task_running
    &&& nearby_well_kept(m.nearby)
}

proof fn lemma_fresh_entries_fresh(s: Seq<DiscoveredDevice>, now_ms: u64)
    ensures
        forall|i: int| 0 <= i < fresh_entries(s, now_ms).len() ==> is_fresh(
            #[trigger] fresh_entries(s, now_ms)[i],
            now_ms,
        ),
    decreases s.len(),
{
    if s.len() > 0 {
        let t = s.drop_last();
        lemma_fresh_entries_fresh(t, now_ms);
        let rt = fresh_entries(t, now_ms);
        let r = fresh_entries(s, now_ms);
        assert forall|i: int| 0 <= i < r.len() implies is_fresh(#[trigger] r[i], now_ms) by {
            if i < rt.len() {
                assert(r[i] == rt[i]);
            }
        }
    }
}

/// The backend starts in order, with the timer at the configured interval
/// but never below one second.
pub proof fn law_backend_starts_well_kept(configured: u64)
    ensures
        backend_well_kept(backend_initial(configured)),
        backend_initial(configured).interval_secs == if configured >= 1 { configured } else { 1 },
{
}

/// Every event keeps the backend in order, and:
/// - rereading the settings sets the timer to the configured interval, but
///   never below one second, and restarts the timer exactly when that
///   changes it;
/// - a start request while a discovery task runs changes nothing and
///   starts no second task; otherwise it starts one and the adapter scans;
/// - after a stop request the adapter does not scan, no task runs, and the
///   nearby list is empty; the running task, if any, is aborted;
/// - after a tick every nearby entry was seen less than 15 seconds ago;
/// - after a device is found, the list holds it as the one entry with its
///   address; after one is gone, no entry has its address.
pub proof fn law_backend_loop(m: BackendModel, e: BackendEvent)
    requires
        backend_well_kept(m),
    ensures
        backend_well_kept(backend_after(m, e)),
        e matches BackendEvent::ConfigRead(c) ==> backend_after(m, e).interval_secs == (if c >= 1 {
            c
        } else {
            1
        }) && (backend_action(m, e) is RestartTimer <==> backend_after(m, e).interval_secs
            != m.interval_secs),
        e is StartDiscovery && m.task_running ==> backend_after(m, e) == m && backend_action(m, e)
            is Nothing,
        e is StartDiscovery && !m.task_running ==> backend_after(m, e).task_running && backend_after(
            m,
            e,
        ).scanning && backend_action(m, e) is SpawnDiscovery,
        backend_action(m, e) is SpawnDiscovery ==> !m.task_running,
        e is StopDiscovery ==> !backend_after(m, e).scanning && !backend_after(m, e).task_running
            && backend_after(m, e).nearby.len() == 0 && (backend_action(m, e) is AbortDiscovery
            <==> m.task_running),
        e matches BackendEvent::Tick(now_ms) ==> forall|i: int|
            0 <= i < backend_after(m, e).nearby.len() ==> is_fresh(
                #[trigger] backend_after(m, e).nearby[i],
                now_ms,
            ),
        e matches BackendEvent::Found(d) ==> backend_after(m, e).nearby.contains(d) && forall|i: int|
            0 <= i < backend_after(m, e).nearby.len() && (#[trigger] backend_after(m, e).nearby[i]).address@
                == d.address@ ==> backend_after(m, e).nearby[i] == d,
        e matches BackendEvent::Gone(a) ==> forall|i: int|
            0 <= i < backend_after(m, e).nearby.len() ==> (#[trigger] backend_after(
                m,
                e,
            ).nearby[i]).address@ != a@,
        e matches BackendEvent::Found(d) ==> forall|i: int|
            0 <= i < m.nearby.len() && (#[trigger] m.nearby[i]).address@ != d.address@
                ==> backend_after(m, e).nearby.contains(m.nearby[i]),
        e matches BackendEvent::Gone(a) ==> forall|i: int|
            0 <= i < m.nearby.len() && (#[trigger] m.nearby[i]).address@ != a@
                ==> backend_after(m, e).nearby.contains(m.nearby[i]),
{
    match e {
        BackendEvent::Tick(now_ms) => {
            law_nearby_list_well_kept(m.nearby, arbitrary(), Seq::empty(), now_ms);
            lemma_fresh_entries_fresh(m.nearby, now_ms);
        },
        BackendEvent::Found(d) => {
            law_nearby_list_well_kept(m.nearby, d, Seq::empty(), 0);
            law_upsert_nearby_single_entry(m.nearby, d);
            law_upsert_nearby_keeps_others(m.nearby, d);
        },
        BackendEvent::Gone(a) => {
            law_nearby_list_well_kept(m.nearby, arbitrary(), a@, 0);
            law_without_address_keeps_others(m.nearby, a@);
        },
        BackendEvent::StopDiscovery => {
            assert(nearby_well_kept(Seq::<DiscoveredDevice>::empty()));
        },
        _ => {},
    }
}

} // verus!
