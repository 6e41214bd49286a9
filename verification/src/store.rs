//! The saved tunnels and the state machine behind them: which tunnels are wanted, which have a
//! process, and which wait to be tried again.
//!
//! Every operation takes what happened and says, in the actions that it returns, what is to be done
//! about it: a process to start, one to stop, a URL to open, the tunnels to save. The outcome of a
//! start comes back through `Store::launched` or `Store::launch_failed`, the end of a process
//! through `Store::process_did_exit`. Time is counted in nanoseconds from any fixed moment.

use std::collections::{HashMap, HashSet};
use std::time::Duration;

use vstd::arithmetic::power2::{lemma2_to64, pow2};
use vstd::prelude::*;
use vstd::string::*;

use crate::model::{optional_text, PhaseModel, Tunnel, TunnelModel, TunnelPhase};
use crate::process::{describe_exit, exit_message, stderr_message, utf8_lossy};
use crate::text::{decimal, push_decimal, texts};

verus! {

broadcast use vstd::std_specs::hash::group_hash_axioms;

/// How often a tunnel is tried again before it is given up.
pub const MAX_RETRY_ATTEMPTS: u32 = 10;

/// How long a process must have lived to count as connected, in nanoseconds.
pub const CONNECT_NANOS: u64 = 450_000_000;

pub const NANOS_PER_SECOND: u64 = 1_000_000_000;

/// The seconds before a retry: one before the first, twice as many each time, never over sixty.
pub open spec fn retry_seconds(attempt: u32) -> nat {
    let doublings: nat = if attempt <= 1 {
        0
    } else if attempt >= 7 {
        6
    } else {
        (attempt - 1) as nat
    };
    if pow2(doublings) < 60 {
        pow2(doublings)
    } else {
        60
    }
}

/// The seconds before the retry with the given number.
pub fn retry_delay_seconds(attempt: u32) -> (seconds: u64)
    ensures
        seconds == retry_seconds(attempt),
{
    proof {
        lemma2_to64();
    }
    if attempt <= 1 {
        1
    } else if attempt == 2 {
        2
    } else if attempt == 3 {
        4
    } else if attempt == 4 {
        8
    } else if attempt == 5 {
        16
    } else if attempt == 6 {
        32
    } else {
        60
    }
}

/// The duration of a number of seconds: the result of `Duration::from_secs`.
pub uninterp spec fn duration_of_seconds(seconds: u64) -> Duration;

/// `Duration::from_secs`: the duration of that many whole seconds.
pub assume_specification[ Duration::from_secs ](secs: u64) -> (duration: Duration)
    ensures
        duration == duration_of_seconds(secs),
;

/// How long to wait before the retry with the given number.
pub fn retry_delay(attempt: u32) -> (delay: Duration)
    ensures
        delay == duration_of_seconds(retry_seconds(attempt) as u64),
{
    Duration::from_secs(retry_delay_seconds(attempt))
}

/// Something to be done outside: the library decides it, the program around it does it.
#[derive(Debug, PartialEq)]
pub enum Action {
    /// Open a URL in the browser.
    OpenUrl(String),
    /// Start `ssh` with these arguments for a tunnel, and report how that went.
    Launch { id: u128, arguments: Vec<String> },
    /// Ask the process of a tunnel to stop.
    Interrupt { id: u128 },
    /// Save the tunnels.
    Save,
}

/// What an action asks for.
#[verifier::ext_equal]
pub enum ActionModel {
    OpenUrl(Seq<char>),
    Launch { id: u128, arguments: Seq<Seq<char>> },
    Interrupt { id: u128 },
    Save,
}

impl View for Action {
    type V = ActionModel;

    open spec fn view(&self) -> ActionModel {
        match *self {
            Action::OpenUrl(url) => ActionModel::OpenUrl(url@),
            Action::Launch { id, arguments } => ActionModel::Launch {
                id,
                arguments: texts(arguments@),
            },
            Action::Interrupt { id } => ActionModel::Interrupt { id },
            Action::Save => ActionModel::Save,
        }
    }
}

/// What the actions of a list ask for.
pub open spec fn action_models(actions: Seq<Action>) -> Seq<ActionModel> {
    actions.map_values(|action: Action| action@)
}

/// What the tunnels of a list hold.
pub open spec fn tunnel_models(tunnels: Seq<Tunnel>) -> Seq<TunnelModel> {
    tunnels.map_values(|tunnel: Tunnel| tunnel@)
}

/// What a step of the state machine did: whether anything changed that is shown, and what is to be
/// done.
#[derive(Debug, PartialEq)]
pub struct Tick {
    pub changed: bool,
    pub actions: Vec<Action>,
}

/// A process that was started for a tunnel.
#[derive(Clone, Copy, Debug, PartialEq, Eq)]
pub struct Runtime {
    /// The number of the start, which tells this process from earlier ones of the same tunnel.
    pub generation: u64,
    /// When the process was started.
    pub started_at: u64,
    /// Whether the process has been asked to stop.
    pub stop_requested: bool,
}

/// The end of a process.
pub struct ProcessExited {
    pub id: u128,
    pub generation: u64,
    /// The exit status; none where a signal ended the process.
    pub status: Option<i32>,
    /// The end of the error output.
    pub stderr: Vec<u8>,
}

/// What was found where the tunnels are saved.
pub enum SavedTunnels {
    /// Nothing has been saved yet.
    Missing,
    /// The tunnels could not be read, for the reason given.
    Unreadable(String),
    Loaded(Vec<Tunnel>),
}

/// What a store holds.
#[verifier::ext_equal]
pub struct StoreModel {
    pub tunnels: Seq<TunnelModel>,
    pub notice: Option<Seq<char>>,
    pub phases: Map<u128, PhaseModel>,
    pub desired: Set<u128>,
    pub runtimes: Map<u128, Runtime>,
    pub retry_attempts: Map<u128, u32>,
    pub retry_deadlines: Map<u128, u128>,
    pub pending_browser: Set<u128>,
    pub next_generation: u64,
}

/// The position of the first tunnel with the given id.
pub open spec fn position_of(tunnels: Seq<TunnelModel>, id: u128) -> Option<int>
    decreases tunnels.len(),
{
    if tunnels.len() == 0 {
        None
    } else {
        match position_of(tunnels.drop_last(), id) {
            Some(i) => Some(i),
            None => if tunnels.last().id == id {
                Some(tunnels.len() - 1)
            } else {
                None
            },
        }
    }
}

/// A store after a step, and what is to be done.
#[verifier::ext_equal]
pub struct Transition {
    pub store: StoreModel,
    pub actions: Seq<ActionModel>,
}

impl Transition {
    /// The transition with one more action at its end.
    pub open spec fn and(self, action: ActionModel) -> Transition {
        Transition { actions: self.actions.push(action), ..self }
    }
}

/// What an operation did that left `store` and returned `actions`.
pub open spec fn transition(store: StoreModel, actions: Seq<Action>) -> Transition {
    Transition { store, actions: action_models(actions) }
}

/// What a tunnel that may not run is shown to have failed with.
pub open spec fn blocked_phase() -> PhaseModel {
    PhaseModel::Failed("This tunnel contains an invalid host or blocked SSH option."@)
}

/// What a tunnel that is given up is shown to have failed with.
pub open spec fn exhausted_message(message: Seq<char>) -> Seq<char> {
    message + " Automatic retry stopped after "@ + decimal(MAX_RETRY_ATTEMPTS as nat)
        + " attempts."@
}

impl StoreModel {
    /// A store with the given tunnels of which none runs.
    pub open spec fn idle(tunnels: Seq<TunnelModel>, notice: Option<Seq<char>>) -> StoreModel {
        StoreModel {
            tunnels,
            notice,
            phases: Map::empty(),
            desired: Set::empty(),
            runtimes: Map::empty(),
            retry_attempts: Map::empty(),
            retry_deadlines: Map::empty(),
            pending_browser: Set::empty(),
            next_generation: 0,
        }
    }

    /// The first tunnel with the given id.
    pub open spec fn find(self, id: u128) -> Option<TunnelModel> {
        match position_of(self.tunnels, id) {
            Some(i) => Some(self.tunnels[i]),
            None => None,
        }
    }

    /// The phase of a tunnel: stopped, unless another has been noted.
    pub open spec fn phase(self, id: u128) -> PhaseModel {
        if self.phases.contains_key(id) {
            self.phases[id]
        } else {
            PhaseModel::Stopped
        }
    }

    pub open spec fn with_phase(self, id: u128, phase: PhaseModel) -> StoreModel {
        StoreModel { phases: self.phases.insert(id, phase), ..self }
    }

    /// The tunnels that are shown as active.
    pub open spec fn active(self) -> Set<u128> {
        self.phases.dom().filter(|id: u128| self.phases[id].is_active())
    }

    /// The store as it is, with nothing to be done.
    pub open spec fn rest(self) -> Transition {
        Transition { store: self, actions: Seq::empty() }
    }

    /// Asks for a process, unless the tunnel has one or is not there.
    pub open spec fn launch(self, id: u128) -> Transition {
        if self.runtimes.contains_key(id) || self.find(id) is None {
            self.rest()
        } else {
            self.with_phase(id, PhaseModel::Starting).rest().and(
                ActionModel::Launch { id, arguments: self.find(id)->0.ssh_arguments() },
            )
        }
    }

    /// A process runs for the tunnel.
    pub open spec fn launched(self, id: u128, now: u64) -> StoreModel {
        let generation = (self.next_generation + 1) as u64;
        StoreModel {
            runtimes: self.runtimes.insert(
                id,
                Runtime { generation, started_at: now, stop_requested: false },
            ),
            next_generation: generation,
            ..self
        }
    }

    /// The number of the next retry.
    pub open spec fn next_attempt(self, id: u128) -> int {
        if self.retry_attempts.contains_key(id) {
            self.retry_attempts[id] + 1
        } else {
            1
        }
    }

    /// The tunnel failed: it is tried again later, or given up after too many attempts. One that is
    /// no longer wanted stays stopped.
    pub open spec fn schedule_retry(self, id: u128, message: Seq<char>, now: u64) -> StoreModel {
        let attempt = self.next_attempt(id);
        if !self.desired.contains(id) {
            self.with_phase(id, PhaseModel::Stopped)
        } else if attempt > MAX_RETRY_ATTEMPTS {
            StoreModel {
                desired: self.desired.remove(id),
                retry_attempts: self.retry_attempts.remove(id),
                pending_browser: self.pending_browser.remove(id),
                ..self.with_phase(
                    id,
                    PhaseModel::Failed(exhausted_message(message)),
                )
            }
        } else {
            let attempt = attempt as u32;
            StoreModel {
                retry_attempts: self.retry_attempts.insert(id, attempt),
                retry_deadlines: self.retry_deadlines.insert(
                    id,
                    (now + retry_seconds(attempt) * NANOS_PER_SECOND) as u128,
                ),
                ..self.with_phase(
                    id,
                    PhaseModel::Retrying {
                        attempt,
                        max_attempts: MAX_RETRY_ATTEMPTS,
                        delay_seconds: retry_seconds(attempt) as u64,
                        message,
                    },
                )
            }
        }
    }

    /// The tunnel is wanted, with its attempts counted afresh.
    pub open spec fn with_desired(self, id: u128) -> StoreModel {
        StoreModel {
            retry_deadlines: self.retry_deadlines.remove(id),
            desired: self.desired.insert(id),
            retry_attempts: self.retry_attempts.insert(id, 0),
            ..self
        }
    }

    /// A tunnel that is there, may run and is not wanted yet becomes wanted. Where a process of it
    /// still runs, the next one waits for its end.
    pub open spec fn start(self, id: u128) -> Transition {
        if self.desired.contains(id) || self.find(id) is None {
            self.rest()
        } else if !self.find(id)->0.is_safe_to_run() {
            self.with_phase(id, blocked_phase()).rest()
        } else if self.runtimes.contains_key(id) {
            self.with_desired(id).with_phase(id, PhaseModel::Starting).rest()
        } else {
            self.with_desired(id).launch(id)
        }
    }

    /// The tunnel is no longer wanted; its process, if it has one, is asked to stop.
    pub open spec fn stop(self, id: u128) -> Transition {
        let stopped = StoreModel {
            desired: self.desired.remove(id),
            retry_attempts: self.retry_attempts.remove(id),
            retry_deadlines: self.retry_deadlines.remove(id),
            pending_browser: self.pending_browser.remove(id),
            ..self.with_phase(id, PhaseModel::Stopped)
        };
        if self.runtimes.contains_key(id) {
            let runtime = Runtime { stop_requested: true, ..self.runtimes[id] };
            StoreModel { runtimes: self.runtimes.insert(id, runtime), ..stopped }.rest().and(
                ActionModel::Interrupt { id },
            )
        } else {
            stopped.rest()
        }
    }

    pub open spec fn toggle(self, id: u128) -> Transition {
        if self.desired.contains(id) {
            self.stop(id)
        } else {
            self.start(id)
        }
    }

    /// Opens the tunnel's URL now, if the tunnel runs, or as soon as it does.
    pub open spec fn open_in_browser(self, id: u128) -> Transition {
        if self.find(id) is None {
            self.rest()
        } else if !self.find(id)->0.is_safe_to_run() {
            self.with_phase(id, blocked_phase()).rest()
        } else if self.phase(id) is Running && self.runtimes.contains_key(id) {
            self.rest().and(ActionModel::OpenUrl(self.find(id)->0.browser_url()))
        } else {
            let pending = StoreModel { pending_browser: self.pending_browser.insert(id), ..self };
            if self.desired.contains(id) {
                pending.rest()
            } else {
                pending.start(id)
            }
        }
    }

    pub open spec fn with_tunnel(self, tunnel: TunnelModel) -> Transition {
        StoreModel { tunnels: self.tunnels.push(tunnel), ..self }.rest().and(ActionModel::Save)
    }

    /// Replaces the first tunnel with the same id, which is stopped.
    pub open spec fn update(self, tunnel: TunnelModel) -> Transition {
        match position_of(self.tunnels, tunnel.id) {
            Some(i) => {
                let stopped = self.stop(tunnel.id);
                Transition {
                    store: StoreModel {
                        tunnels: stopped.store.tunnels.update(i, tunnel),
                        ..stopped.store
                    },
                    ..stopped
                }.and(ActionModel::Save)
            },
            None => self.rest(),
        }
    }

    /// Stops a tunnel and forgets it.
    pub open spec fn delete(self, id: u128) -> Transition {
        let stopped = self.stop(id);
        Transition {
            store: StoreModel {
                tunnels: self.tunnels.filter(|tunnel: TunnelModel| tunnel.id != id),
                phases: self.phases.remove(id),
                ..stopped.store
            },
            ..stopped
        }.and(ActionModel::Save)
    }

    /// Whether the tunnel's current process is the one with this generation.
    pub open spec fn is_current(self, id: u128, generation: u64) -> bool {
        self.runtimes.contains_key(id) && self.runtimes[id].generation == generation
    }

    /// The process with this generation ended. The end of an earlier process means nothing. One
    /// that was asked to stop makes room for the next, if the tunnel is wanted again; any other end
    /// of a wanted tunnel's process is a failure.
    pub open spec fn exited(
        self,
        id: u128,
        generation: u64,
        message: Seq<char>,
        now: u64,
    ) -> Transition {
        let gone = StoreModel { runtimes: self.runtimes.remove(id), ..self };
        if !self.is_current(id, generation) {
            self.rest()
        } else if !self.desired.contains(id) {
            if self.find(id) is Some {
                gone.with_phase(id, PhaseModel::Stopped).rest()
            } else {
                StoreModel { phases: self.phases.remove(id), ..gone }.rest()
            }
        } else if self.runtimes[id].stop_requested {
            gone.launch(id)
        } else {
            gone.schedule_retry(id, message, now).rest()
        }
    }

    /// Whether a starting tunnel's process has lived long enough to count as connected.
    pub open spec fn is_connected(self, id: u128, now: u64) -> bool {
        &&& self.runtimes.contains_key(id)
        &&& self.desired.contains(id)
        &&& self.phase(id) is Starting
        &&& self.runtimes[id].started_at + CONNECT_NANOS <= now
    }

    /// The tunnels that become connected.
    pub open spec fn connected(self, now: u64) -> Set<u128> {
        Set::new(|id: u128| self.is_connected(id, now))
    }

    /// The tunnels whose time to be tried again has come.
    pub open spec fn due(self, now: u64) -> Set<u128> {
        Set::new(
            |id: u128|
                self.retry_deadlines.contains_key(id) && self.retry_deadlines[id] <= now,
        )
    }

    /// Whether a tunnel that is due gets a process: it is wanted, has none, and is there.
    pub open spec fn relaunches(self, id: u128) -> bool {
        self.desired.contains(id) && !self.runtimes.contains_key(id) && self.find(id) is Some
    }

    /// The store after the tunnels of `ids` have become connected.
    pub open spec fn promoted(self, ids: Set<u128>) -> StoreModel {
        StoreModel {
            phases: Map::new(
                |id: u128| self.phases.contains_key(id) || ids.contains(id),
                |id: u128|
                    if ids.contains(id) {
                        PhaseModel::Running
                    } else {
                        self.phases[id]
                    },
            ),
            retry_attempts: Map::new(
                |id: u128| self.retry_attempts.contains_key(id) || ids.contains(id),
                |id: u128|
                    if ids.contains(id) {
                        0
                    } else {
                        self.retry_attempts[id]
                    },
            ),
            pending_browser: self.pending_browser.difference(ids),
            ..self
        }
    }

    /// The store after the tunnels of `ids` have been tried again.
    pub open spec fn retried(self, ids: Set<u128>) -> StoreModel {
        StoreModel {
            phases: Map::new(
                |id: u128|
                    self.phases.contains_key(id) || (ids.contains(id) && self.relaunches(id)),
                |id: u128|
                    if ids.contains(id) && self.relaunches(id) {
                        PhaseModel::Starting
                    } else {
                        self.phases[id]
                    },
            ),
            retry_deadlines: self.retry_deadlines.remove_keys(ids),
            ..self
        }
    }

    /// The store after a tick.
    pub open spec fn ticked(self, now: u64) -> StoreModel {
        self.promoted(self.connected(now)).retried(self.due(now))
    }

    /// The URLs to open for tunnels that become connected, in the order of `ids`.
    pub open spec fn openings(self, ids: Seq<u128>) -> Seq<ActionModel>
        decreases ids.len(),
    {
        if ids.len() == 0 {
            Seq::empty()
        } else {
            let before = self.openings(ids.drop_last());
            if self.pending_browser.contains(ids.last()) && self.find(ids.last()) is Some {
                before.push(ActionModel::OpenUrl(self.find(ids.last())->0.browser_url()))
            } else {
                before
            }
        }
    }

    /// The processes to start for tunnels that are due, in the order of `ids`.
    pub open spec fn relaunchings(self, ids: Seq<u128>) -> Seq<ActionModel>
        decreases ids.len(),
    {
        if ids.len() == 0 {
            Seq::empty()
        } else {
            let before = self.relaunchings(ids.drop_last());
            let id = ids.last();
            if self.relaunches(id) {
                before.push(
                    ActionModel::Launch { id, arguments: self.find(id)->0.ssh_arguments() },
                )
            } else {
                before
            }
        }
    }

    /// Whether `actions` are what a tick at `now` asks for: the URLs of the tunnels that become
    /// connected, and then the processes of those that are due, each in some order.
    pub open spec fn are_tick_actions(self, now: u64, actions: Seq<ActionModel>) -> bool {
        exists|connected: Seq<u128>, due: Seq<u128>|
            #![trigger self.openings(connected), self.relaunchings(due)]
            {
                &&& is_listing(connected, self.connected(now))
                &&& is_listing(due, self.due(now))
                &&& actions == self.openings(connected) + self.relaunchings(due)
            }
    }

    /// Whether a tick at `now` changes what is shown of a tunnel.
    pub open spec fn tick_moves(self, id: u128, now: u64) -> bool {
        self.is_connected(id, now) || (self.due(now).contains(id) && self.desired.contains(id))
    }

    /// Whether a tick at `now` changes what is shown.
    pub open spec fn tick_changes(self, now: u64) -> bool {
        exists|id: u128| #[trigger] self.tick_moves(id, now)
    }

    /// The store when everything has been told to stop.
    pub open spec fn shut_down(self) -> StoreModel {
        StoreModel {
            desired: Set::empty(),
            retry_deadlines: Map::empty(),
            pending_browser: Set::empty(),
            runtimes: Map::empty(),
            ..self
        }
    }

    /// No tunnel has been tried more often than allowed.
    pub open spec fn attempts_bounded(self) -> bool {
        forall|id: u128| #[trigger]
            self.retry_attempts.contains_key(id) ==> self.retry_attempts[id] <= MAX_RETRY_ATTEMPTS
    }
}

/// Whether a sequence holds each element of a set once, and nothing else.
pub open spec fn is_listing(list: Seq<u128>, set: Set<u128>) -> bool {
    list.no_duplicates() && list.to_set() == set
}

/// A store with the tunnels that were saved, none of which runs.
pub open spec fn loaded(saved: SavedTunnels) -> StoreModel {
    match saved {
        SavedTunnels::Missing => StoreModel::idle(Seq::empty(), None),
        SavedTunnels::Unreadable(error) => StoreModel::idle(
            Seq::empty(),
            Some("Could not read saved tunnels: "@ + error@),
        ),
        SavedTunnels::Loaded(tunnels) => StoreModel::idle(tunnel_models(tunnels@), None),
    }
}

/// What is told when the tunnels could not be saved.
pub open spec fn save_notice(error: Seq<char>) -> Seq<char> {
    "Could not save tunnels: "@ + error
}

/// What is told when a URL could not be opened.
pub open spec fn open_notice(url: Seq<char>, error: Seq<char>) -> Seq<char> {
    "Could not open "@ + url + ": "@ + error
}

/// A request to stop for each process of a list.
pub open spec fn interruptions(ids: Seq<u128>) -> Seq<ActionModel> {
    ids.map_values(|id: u128| ActionModel::Interrupt { id })
}

/// The saved tunnels and what is known of their processes.
pub struct Store {
    tunnels: Vec<Tunnel>,
    /// What went wrong last, for display.
    notice: Option<String>,
    phases: HashMap<u128, TunnelPhase>,
    desired: HashSet<u128>,
    runtimes: HashMap<u128, Runtime>,
    retry_attempts: HashMap<u128, u32>,
    retry_deadlines: HashMap<u128, u128>,
    pending_browser: HashSet<u128>,
    next_generation: u64,
}

impl View for Store {
    type V = StoreModel;

    closed spec fn view(&self) -> StoreModel {
        StoreModel {
            tunnels: tunnel_models(self.tunnels@),
            notice: optional_text(self.notice),
            phases: self.phases@.map_values(|phase: TunnelPhase| phase@),
            desired: self.desired@,
            runtimes: self.runtimes@,
            retry_attempts: self.retry_attempts@,
            retry_deadlines: self.retry_deadlines@,
            pending_browser: self.pending_browser@,
            next_generation: self.next_generation,
        }
    }
}

/// The keys of a map, in some order.
fn keys_of<V>(map: &HashMap<u128, V>) -> (keys: Vec<u128>)
    ensures
        is_listing(keys@, map@.dom()),
{
    let mut keys: Vec<u128> = Vec::new();
    for key in it: map.keys()
        invariant
            it.seq().unref().to_set() == map@.dom(),
            it.seq().no_duplicates(),
            keys@.len() == it.index(),
            forall|i: int| 0 <= i < keys@.len() ==> keys@[i] == *it.seq()[i],
    {
        keys.push(*key);
    }
    assert(keys@ =~= vstd::std_specs::iter::IteratorSpec::remaining(&map.keys()).unref());
    keys
}

impl Store {
    /// What every operation keeps: no tunnel has been tried more often than allowed.
    pub open spec fn well_formed(&self) -> bool {
        self@.attempts_bounded()
    }

    /// The saved tunnels.
    pub fn tunnels(&self) -> (tunnels: &Vec<Tunnel>)
        ensures
            tunnel_models(tunnels@) == self@.tunnels,
    {
        &self.tunnels
    }

    /// What went wrong last, if anything did.
    pub fn notice(&self) -> (notice: &Option<String>)
        ensures
            optional_text(*notice) == self@.notice,
    {
        &self.notice
    }

    /// A store with the tunnels that were saved, none of which runs.
    pub fn load(saved: SavedTunnels) -> (store: Self)
        ensures
            store.well_formed(),
            store@ == loaded(saved),
    {
        let (tunnels, notice) = match saved {
            SavedTunnels::Missing => (Vec::new(), None),
            SavedTunnels::Unreadable(error) => {
                let mut notice = "Could not read saved tunnels: ".to_owned();
                notice.append(error.as_str());
                (Vec::new(), Some(notice))
            },
            SavedTunnels::Loaded(tunnels) => (tunnels, None),
        };
        let store = Store {
            tunnels,
            notice,
            phases: HashMap::new(),
            desired: HashSet::new(),
            runtimes: HashMap::new(),
            retry_attempts: HashMap::new(),
            retry_deadlines: HashMap::new(),
            pending_browser: HashSet::new(),
            next_generation: 0,
        };
        assert(store@.phases =~= Map::empty());
        assert(saved !is Loaded ==> store@.tunnels =~= Seq::empty());
        store
    }

    /// The position of the first tunnel with the given id.
    fn position(&self, id: u128) -> (position: Option<usize>)
        ensures
            match position {
                Some(i) => position_of(self@.tunnels, id) == Some(i as int) && i
                    < self.tunnels@.len() && self@.find(id) == Some(self.tunnels@[i as int]@),
                None => position_of(self@.tunnels, id) is None,
            },
    {
        let ghost all = self@.tunnels;
        let mut i: usize = 0;
        while i < self.tunnels.len()
            invariant
                i <= self.tunnels@.len(),
                all == tunnel_models(self.tunnels@),
                all == self@.tunnels,
                position_of(all.take(i as int), id) is None,
            decreases self.tunnels@.len() - i,
        {
            assert(all.take(i + 1).drop_last() =~= all.take(i as int));
            assert(all.take(i + 1).last() == self.tunnels@[i as int]@);
            if self.tunnels[i].id == id {
                proof {
                    lemma_position_in_front(all, i + 1, id);
                }
                return Some(i);
            }
            i += 1;
        }
        assert(all.take(i as int) =~= all);
        None
    }

    fn set_phase(&mut self, id: u128, phase: TunnelPhase)
        ensures
            final(self)@ == old(self)@.with_phase(id, phase@),
    {
        self.phases.insert(id, phase);
        assert(self@.phases =~= old(self)@.phases.insert(id, phase@));
    }

    /// The phase of a tunnel.
    pub fn phase(&self, id: u128) -> (phase: TunnelPhase)
        ensures
            phase@ == self@.phase(id),
    {
        match self.phases.get(&id) {
            Some(phase) => phase.clone(),
            None => TunnelPhase::default(),
        }
    }
}

/// What is found in front is found in the whole.
pub proof fn lemma_position_in_front(tunnels: Seq<TunnelModel>, len: int, id: u128)
    requires
        0 <= len <= tunnels.len(),
        position_of(tunnels.take(len), id) is Some,
    ensures
        position_of(tunnels, id) == position_of(tunnels.take(len), id),
    decreases tunnels.len() - len,
{
    if len == tunnels.len() {
        assert(tunnels.take(len) =~= tunnels);
    } else {
        assert(tunnels.take(len + 1).drop_last() =~= tunnels.take(len));
        lemma_position_in_front(tunnels, len + 1, id);
    }
}

impl Store {
    /// Adds a tunnel at the end.
    pub fn add(&mut self, tunnel: Tunnel) -> (actions: Vec<Action>)
        requires
            old(self).well_formed(),
        ensures
            final(self).well_formed(),
            transition(final(self)@, actions@) == old(self)@.with_tunnel(tunnel@),
    {
        self.tunnels.push(tunnel);
        assert(self@.tunnels =~= old(self)@.tunnels.push(tunnel@));
        let actions = vec![Action::Save];
        assert(action_models(actions@) =~= seq![ActionModel::Save]);
        actions
    }

    /// Replaces the tunnel with the same id, and stops it.
    pub fn update(&mut self, tunnel: Tunnel) -> (actions: Vec<Action>)
        requires
            old(self).well_formed(),
        ensures
            final(self).well_formed(),
            transition(final(self)@, actions@) == old(self)@.update(tunnel@),
    {
        match self.position(tunnel.id) {
            Some(index) => {
                let mut actions = self.stop(tunnel.id);
                let ghost stopped = self@;
                assert(self.tunnels@.len() == stopped.tunnels.len());
                self.tunnels[index] = tunnel;
                assert(self@.tunnels =~= stopped.tunnels.update(index as int, tunnel@));
                push_action(&mut actions, Action::Save);
                actions
            },
            None => no_actions(),
        }
    }

    /// Stops a tunnel and forgets it.
    pub fn delete(&mut self, id: u128) -> (actions: Vec<Action>)
        requires
            old(self).well_formed(),
        ensures
            final(self).well_formed(),
            transition(final(self)@, actions@) == old(self)@.delete(id),
    {
        let mut actions = self.stop(id);
        self.forget(id);
        let ghost before = self@;
        self.phases.remove(&id);
        assert(self@.phases =~= before.phases.remove(id));
        assert(before.phases.remove(id) =~= old(self)@.phases.remove(id));
        push_action(&mut actions, Action::Save);
        actions
    }

    /// Removes the tunnels with the given id.
    fn forget(&mut self, id: u128)
        ensures
            final(self)@ == (StoreModel {
                tunnels: old(self)@.tunnels.filter(|tunnel: TunnelModel| tunnel.id != id),
                ..old(self)@
            }),
    {
        let ghost all = self@.tunnels;
        let ghost keep = |tunnel: TunnelModel| tunnel.id != id;
        let ghost mut seen: int = 0;
        let mut i: usize = 0;
        proof {
            reveal(Seq::filter);
            assert(all.take(0).filter(keep) + all.skip(0) =~= all);
        }
        while i < self.tunnels.len()
            invariant
                0 <= seen <= all.len(),
                i <= self.tunnels@.len(),
                i == all.take(seen).filter(keep).len(),
                keep == (|tunnel: TunnelModel| tunnel.id != id),
                self@ == (StoreModel { tunnels: self@.tunnels, ..old(self)@ }),
                tunnel_models(self.tunnels@) == all.take(seen).filter(keep) + all.skip(seen),
            decreases self.tunnels@.len() - i,
        {
            let ghost before = self.tunnels@;
            proof {
                reveal(Seq::filter);
                assert(tunnel_models(before).len() == before.len());
                assert(seen < all.len());
                assert(tunnel_models(before)[i as int] == all.skip(seen)[0]);
                assert(all.take(seen + 1).drop_last() =~= all.take(seen));
                assert(all.take(seen + 1).last() == all[seen]);
            }
            if self.tunnels[i].id == id {
                self.tunnels.remove(i);
                assert(tunnel_models(self.tunnels@) =~= tunnel_models(before).remove(i as int));
                assert(tunnel_models(self.tunnels@) =~= all.take(seen + 1).filter(keep) + all.skip(
                    seen + 1,
                ));
            } else {
                assert(all.take(seen + 1).filter(keep) =~= all.take(seen).filter(keep).push(
                    all[seen],
                ));
                assert(tunnel_models(before) =~= all.take(seen + 1).filter(keep) + all.skip(
                    seen + 1,
                ));
                i += 1;
            }
            proof {
                seen = seen + 1;
            }
        }
        assert(seen == all.len());
        assert(all.take(seen) =~= all);
        assert(all.skip(seen) =~= Seq::empty());
        assert(self@.tunnels =~= all.filter(keep));
    }

    /// Starts a stopped tunnel, or stops a started one.
    pub fn toggle(&mut self, id: u128) -> (actions: Vec<Action>)
        requires
            old(self).well_formed(),
        ensures
            final(self).well_formed(),
            transition(final(self)@, actions@) == old(self)@.toggle(id),
    {
        if self.desired.contains(&id) {
            self.stop(id)
        } else {
            self.start(id)
        }
    }

    /// Shows a tunnel as one that may not run.
    fn block(&mut self, id: u128)
        ensures
            final(self)@ == old(self)@.with_phase(id, blocked_phase()),
    {
        self.set_phase(
            id,
            TunnelPhase::Failed(
                "This tunnel contains an invalid host or blocked SSH option.".to_owned(),
            ),
        );
    }

    /// Starts a tunnel that may run.
    pub fn start(&mut self, id: u128) -> (actions: Vec<Action>)
        requires
            old(self).well_formed(),
        ensures
            final(self).well_formed(),
            transition(final(self)@, actions@) == old(self)@.start(id),
    {
        if self.desired.contains(&id) {
            return no_actions();
        }
        let index = match self.position(id) {
            Some(index) => index,
            None => {
                return no_actions();
            },
        };
        if !self.tunnels[index].is_safe_to_run() {
            self.block(id);
            return no_actions();
        }
        self.retry_deadlines.remove(&id);
        self.desired.insert(id);
        self.retry_attempts.insert(id, 0);
        assert(self@ == old(self)@.with_desired(id));
        if self.runtimes.contains_key(&id) {
            self.set_phase(id, TunnelPhase::Starting);
            no_actions()
        } else {
            self.launch(id)
        }
    }

    /// Opens a tunnel's URL, after starting the tunnel where it does not run.
    pub fn open_in_browser(&mut self, id: u128) -> (actions: Vec<Action>)
        requires
            old(self).well_formed(),
        ensures
            final(self).well_formed(),
            transition(final(self)@, actions@) == old(self)@.open_in_browser(id),
    {
        let index = match self.position(id) {
            Some(index) => index,
            None => {
                return no_actions();
            },
        };
        if !self.tunnels[index].is_safe_to_run() {
            self.block(id);
            return no_actions();
        }
        let running = matches!(self.phase(id), TunnelPhase::Running);
        if running && self.runtimes.contains_key(&id) {
            let mut actions = no_actions();
            push_action(&mut actions, Action::OpenUrl(self.tunnels[index].browser_url()));
            actions
        } else {
            self.pending_browser.insert(id);
            if self.desired.contains(&id) {
                no_actions()
            } else {
                self.start(id)
            }
        }
    }

    /// Stops a tunnel.
    pub fn stop(&mut self, id: u128) -> (actions: Vec<Action>)
        requires
            old(self).well_formed(),
        ensures
            final(self).well_formed(),
            transition(final(self)@, actions@) == old(self)@.stop(id),
    {
        self.desired.remove(&id);
        self.retry_attempts.remove(&id);
        self.retry_deadlines.remove(&id);
        self.pending_browser.remove(&id);
        self.set_phase(id, TunnelPhase::Stopped);
        let mut actions = no_actions();
        if let Some(runtime) = self.runtimes.get(&id) {
            let runtime = Runtime {
                generation: runtime.generation,
                started_at: runtime.started_at,
                stop_requested: true,
            };
            self.runtimes.insert(id, runtime);
            push_action(&mut actions, Action::Interrupt { id });
        }
        actions
    }

    /// Asks for a process for a tunnel.
    fn launch(&mut self, id: u128) -> (actions: Vec<Action>)
        ensures
            transition(final(self)@, actions@) == old(self)@.launch(id),
    {
        if self.runtimes.contains_key(&id) {
            return no_actions();
        }
        match self.position(id) {
            Some(index) => {
                let arguments = self.tunnels[index].ssh_arguments();
                self.set_phase(id, TunnelPhase::Starting);
                let mut actions = no_actions();
                push_action(&mut actions, Action::Launch { id, arguments });
                actions
            },
            None => no_actions(),
        }
    }

    /// The number of the process that was started last.
    pub fn last_generation(&self) -> (generation: u64)
        ensures
            generation == self@.next_generation,
    {
        self.next_generation
    }

    /// Takes note that the process that was asked for runs, and numbers it.
    pub fn launched(&mut self, id: u128, now: u64) -> (generation: u64)
        requires
            old(self).well_formed(),
            old(self)@.next_generation < u64::MAX,
        ensures
            final(self).well_formed(),
            final(self)@ == old(self)@.launched(id, now),
            generation == old(self)@.next_generation + 1,
    {
        self.next_generation = self.next_generation + 1;
        let generation = self.next_generation;
        self.runtimes.insert(id, Runtime { generation, started_at: now, stop_requested: false });
        generation
    }

    /// Takes note that the process that was asked for could not be started.
    pub fn launch_failed(&mut self, id: u128, error: String, now: u64)
        requires
            old(self).well_formed(),
        ensures
            final(self).well_formed(),
            final(self)@ == old(self)@.schedule_retry(id, error@, now),
    {
        self.schedule_retry(id, error, now);
    }

    /// Takes note of the end of a process.
    pub fn process_did_exit(&mut self, event: ProcessExited, now: u64) -> (tick: Tick)
        requires
            old(self).well_formed(),
        ensures
            final(self).well_formed(),
            tick.changed == old(self)@.is_current(event.id, event.generation),
            transition(final(self)@, tick.actions@) == old(self)@.exited(
                event.id,
                event.generation,
                exit_message(utf8_lossy(event.stderr@), event.status),
                now,
            ),
    {
        let summary = stderr_message(event.stderr.as_slice());
        let message = describe_exit(summary, event.status);
        self.process_ended(event.id, event.generation, message, now)
    }

    /// Takes note that the process with this generation ended, for the reason given.
    pub fn process_ended(&mut self, id: u128, generation: u64, message: String, now: u64) -> (tick:
        Tick)
        requires
            old(self).well_formed(),
        ensures
            final(self).well_formed(),
            tick.changed == old(self)@.is_current(id, generation),
            transition(final(self)@, tick.actions@) == old(self)@.exited(
                id,
                generation,
                message@,
                now,
            ),
    {
        let runtime = match self.runtimes.get(&id) {
            Some(runtime) => *runtime,
            None => {
                return Tick { changed: false, actions: no_actions() };
            },
        };
        if runtime.generation != generation {
            return Tick { changed: false, actions: no_actions() };
        }
        self.runtimes.remove(&id);
        let ghost gone = self@;
        if !self.desired.contains(&id) {
            if self.position(id).is_some() {
                self.set_phase(id, TunnelPhase::Stopped);
            } else {
                self.phases.remove(&id);
                assert(self@.phases =~= gone.phases.remove(id));
            }
            return Tick { changed: true, actions: no_actions() };
        }
        if runtime.stop_requested {
            let actions = self.launch(id);
            return Tick { changed: true, actions };
        }
        self.schedule_retry(id, message, now);
        Tick { changed: true, actions: no_actions() }
    }

    /// Plans the next attempt of a tunnel that failed, or gives it up.
    fn schedule_retry(&mut self, id: u128, message: String, now: u64)
        requires
            old(self).well_formed(),
        ensures
            final(self).well_formed(),
            final(self)@ == old(self)@.schedule_retry(id, message@, now),
    {
        if !self.desired.contains(&id) {
            self.set_phase(id, TunnelPhase::Stopped);
            return ;
        }
        let attempts: u32 = match self.retry_attempts.get(&id) {
            Some(attempts) => *attempts,
            None => 0,
        };
        assert(attempts <= MAX_RETRY_ATTEMPTS) by {
            if self@.retry_attempts.contains_key(id) {
                assert(self@.retry_attempts[id] <= MAX_RETRY_ATTEMPTS);
            }
        }
        let attempt: u32 = attempts + 1;
        if attempt > MAX_RETRY_ATTEMPTS {
            self.desired.remove(&id);
            self.retry_attempts.remove(&id);
            self.pending_browser.remove(&id);
            let mut text = message;
            text.append(" Automatic retry stopped after ");
            push_decimal(&mut text, MAX_RETRY_ATTEMPTS as u64);
            text.append(" attempts.");
            self.set_phase(id, TunnelPhase::Failed(text));
            return ;
        }
        let delay_seconds = retry_delay_seconds(attempt);
        self.retry_attempts.insert(id, attempt);
        let deadline: u128 = now as u128 + delay_seconds as u128 * NANOS_PER_SECOND as u128;
        self.retry_deadlines.insert(id, deadline);
        self.set_phase(
            id,
            TunnelPhase::Retrying {
                attempt,
                max_attempts: MAX_RETRY_ATTEMPTS,
                delay_seconds,
                message,
            },
        );
    }

    /// Shows a notice.
    pub fn set_notice(&mut self, notice: String)
        requires
            old(self).well_formed(),
        ensures
            final(self).well_formed(),
            final(self)@ == (StoreModel { notice: Some(notice@), ..old(self)@ }),
    {
        self.notice = Some(notice);
    }

    /// Takes note that the tunnels could not be saved.
    pub fn save_failed(&mut self, error: &str)
        requires
            old(self).well_formed(),
        ensures
            final(self).well_formed(),
            final(self)@ == (StoreModel {
                notice: Some(save_notice(error@)),
                ..old(self)@
            }),
    {
        let mut notice = "Could not save tunnels: ".to_owned();
        notice.append(error);
        self.notice = Some(notice);
    }

    /// Takes note that a URL could not be opened.
    pub fn open_failed(&mut self, url: &str, error: &str)
        requires
            old(self).well_formed(),
        ensures
            final(self).well_formed(),
            final(self)@ == (StoreModel {
                notice: Some(open_notice(url@, error@)),
                ..old(self)@
            }),
    {
        let mut notice = "Could not open ".to_owned();
        notice.append(url);
        notice.append(": ");
        notice.append(error);
        self.notice = Some(notice);
    }
}

/// An empty list of actions.
fn no_actions() -> (actions: Vec<Action>)
    ensures
        action_models(actions@) == Seq::<ActionModel>::empty(),
{
    let actions: Vec<Action> = Vec::new();
    assert(action_models(actions@) =~= Seq::<ActionModel>::empty());
    actions
}

fn push_action(actions: &mut Vec<Action>, action: Action)
    ensures
        action_models(final(actions)@) == action_models(old(actions)@).push(action@),
{
    actions.push(action);
    assert(action_models(actions@) =~= action_models(old(actions)@).push(action@));
}

impl Store {
    /// How many tunnels are up or on their way up.
    pub fn running_count(&self) -> (count: usize)
        ensures
            count == self@.active().len(),
    {
        let ids = keys_of(&self.phases);
        let ghost mut counted: Set<u128> = Set::empty();
        let mut count: usize = 0;
        let mut i: usize = 0;
        while i < ids.len()
            invariant
                i <= ids@.len(),
                count <= i,
                is_listing(ids@, self.phases@.dom()),
                counted.finite(),
                counted.len() == count,
                forall|id: u128| #[trigger]
                    counted.contains(id) <==> self@.phases[id].is_active() && ids@.take(
                        i as int,
                    ).contains(id),
            decreases ids@.len() - i,
        {
            let id = ids[i];
            assert(ids@.contains(id));
            assert(self.phases@.dom().contains(id));
            assert(ids@.take(i + 1) =~= ids@.take(i as int).push(id));
            assert(!ids@.take(i as int).contains(id));
            let ghost before = ids@.take(i as int);
            let ghost after = before.push(id);
            if let Some(phase) = self.phases.get(&id) {
                if phase.is_active() {
                    count += 1;
                    proof {
                        counted = counted.insert(id);
                    }
                }
            }
            assert forall|other: u128| #[trigger] counted.contains(other) <==> self@.phases[
                other
            ].is_active() && after.contains(other) by {
                if before.contains(other) {
                    let k = choose|k: int| 0 <= k < before.len() && before[k] == other;
                    assert(after[k] == other);
                }
                assert(after[i as int] == id);
                if after.contains(other) && other != id {
                    let k = choose|k: int| 0 <= k < after.len() && after[k] == other;
                    assert(before[k] == other);
                }
            }
            i += 1;
        }
        assert(ids@.take(ids@.len() as int) =~= ids@);
        assert(counted =~= self@.active());
        count
    }

    /// Stops everything: no tunnel is wanted, and every process is asked to stop.
    pub fn shutdown(&mut self) -> (actions: Vec<Action>)
        requires
            old(self).well_formed(),
        ensures
            final(self).well_formed(),
            final(self)@ == old(self)@.shut_down(),
            exists|ids: Seq<u128>|
                is_listing(ids, old(self)@.runtimes.dom()) && action_models(actions@)
                    == #[trigger] interruptions(ids),
    {
        self.desired.clear();
        self.retry_deadlines.clear();
        self.pending_browser.clear();
        let ids = keys_of(&self.runtimes);
        self.runtimes.clear();
        let mut actions = no_actions();
        let mut i: usize = 0;
        while i < ids.len()
            invariant
                i <= ids@.len(),
                action_models(actions@) == interruptions(ids@.take(i as int)),
            decreases ids@.len() - i,
        {
            push_action(&mut actions, Action::Interrupt { id: ids[i] });
            assert(interruptions(ids@.take(i + 1)) =~= interruptions(ids@.take(i as int)).push(
                ActionModel::Interrupt { id: ids@[i as int] },
            ));
            i += 1;
        }
        assert(ids@.take(ids@.len() as int) =~= ids@);
        assert(action_models(actions@) == interruptions(ids@));
        actions
    }
}

/// One more element of a list without duplicates.
proof fn lemma_listed_push(list: Seq<u128>, id: u128)
    requires
        list.no_duplicates(),
        !list.contains(id),
    ensures
        list.push(id).no_duplicates(),
        forall|other: u128| #[trigger]
            list.push(id).contains(other) <==> list.contains(other) || other == id,
{
    let longer = list.push(id);
    assert forall|other: u128| #[trigger] longer.contains(other) <==> list.contains(other) || other
        == id by {
        if list.contains(other) {
            let k = choose|k: int| 0 <= k < list.len() && list[k] == other;
            assert(longer[k] == other);
        }
        assert(longer[list.len() as int] == id);
        if longer.contains(other) && other != id {
            let k = choose|k: int| 0 <= k < longer.len() && longer[k] == other;
            assert(list[k] == other);
        }
    }
}

/// The front of a list without duplicates, and the element behind it.
proof fn lemma_listed_front(list: Seq<u128>, i: int)
    requires
        list.no_duplicates(),
        0 <= i < list.len(),
    ensures
        list.take(i + 1) == list.take(i).push(list[i]),
        list.take(i).no_duplicates(),
        !list.take(i).contains(list[i]),
        list.take(i + 1).to_set() == list.take(i).to_set().insert(list[i]),
{
    assert(list.take(i + 1) =~= list.take(i).push(list[i]));
    lemma_listed_push(list.take(i), list[i]);
    assert(list.take(i + 1).to_set() =~= list.take(i).to_set().insert(list[i]));
}

impl Store {
    /// The tunnels that become connected, in some order.
    fn connected_ids(&self, now: u64) -> (ids: Vec<u128>)
        ensures
            is_listing(ids@, self@.connected(now)),
    {
        let keys = keys_of(&self.runtimes);
        let mut ids: Vec<u128> = Vec::new();
        let mut i: usize = 0;
        while i < keys.len()
            invariant
                i <= keys@.len(),
                is_listing(keys@, self.runtimes@.dom()),
                ids@.no_duplicates(),
                forall|id: u128| #[trigger]
                    ids@.contains(id) <==> keys@.take(i as int).contains(id) && self@.is_connected(
                        id,
                        now,
                    ),
            decreases keys@.len() - i,
        {
            let id = keys[i];
            proof {
                lemma_listed_front(keys@, i as int);
                lemma_listed_push(keys@.take(i as int), id);
                assert(keys@.contains(id));
                assert(self.runtimes@.dom().contains(id));
                lemma_listed_push(ids@, id);
            }
            if let Some(runtime) = self.runtimes.get(&id) {
                let starting = matches!(self.phase(id), TunnelPhase::Starting);
                if self.desired.contains(&id) && starting && runtime.started_at as u128
                    + CONNECT_NANOS as u128 <= now as u128 {
                    ids.push(id);
                }
            }
            i += 1;
        }
        assert(keys@.take(keys@.len() as int) =~= keys@);
        assert forall|id: u128| #[trigger] ids@.contains(id) <==> self@.connected(now).contains(
            id,
        ) by {
            assert(keys@.contains(id) <==> keys@.to_set().contains(id));
        }
        assert(ids@.to_set() =~= self@.connected(now));
        ids
    }

    /// The tunnels whose time to be tried again has come, in some order.
    fn due_ids(&self, now: u64) -> (ids: Vec<u128>)
        ensures
            is_listing(ids@, self@.due(now)),
    {
        let keys = keys_of(&self.retry_deadlines);
        let mut ids: Vec<u128> = Vec::new();
        let mut i: usize = 0;
        while i < keys.len()
            invariant
                i <= keys@.len(),
                is_listing(keys@, self.retry_deadlines@.dom()),
                ids@.no_duplicates(),
                forall|id: u128| #[trigger]
                    ids@.contains(id) <==> keys@.take(i as int).contains(id) && self@.due(
                        now,
                    ).contains(id),
            decreases keys@.len() - i,
        {
            let id = keys[i];
            proof {
                lemma_listed_front(keys@, i as int);
                lemma_listed_push(keys@.take(i as int), id);
                assert(keys@.contains(id));
                assert(self.retry_deadlines@.dom().contains(id));
                lemma_listed_push(ids@, id);
            }
            if let Some(deadline) = self.retry_deadlines.get(&id) {
                if *deadline <= now as u128 {
                    ids.push(id);
                }
            }
            i += 1;
        }
        assert(keys@.take(keys@.len() as int) =~= keys@);
        assert forall|id: u128| #[trigger] ids@.contains(id) <==> self@.due(now).contains(id) by {
            assert(keys@.contains(id) <==> keys@.to_set().contains(id));
        }
        assert(ids@.to_set() =~= self@.due(now));
        ids
    }

    /// Shows tunnels as running, and asks for the URLs that waited for them.
    fn promote(&mut self, ids: &Vec<u128>, actions: &mut Vec<Action>)
        requires
            old(self).well_formed(),
            ids@.no_duplicates(),
        ensures
            final(self).well_formed(),
            final(self)@ == old(self)@.promoted(ids@.to_set()),
            action_models(final(actions)@) == action_models(old(actions)@) + old(self)@.openings(
                ids@,
            ),
    {
        let ghost before = self@;
        let mut i: usize = 0;
        assert(self@ =~= before.promoted(ids@.take(0).to_set()));
        while i < ids.len()
            invariant
                i <= ids@.len(),
                ids@.no_duplicates(),
                before == old(self)@,
                before.attempts_bounded(),
                self@ == before.promoted(ids@.take(i as int).to_set()),
                action_models(actions@) == action_models(old(actions)@) + before.openings(
                    ids@.take(i as int),
                ),
            decreases ids@.len() - i,
        {
            let id = ids[i];
            let ghost now = self@;
            proof {
                lemma_listed_front(ids@, i as int);
                assert(ids@.take(i + 1).drop_last() =~= ids@.take(i as int));
            }
            self.retry_attempts.insert(id, 0);
            self.set_phase(id, TunnelPhase::Running);
            if self.pending_browser.remove(&id) {
                if let Some(index) = self.position(id) {
                    push_action(actions, Action::OpenUrl(self.tunnels[index].browser_url()));
                }
            }
            proof {
                let then = before.promoted(ids@.take(i + 1).to_set());
                assert(self@.phases =~= then.phases);
                assert(self@.retry_attempts =~= then.retry_attempts);
                assert(self@.pending_browser =~= then.pending_browser);
            }
            i += 1;
        }
        assert(ids@.take(ids@.len() as int) =~= ids@);
    }

    /// Asks for the processes of tunnels that are due and still wanted. Whether there were any.
    fn retry(&mut self, ids: &Vec<u128>, actions: &mut Vec<Action>) -> (changed: bool)
        requires
            old(self).well_formed(),
            ids@.no_duplicates(),
        ensures
            final(self).well_formed(),
            final(self)@ == old(self)@.retried(ids@.to_set()),
            action_models(final(actions)@) == action_models(old(actions)@) + old(
                self,
            )@.relaunchings(ids@),
            changed == exists|id: u128| #[trigger]
                ids@.contains(id) && old(self)@.desired.contains(id),
    {
        let ghost before = self@;
        let mut changed = false;
        let mut i: usize = 0;
        assert(self@ =~= before.retried(ids@.take(0).to_set()));
        while i < ids.len()
            invariant
                i <= ids@.len(),
                ids@.no_duplicates(),
                before == old(self)@,
                before.attempts_bounded(),
                self@ == before.retried(ids@.take(i as int).to_set()),
                action_models(actions@) == action_models(old(actions)@) + before.relaunchings(
                    ids@.take(i as int),
                ),
                changed == exists|k: int| 0 <= k < i && before.desired.contains(#[trigger] ids@[k]),
            decreases ids@.len() - i,
        {
            let id = ids[i];
            proof {
                lemma_listed_front(ids@, i as int);
                assert(ids@.take(i + 1).drop_last() =~= ids@.take(i as int));
            }
            self.retry_deadlines.remove(&id);
            if self.desired.contains(&id) {
                let mut launches = self.launch(id);
                let ghost asked = launches@;
                assert(action_models(asked).len() == asked.len());
                assert(asked.len() > 0 ==> action_models(asked)[0] == asked[0]@);
                if let Some(action) = launches.pop() {
                    push_action(actions, action);
                }
                changed = true;
                assert(before.desired.contains(ids@[i as int]));
            }
            proof {
                let then = before.retried(ids@.take(i + 1).to_set());
                assert(self@.phases =~= then.phases);
                assert(self@.retry_deadlines =~= then.retry_deadlines);
            }
            i += 1;
        }
        proof {
            assert(ids@.take(ids@.len() as int) =~= ids@);
            if changed {
                let k = choose|k: int|
                    0 <= k < ids@.len() && before.desired.contains(#[trigger] ids@[k]);
                assert(ids@.contains(ids@[k]));
            }
            assert forall|id: u128| #[trigger] ids@.contains(id) && before.desired.contains(
                id,
            ) implies changed by {
                let k = choose|k: int| 0 <= k < ids@.len() && ids@[k] == id;
                assert(before.desired.contains(ids@[k]));
            }
        }
        changed
    }

    /// Lets time pass: tunnels whose process has lived long enough are shown as running, and those
    /// that are due are tried again.
    pub fn tick(&mut self, now: u64) -> (tick: Tick)
        requires
            old(self).well_formed(),
        ensures
            final(self).well_formed(),
            final(self)@ == old(self)@.ticked(now),
            tick.changed == old(self)@.tick_changes(now),
            old(self)@.are_tick_actions(now, action_models(tick.actions@)),
    {
        let ghost before = self@;
        let connected = self.connected_ids(now);
        let mut actions = no_actions();
        self.promote(&connected, &mut actions);
        let ghost promoted = self@;
        assert(promoted.due(now) =~= before.due(now));
        let due = self.due_ids(now);
        let retried = self.retry(&due, &mut actions);
        proof {
            lemma_relaunchings_same(promoted, before, due@);
            assert(action_models(actions@) =~= before.openings(connected@) + before.relaunchings(
                due@,
            ));
            if connected@.len() > 0 {
                assert(connected@.to_set().contains(connected@[0]));
                assert(before.tick_moves(connected@[0], now));
            }
            if retried {
                let id = choose|id: u128| #[trigger]
                    due@.contains(id) && before.desired.contains(id);
                assert(due@.to_set().contains(id));
                assert(before.tick_moves(id, now));
            }
            assert forall|id: u128| #[trigger] before.tick_moves(id, now) implies connected@.len()
                > 0 || retried by {
                if before.is_connected(id, now) {
                    assert(connected@.to_set().contains(id));
                    assert(connected@.contains(id));
                } else {
                    assert(due@.to_set().contains(id));
                    assert(due@.contains(id));
                }
            }
        }
        Tick { changed: connected.len() > 0 || retried, actions }
    }
}

/// What is relaunched rests on the tunnels, the wanted ones and the processes alone.
proof fn lemma_relaunchings_same(a: StoreModel, b: StoreModel, ids: Seq<u128>)
    requires
        a.tunnels == b.tunnels,
        a.desired == b.desired,
        a.runtimes == b.runtimes,
    ensures
        a.relaunchings(ids) == b.relaunchings(ids),
    decreases ids.len(),
{
    if ids.len() > 0 {
        lemma_relaunchings_same(a, b, ids.drop_last());
    }
}

} // verus!
