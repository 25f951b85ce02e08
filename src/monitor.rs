//! The connection monitor: its configuration, the snapshot it publishes, and
//! how a fresh table turns into a new snapshot.
use vstd::prelude::*;

use crate::table::{parse_table, spec_table, ConnectionRecord, TcpState};

verus! {

/// Which connection states count as activity on the monitored port.
pub enum ActivityPolicy {
    /// Every socket on the port counts, whatever its state.
    AnyState,
    /// Only sockets in one of these states count.
    States(Vec<TcpState>),
}

impl ActivityPolicy {
    pub open spec fn counts(&self, s: TcpState) -> bool {
        match self {
            ActivityPolicy::AnyState => true,
            ActivityPolicy::States(v) => v@.contains(s),
        }
    }

    /// Whether a socket in state `s` counts as activity.
    pub fn is_active(&self, s: TcpState) -> (r: bool)
        ensures
            r == self.counts(s),
    {
        match self {
            ActivityPolicy::AnyState => true,
            ActivityPolicy::States(v) => {
                let mut i: usize = 0;
                while i < v.len()
                    invariant
                        0 <= i <= v@.len(),
                        self.counts(s) == v@.contains(s),
                        forall|j: int| 0 <= j < i ==> v@[j] != s,
                    decreases v@.len() - i,
                {
                    if v[i] == s {
                        assert(v@[i as int] == s);
                        assert(v@.contains(s));
                        return true;
                    }
                    i = i + 1;
                }
                assert(!v@.contains(s));
                false
            },
        }
    }
}

/// The published status: whether the monitored port had activity at the
/// last completed refresh, and the state of each of its sockets in table
/// order. `refreshed` is false until a refresh has completed.
pub struct ConnectionState {
    pub refreshed: bool,
    pub has_active_connections: bool,
    pub observed_states: Vec<TcpState>,
}

pub struct StatusView {
    pub refreshed: bool,
    pub active: bool,
    pub states: Seq<TcpState>,
}

impl View for ConnectionState {
    type V = StatusView;

    open spec fn view(&self) -> StatusView {
        StatusView {
            refreshed: self.refreshed,
            active: self.has_active_connections,
            states: self.observed_states@,
        }
    }
}

/// The status before any refresh: nothing known, nothing active.
pub open spec fn unknown_status() -> StatusView {
    StatusView { refreshed: false, active: false, states: Seq::empty() }
}

/// The states of the sockets on `port`, in table order.
pub open spec fn states_on_port(records: Seq<ConnectionRecord>, port: u16) -> Seq<TcpState>
    decreases records.len(),
{
    if records.len() == 0 {
        Seq::empty()
    } else {
        let before = states_on_port(records.drop_last(), port);
        if records.last().local_port == port {
            before.push(records.last().state)
        } else {
            before
        }
    }
}

/// Whether some socket on `port` is in a state that `policy` counts.
pub open spec fn active_on_port(
    records: Seq<ConnectionRecord>,
    port: u16,
    policy: ActivityPolicy,
) -> bool {
    exists|i: int|
        0 <= i < records.len() && #[trigger] records[i].local_port == port && policy.counts(
            records[i].state,
        )
}

/// The status that a set of records gives for `port` under `policy`.
pub open spec fn status_of(
    records: Seq<ConnectionRecord>,
    port: u16,
    policy: ActivityPolicy,
) -> StatusView {
    StatusView {
        refreshed: true,
        active: active_on_port(records, port, policy),
        states: states_on_port(records, port),
    }
}

impl Default for ConnectionState {
    fn default() -> (r: ConnectionState)
        ensures
            r@ == unknown_status(),
    {
        ConnectionState { refreshed: false, has_active_connections: false, observed_states: Vec::new() }
    }
}

impl ConnectionState {
    /// A copy of this status.
    pub fn duplicate(&self) -> (r: ConnectionState)
        ensures
            r@ == self@,
    {
        let mut states: Vec<TcpState> = Vec::new();
        let mut i: usize = 0;
        while i < self.observed_states.len()
            invariant
                0 <= i <= self.observed_states@.len(),
                states@ == self.observed_states@.subrange(0, i as int),
            decreases self.observed_states@.len() - i,
        {
            states.push(self.observed_states[i]);
            i = i + 1;
            assert(states@ =~= self.observed_states@.subrange(0, i as int));
        }
        assert(states@ =~= self.observed_states@);
        ConnectionState {
            refreshed: self.refreshed,
            has_active_connections: self.has_active_connections,
            observed_states: states,
        }
    }
}

/// Derives the status of `port` from the records of one table.
pub fn summarize(records: &Vec<ConnectionRecord>, port: u16, policy: &ActivityPolicy) -> (r:
    ConnectionState)
    ensures
        r@ == status_of(records@, port, *policy),
{
    let mut states: Vec<TcpState> = Vec::new();
    let mut active = false;
    let mut i: usize = 0;
    while i < records.len()
        invariant
            0 <= i <= records@.len(),
            states@ == states_on_port(records@.subrange(0, i as int), port),
            active == active_on_port(records@.subrange(0, i as int), port, *policy),
        decreases records@.len() - i,
    {
        let rec = records[i];
        let ghost before = records@.subrange(0, i as int);
        let ghost after = records@.subrange(0, i + 1);
        assert(after.drop_last() =~= before);
        assert(after.last() == rec);
        if rec.local_port == port {
            states.push(rec.state);
            if policy.is_active(rec.state) {
                active = true;
                assert(after[i as int] == rec);
            }
        }
        proof {
            if active_on_port(after, port, *policy) {
                let j = choose|j: int|
                    0 <= j < after.len() && #[trigger] after[j].local_port == port
                        && policy.counts(after[j].state);
                if j < i {
                    assert(before[j] == after[j]);
                }
            }
            if active_on_port(before, port, *policy) {
                let j = choose|j: int|
                    0 <= j < before.len() && #[trigger] before[j].local_port == port
                        && policy.counts(before[j].state);
                assert(before[j] == after[j]);
            }
        }
        i = i + 1;
    }
    assert(records@.subrange(0, records@.len() as int) =~= records@);
    ConnectionState { refreshed: true, has_active_connections: active, observed_states: states }
}

/// Watches one local TCP port. Its configuration is fixed at construction;
/// its published status changes only when a refresh completes.
pub struct ConnectionMonitor {
    target_port: u16,
    source_path: String,
    policy: ActivityPolicy,
    current: ConnectionState,
}

pub struct MonitorView {
    pub target_port: u16,
    pub source_path: Seq<char>,
    pub policy: ActivityPolicy,
    pub status: StatusView,
}

impl View for ConnectionMonitor {
    type V = MonitorView;

    closed spec fn view(&self) -> MonitorView {
        MonitorView {
            target_port: self.target_port,
            source_path: self.source_path@,
            policy: self.policy,
            status: self.current@,
        }
    }
}

/// The monitor after a refresh that read `contents`: the configuration is
/// kept and the status is the one that the table gives.
pub open spec fn refreshed(m: MonitorView, contents: Seq<u8>) -> MonitorView {
    MonitorView { status: status_of(spec_table(contents), m.target_port, m.policy), ..m }
}

impl ConnectionMonitor {
    /// A monitor of `target_port` for which every socket counts as activity.
    pub fn new(target_port: u16, source_path: String) -> (r: ConnectionMonitor)
        ensures
            r@.target_port == target_port,
            r@.source_path == source_path@,
            r@.policy == ActivityPolicy::AnyState,
            r@.status == unknown_status(),
    {
        ConnectionMonitor::with_policy(target_port, source_path, ActivityPolicy::AnyState)
    }

    /// A monitor of `target_port` that counts activity by `policy`.
    pub fn with_policy(target_port: u16, source_path: String, policy: ActivityPolicy) -> (r:
        ConnectionMonitor)
        ensures
            r@.target_port == target_port,
            r@.source_path == source_path@,
            r@.policy == policy,
            r@.status == unknown_status(),
    {
        ConnectionMonitor { target_port, source_path, policy, current: ConnectionState::default() }
    }

    pub fn target_port(&self) -> (r: u16)
        ensures
            r == self@.target_port,
    {
        self.target_port
    }

    /// Where the table is read from.
    pub fn source_path(&self) -> (r: &str)
        ensures
            r@ == self@.source_path,
    {
        self.source_path.as_str()
    }

    pub fn policy(&self) -> (r: &ActivityPolicy)
        ensures
            *r == self@.policy,
    {
        &self.policy
    }

    /// The status that a table with these contents would give, computed
    /// without publishing it.
    pub fn snapshot_of(&self, contents: &[u8]) -> (r: ConnectionState)
        ensures
            r@ == status_of(spec_table(contents@), self@.target_port, self@.policy),
    {
        let records = parse_table(contents);
        summarize(&records, self.target_port, &self.policy)
    }

    /// Replaces the published status as a whole.
    pub fn publish(&mut self, status: ConnectionState)
        ensures
            final(self)@ == (MonitorView { status: status@, ..old(self)@ }),
    {
        self.current = status;
    }

    /// Re-parses a freshly read table and publishes the status it gives.
    pub fn refresh_from(&mut self, contents: &[u8])
        ensures
            final(self)@ == refreshed(old(self)@, contents@),
    {
        let status = self.snapshot_of(contents);
        self.publish(status);
    }

    /// The most recently published status.
    pub fn state(&self) -> (r: ConnectionState)
        ensures
            r@ == self@.status,
    {
        self.current.duplicate()
    }
}

/// A monitor that has not been refreshed reports the unknown status: no
/// activity, no states, and marked as not refreshed.
pub proof fn lemma_state_before_refresh(m: MonitorView)
    requires
        m.status == unknown_status(),
    ensures
        !m.status.refreshed,
        !m.status.active,
        m.status.states.len() == 0,
{
}

/// Refreshes against an unchanged table agree: whatever each monitor had
/// published before, two monitors with the same configuration publish the
/// same status, and a second refresh changes nothing.
pub proof fn lemma_refresh_converges(a: MonitorView, b: MonitorView, contents: Seq<u8>)
    requires
        a.target_port == b.target_port,
        a.policy == b.policy,
    ensures
        refreshed(a, contents).status == refreshed(b, contents).status,
        refreshed(refreshed(a, contents), contents) == refreshed(a, contents),
{
}

} // verus!
