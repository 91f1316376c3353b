//! Leader election for the master: a fixed leader for local runs, and the
//! decisions of an elector that follows a Kubernetes Lease.
use vstd::prelude::*;
use vstd::string::*;
use crate::proto::{RpcCode, RpcStatus};

verus! {

/// A leader flag set by hand, for local and integration runs.
pub struct StaticLeader {
    is_leader: bool,
}

impl StaticLeader {
    /// Whether this master currently leads.
    pub closed spec fn leads(&self) -> bool {
        self.is_leader
    }

    /// A flag that starts as `initial_leader`.
    pub fn new(initial_leader: bool) -> (s: Self)
        ensures
            s.leads() == initial_leader,
    {
        StaticLeader { is_leader: initial_leader }
    }

    /// Sets the flag.
    pub fn set_leader(&mut self, leader: bool)
        ensures
            final(self).leads() == leader,
    {
        self.is_leader = leader;
    }

    /// Reads the flag.
    pub fn is_leader(&self) -> (r: bool)
        ensures
            r == self.leads(),
    {
        self.is_leader
    }
}

/// How long a Lease stays held without renewal, in milliseconds (15 s).
pub const LEASE_DURATION_MS: u64 = 15000;

/// How often the elector polls and renews the Lease, in milliseconds (5 s).
pub const RENEW_INTERVAL_MS: u64 = 5000;

/// What one poll of the Lease object found.
pub enum LeaseObservation {
    /// The Lease exists: its holder identity and the time (milliseconds since
    /// the epoch) it was last renewed, where it names them.
    Found { holder: Option<String>, renewed_at: Option<u64> },
    /// There is no Lease of that name.
    Missing,
    /// The query failed.
    Failed,
}

/// What the elector does after a poll.
#[derive(Debug, Clone, Copy, PartialEq, Eq)]
pub enum LeaseAction {
    /// Write the Lease with this master as holder, renewed now: it holds it.
    Renew,
    /// Write the Lease with this master as holder, renewed now: it is absent,
    /// unheld or expired.
    Acquire,
    /// Leave the Lease alone.
    Wait,
}

/// A Lease renewed at `renewed_at` has lapsed at `now` when no renewal came
/// within the lease duration (a Lease never renewed has lapsed).
pub open spec fn lapsed(renewed_at: Option<u64>, now: u64) -> bool {
    match renewed_at {
        Some(t) => t + LEASE_DURATION_MS <= now,
        None => true,
    }
}

/// The action after a poll that found `obs` at `now`, for the master `me`.
pub open spec fn action_after(obs: LeaseObservation, me: Seq<char>, now: u64) -> LeaseAction {
    match obs {
        LeaseObservation::Found { holder: Some(h), renewed_at } =>
            if h@ == me { LeaseAction::Renew }
            else if lapsed(renewed_at, now) { LeaseAction::Acquire }
            else { LeaseAction::Wait },
        LeaseObservation::Found { holder: None, .. } => LeaseAction::Acquire,
        LeaseObservation::Missing => LeaseAction::Acquire,
        LeaseObservation::Failed => LeaseAction::Wait,
    }
}

/// Whether the master leads right after that poll (before any write): only
/// while the Lease names it.
pub open spec fn leads_after(obs: LeaseObservation, me: Seq<char>) -> bool {
    match obs {
        LeaseObservation::Found { holder: Some(h), .. } => h@ == me,
        _ => false,
    }
}

/// A leader elector that follows a Kubernetes Lease: it leads while the Lease
/// names its holder identity, takes the Lease over when it is absent, unheld
/// or lapsed, and renews it while it leads.
pub struct KubeLeaseElector {
    pub lease_name: String,
    pub namespace: String,
    pub holder_id: String,
    pub is_leader: bool,
}

impl KubeLeaseElector {
    /// Whether this master currently leads.
    pub open spec fn leads(&self) -> bool {
        self.is_leader
    }

    /// The name of the Lease, its namespace and this master's identity.
    pub open spec fn identity(&self) -> (Seq<char>, Seq<char>, Seq<char>) {
        (self.lease_name@, self.namespace@, self.holder_id@)
    }

    /// An elector for `lease_name` in `namespace`, identified as `holder_id`;
    /// it does not lead before its first poll.
    pub fn new(lease_name: String, namespace: String, holder_id: String) -> (e: Self)
        ensures
            e.lease_name@ == lease_name@,
            e.namespace@ == namespace@,
            e.holder_id@ == holder_id@,
            !e.leads(),
    {
        KubeLeaseElector { lease_name, namespace, holder_id, is_leader: false }
    }

    /// Reads the flag.
    pub fn is_leader(&self) -> (r: bool)
        ensures
            r == self.leads(),
    {
        self.is_leader
    }

    /// Takes in the result of one poll of the Lease made at `now` and returns
    /// whether to write the Lease.
    pub fn observe(&mut self, obs: &LeaseObservation, now: u64) -> (action: LeaseAction)
        ensures
            action == action_after(*obs, old(self).holder_id@, now),
            final(self).leads() == leads_after(*obs, old(self).holder_id@),
            final(self).identity() == old(self).identity(),
    {
        match obs {
            LeaseObservation::Found { holder: Some(h), renewed_at } => {
                if h.eq(&self.holder_id) {
                    self.is_leader = true;
                    LeaseAction::Renew
                } else {
                    self.is_leader = false;
                    let expired = match renewed_at {
                        Some(t) => (*t as u128) + (LEASE_DURATION_MS as u128) <= now as u128,
                        None => true,
                    };
                    if expired { LeaseAction::Acquire } else { LeaseAction::Wait }
                }
            },
            LeaseObservation::Found { holder: None, .. } => {
                self.is_leader = false;
                LeaseAction::Acquire
            },
            LeaseObservation::Missing => {
                self.is_leader = false;
                LeaseAction::Acquire
            },
            LeaseObservation::Failed => {
                self.is_leader = false;
                LeaseAction::Wait
            },
        }
    }

    /// Takes in the outcome of a Lease write: the master leads exactly when
    /// the write succeeded.
    pub fn written(&mut self, succeeded: bool)
        ensures
            final(self).leads() == succeeded,
            final(self).identity() == old(self).identity(),
    {
        self.is_leader = succeeded;
    }

    /// Gives up leadership when the election loop stops.
    pub fn step_down(&mut self)
        ensures
            !final(self).leads(),
            final(self).identity() == old(self).identity(),
    {
        self.is_leader = false;
    }
}

/// A master that polls and writes every renew interval keeps leading: a poll
/// that finds it as holder asks for a renewal, and a successful renewal
/// leaves it leading.
pub proof fn lemma_leader_renews(me: Seq<char>, holder: String, renewed_at: Option<u64>, now: u64)
    requires
        holder@ == me,
    ensures
        action_after(LeaseObservation::Found { holder: Some(holder), renewed_at }, me, now) == LeaseAction::Renew,
        leads_after(LeaseObservation::Found { holder: Some(holder), renewed_at }, me),
{
}

/// A standby takes the Lease over once the holder has not renewed it within
/// the lease duration, and never while the holder's renewal is fresh.
pub proof fn lemma_standby_takes_over(me: Seq<char>, holder: String, renewed_at: u64, now: u64)
    requires
        holder@ != me,
    ensures
        action_after(LeaseObservation::Found { holder: Some(holder), renewed_at: Some(renewed_at) }, me, now)
            == (if renewed_at + LEASE_DURATION_MS <= now { LeaseAction::Acquire } else { LeaseAction::Wait }),
{
}

/// Whether a mutating request (file creation, chunk allocation, file
/// deletion) may be served: only while this master leads; a standby or a
/// master that stepped down answers `UNAVAILABLE`.
pub fn admit_mutation(leads: bool) -> (r: Result<(), RpcStatus>)
    ensures
        r is Ok <==> leads,
        r matches Err(st) ==> st.code == RpcCode::Unavailable && st.message@ == "Not the leader"@,
{
    if leads {
        Ok(())
    } else {
        Err(RpcStatus { code: RpcCode::Unavailable, message: "Not the leader".to_owned() })
    }
}

} // verus!
