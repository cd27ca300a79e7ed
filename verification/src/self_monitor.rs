//! Platform self-monitoring: the three built-in checks, their names and
//! order, and the messages of a healthy platform.

use vstd::prelude::*;

verus! {

broadcast use vstd::string::group_string_axioms;

/// The outcome of one self-monitoring check, with the platform's health
/// status type `S`.
#[derive(Debug)]
pub struct SelfMonitoringCheck<S> {
    pub check_name: String,
    pub status: S,
    pub message: String,
}

/// The names of the built-in checks, in the order they run.
pub open spec fn check_names() -> Seq<Seq<char>> {
    seq!["raft_health"@, "replication_status"@, "projection_lag"@]
}

/// The messages the built-in checks give on a healthy platform, in the
/// order of `check_names`.
pub open spec fn healthy_messages() -> Seq<Seq<char>> {
    seq!["Raft cluster is healthy"@, "All volumes fully replicated"@, "RDF projection is current"@]
}

/// The healthy message of the Raft check.
pub fn raft_healthy_message() -> (r: String)
    ensures
        r@ == healthy_messages()[0],
{
    String::from_str("Raft cluster is healthy")
}

/// The healthy message of the replication check.
pub fn replication_healthy_message() -> (r: String)
    ensures
        r@ == healthy_messages()[1],
{
    String::from_str("All volumes fully replicated")
}

/// The healthy message of the projection check.
pub fn projection_healthy_message() -> (r: String)
    ensures
        r@ == healthy_messages()[2],
{
    String::from_str("RDF projection is current")
}

/// The report of one run: the Raft, replication and projection checks, in
/// that order, each with the (status, message) its probe gave.
pub fn run_checks<S>(raft: (S, String), replication: (S, String), projection: (S, String)) -> (r: Vec<SelfMonitoringCheck<S>>)
    ensures
        r@.len() == 3,
        forall|i: int| 0 <= i < 3 ==> (#[trigger] r@[i]).check_name@ == check_names()[i],
        r@[0].status == raft.0 && r@[0].message@ == raft.1@,
        r@[1].status == replication.0 && r@[1].message@ == replication.1@,
        r@[2].status == projection.0 && r@[2].message@ == projection.1@,
{
    let mut r: Vec<SelfMonitoringCheck<S>> = Vec::new();
    r.push(SelfMonitoringCheck { check_name: String::from_str("raft_health"), status: raft.0, message: raft.1 });
    r.push(
        SelfMonitoringCheck {
            check_name: String::from_str("replication_status"),
            status: replication.0,
            message: replication.1,
        },
    );
    r.push(
        SelfMonitoringCheck { check_name: String::from_str("projection_lag"), status: projection.0, message: projection.1 },
    );
    r
}

} // verus!
