//! Sync-status reporting: the status vocabulary and the update
//! expression sent to the status store. Writing the record is the
//! surrounding service's concern; the expression text it sends is built
//! and specified here.

use vstd::prelude::*;
use vstd::string::*;
use crate::text::{dec_rep, push_dec};

verus! {

/// The state of a whole sync run as reported to the status store.
#[derive(Clone, Copy, PartialEq, Eq, Debug)]
pub enum SyncStatus {
    Queued,
    InProgress,
    Completed,
    Failed,
}

/// The state of one phase of a sync run.
#[derive(Clone, Copy, PartialEq, Eq, Debug)]
pub enum PhaseStatus {
    Pending,
    InProgress,
    Completed,
    Failed,
}

/// The wire label of a run status.
pub open spec fn spec_sync_status_label(s: SyncStatus) -> Seq<char> {
    match s {
        SyncStatus::Queued => "queued"@,
        SyncStatus::InProgress => "in_progress"@,
        SyncStatus::Completed => "completed"@,
        SyncStatus::Failed => "failed"@,
    }
}

/// The wire label of a phase status.
pub open spec fn spec_phase_status_label(s: PhaseStatus) -> Seq<char> {
    match s {
        PhaseStatus::Pending => "pending"@,
        PhaseStatus::InProgress => "in_progress"@,
        PhaseStatus::Completed => "completed"@,
        PhaseStatus::Failed => "failed"@,
    }
}

/// Render a run status as its wire label.
pub fn sync_status_label(s: &SyncStatus) -> (r: String)
    ensures
        r@ == spec_sync_status_label(*s),
{
    match s {
        SyncStatus::Queued => String::from_str("queued"),
        SyncStatus::InProgress => String::from_str("in_progress"),
        SyncStatus::Completed => String::from_str("completed"),
        SyncStatus::Failed => String::from_str("failed"),
    }
}

/// Render a phase status as its wire label.
pub fn phase_status_label(s: &PhaseStatus) -> (r: String)
    ensures
        r@ == spec_phase_status_label(*s),
{
    match s {
        PhaseStatus::Pending => String::from_str("pending"),
        PhaseStatus::InProgress => String::from_str("in_progress"),
        PhaseStatus::Completed => String::from_str("completed"),
        PhaseStatus::Failed => String::from_str("failed"),
    }
}

/// The assignments of an update expression: each path set to its
/// numbered placeholder, comma-separated.
pub open spec fn upd_assignments(paths: Seq<Seq<char>>) -> Seq<char>
    decreases paths.len(),
{
    if paths.len() == 0 {
        Seq::empty()
    } else {
        let piece = paths.last() + " = :val"@ + dec_rep(paths.len() - 1);
        if paths.len() == 1 {
            piece
        } else {
            upd_assignments(paths.drop_last()) + ", "@ + piece
        }
    }
}

/// The full update expression for a batch of attribute paths.
pub open spec fn spec_update_expression(paths: Seq<Seq<char>>) -> Seq<char> {
    "SET "@ + upd_assignments(paths)
}

/// The models of a vector of paths.
pub open spec fn paths_model(v: Seq<String>) -> Seq<Seq<char>> {
    v.map_values(|s: String| s@)
}

/// Build the update expression `SET p0 = :val0, p1 = :val1, ...` for a
/// batch of attribute paths, with the placeholder of each assignment
/// numbered by its position.
pub fn build_update_expression(paths: &Vec<String>) -> (r: String)
    ensures
        r@ == spec_update_expression(paths_model(paths@)),
{
    let ghost ps = paths_model(paths@);
    let mut out = String::from_str("SET ");
    let n = paths.len();
    let mut i: usize = 0;
    assert(out@ =~= "SET "@ + upd_assignments(ps.take(0)));
    while i < n
        invariant
            n == paths@.len(),
            i <= n,
            ps == paths_model(paths@),
            out@ == "SET "@ + upd_assignments(ps.take(i as int)),
        decreases n - i,
    {
        let ghost out_pre = out@;
        if i > 0 {
            out.append(", ");
        }
        out.append(paths[i].as_str());
        out.append(" = :val");
        push_dec(&mut out, i as u64);
        proof {
            let pre = ps.take(i as int);
            let post = ps.take(i + 1);
            assert(post.drop_last() =~= pre);
            assert(post.last() == ps[i as int]);
            assert(ps[i as int] == paths@[i as int]@);
            if i == 0 {
                assert(out@ =~= "SET "@ + upd_assignments(post));
            } else {
                assert(out@ =~= "SET "@ + (upd_assignments(pre) + ", "@
                    + (ps[i as int] + " = :val"@ + dec_rep(i as int))));
                assert(upd_assignments(post) =~= upd_assignments(pre) + ", "@
                    + (ps[i as int] + " = :val"@ + dec_rep(i as int)));
                assert(out@ =~= "SET "@ + upd_assignments(post));
            }
        }
        i = i + 1;
    }
    proof {
        assert(ps.take(n as int) =~= ps);
    }
    out
}

} // verus!
