//! What becomes of the one-time keys that copies leave on their targets.
use vstd::prelude::*;
use vstd::string::*;

use crate::app::App;
use crate::cross_copy::{
    jobs_of, keys_revoked, lemma_side_pos, maybe_trusted, side_pos, warned, world, CrossCopyPhase,
    JobView, Outbox, World,
};
use crate::proto::{CommandView, Lang};
use crate::request_laws::{lemma_stands, stands_at};

verus! {

/// A text holds a word.
pub open spec fn holds(text: Seq<char>, word: Seq<char>) -> bool {
    exists|a: Seq<char>, b: Seq<char>| text == #[trigger] (a + word + b)
}

/// The commands to a session, as what was sent before and what was sent since.
spec fn grows(w: World, v: World, n: int) -> bool {
    &&& v.sides.len() == w.sides.len()
    &&& forall|k: int|
        0 <= k < w.sides.len() ==> {
            &&& (#[trigger] v.sides[k]).uid == w.sides[k].uid
            &&& v.sides[k].takes + n >= w.sides[k].takes
            &&& w.sides[k].log.is_prefix_of(v.sides[k].log)
        }
}

proof fn lemma_pos_kept(w: World, v: World, n: int, uid: u64)
    requires
        grows(w, v, n),
    ensures
        side_pos(v.sides, uid) == side_pos(w.sides, uid),
    decreases w.sides.len(),
{
    if w.sides.len() > 0 {
        let a = World { sides: w.sides.drop_last(), ..w };
        let b = World { sides: v.sides.drop_last(), ..v };
        assert(grows(a, b, n)) by {
            assert forall|k: int| 0 <= k < a.sides.len() implies {
                &&& (#[trigger] b.sides[k]).uid == a.sides[k].uid
                &&& b.sides[k].takes + n >= a.sides[k].takes
                &&& a.sides[k].log.is_prefix_of(b.sides[k].log)
            } by {
                assert(b.sides[k] == v.sides[k]);
            }
        }
        lemma_pos_kept(a, b, n, uid);
        assert(v.sides[w.sides.len() - 1].uid == w.sides[w.sides.len() - 1].uid);
    }
}

proof fn lemma_side_found(w: World, uid: u64)
    ensures
        match side_pos(w.sides, uid) {
            Some(i) => 0 <= i < w.sides.len() && w.sides[i].uid == uid,
            None => true,
        },
    decreases w.sides.len(),
{
    if w.sides.len() > 0 {
        lemma_side_found(World { sides: w.sides.drop_last(), ..w }, uid);
    }
}

spec fn revocation(j: JobView) -> CommandView {
    CommandView::UntrustTempKey { op_id: j.op_id, marker: j.marker }
}

proof fn lemma_revoked(w: World, jobs: Seq<JobView>, c: int, i: int)
    ensures
        grows(w, keys_revoked(w, jobs), jobs.len() as int),
        0 <= c < jobs.len() && maybe_trusted(jobs[c]) && side_pos(w.sides, jobs[c].dest_uid) == Some(
            i,
        ) && w.sides[i].takes >= jobs.len() ==> keys_revoked(w, jobs).sides[i].log.contains(
            revocation(jobs[c]),
        ),
        forall|k: int, m: int|
            0 <= k < w.sides.len() && w.sides[k].log.len() <= m < keys_revoked(
                w,
                jobs,
            ).sides[k].log.len() ==> (#[trigger] keys_revoked(w, jobs).sides[k].log[m]) is UntrustTempKey,
    decreases jobs.len(),
{
    if jobs.len() == 0 {
    } else {
        let d = jobs.drop_last();
        let v = keys_revoked(w, d);
        let u = keys_revoked(w, jobs);
        let job = jobs.last();
        lemma_revoked(w, d, c, i);
        lemma_pos_kept(w, v, d.len() as int, job.dest_uid);
        lemma_side_found(v, job.dest_uid);
        lemma_side_found(w, job.dest_uid);
        assert forall|k: int| 0 <= k < w.sides.len() implies {
            &&& (#[trigger] u.sides[k]).uid == w.sides[k].uid
            &&& u.sides[k].takes + jobs.len() >= w.sides[k].takes
            &&& w.sides[k].log.is_prefix_of(u.sides[k].log)
        } by {
            assert(v.sides[k].uid == w.sides[k].uid);
            assert(v.sides[k].log.is_prefix_of(u.sides[k].log));
        }
        if 0 <= c < jobs.len() && maybe_trusted(jobs[c]) && side_pos(w.sides, jobs[c].dest_uid)
            == Some(i) && w.sides[i].takes >= jobs.len() {
            lemma_side_found(w, jobs[c].dest_uid);
            assert(v.sides[i].uid == w.sides[i].uid);
            let cmd = revocation(jobs[c]);
            if c < d.len() {
                assert(d[c] == jobs[c]);
                let m = choose|m: int| 0 <= m < v.sides[i].log.len() && v.sides[i].log[m] == cmd;
                assert(u.sides[i].log[m] == cmd);
            } else {
                assert(v.sides[i].takes > 0);
                assert(u.sides[i].log == v.sides[i].log.push(cmd));
                assert(u.sides[i].log[v.sides[i].log.len() as int] == cmd);
            }
        }
        assert forall|k: int, m: int|
            0 <= k < w.sides.len() && w.sides[k].log.len() <= m < u.sides[k].log.len() implies (
        #[trigger] u.sides[k].log[m]) is UntrustTempKey by {
            if m < v.sides[k].log.len() {
                assert(v.sides[k].log[m] is UntrustTempKey);
            }
        }
    }
}

/// When the program ends, the target of every copy whose key it may still trust is told to revoke that
/// key, by its own number and marker, and no session is told anything else.
pub proof fn no_key_is_forgotten_at_the_end(
    before: App,
    after: App,
    out: Outbox,
    said: Outbox,
    c: int,
    i: int,
    k: int,
    m: int,
)
    requires
        world(after, said) == keys_revoked(world(before, out), jobs_of(before.cross_copy_jobs@)),
        0 <= c < before.cross_copy_jobs@.len(),
        before.cross_copy_jobs@[c].trust_established || before.cross_copy_jobs@[c].phase
            == CrossCopyPhase::TrustingB,
        stands_at(before, before.cross_copy_jobs@[c].dest_uid, i),
        before.sessions@[i].link.takes >= before.cross_copy_jobs@.len(),
        0 <= k < before.sessions@.len(),
    ensures
        after.sessions@.len() == before.sessions@.len(),
        exists|n: int|
            {
                &&& 0 <= n < after.sessions@[i].link.sent@.len()
                &&& (#[trigger] after.sessions@[i].link.sent@[n]) is UntrustTempKey
                &&& after.sessions@[i].link.sent@[n]->UntrustTempKey_op_id
                    == before.cross_copy_jobs@[c].op_id
                &&& after.sessions@[i].link.sent@[n]->UntrustTempKey_marker@
                    == before.cross_copy_jobs@[c].marker@
            },
        before.sessions@[k].link.sent@.len() <= m < after.sessions@[k].link.sent@.len()
            ==> after.sessions@[k].link.sent@[m] is UntrustTempKey,
{
    let w = world(before, out);
    let v = world(after, said);
    let jobs = jobs_of(before.cross_copy_jobs@);
    let j = before.cross_copy_jobs@[c];
    lemma_stands(before, j.dest_uid, i);
    lemma_side_pos(before.sessions@, j.dest_uid);
    assert(jobs[c] == j@);
    lemma_revoked(w, jobs, c, i);
    assert(v.sides.len() == after.sessions@.len());
    assert(w.sides.len() == before.sessions@.len());
    assert(v.sides[i].log == after.sessions@[i].link.log());
    assert(v.sides[k].log == after.sessions@[k].link.log());
    assert(w.sides[k].log == before.sessions@[k].link.log());
    let cmd = revocation(jobs[c]);
    let n = choose|n: int| 0 <= n < v.sides[i].log.len() && v.sides[i].log[n] == cmd;
    assert(after.sessions@[i].link.log()[n] == after.sessions@[i].link.sent@[n]@);
    if before.sessions@[k].link.sent@.len() <= m < after.sessions@[k].link.sent@.len() {
        assert(v.sides[k].log[m] is UntrustTempKey);
        assert(after.sessions@[k].link.log()[m] == after.sessions@[k].link.sent@[m]@);
    }
}

proof fn lemma_residue(lang: Lang, marker: Seq<char>, reason: Seq<char>)
    ensures
        holds(crate::cross_copy::residue_text(lang, marker, reason), marker),
        holds(crate::cross_copy::residue_text(lang, marker, reason), reason),
{
    let text = crate::cross_copy::residue_text(lang, marker, reason);
    match lang {
        Lang::Zh => {
            let a = "⚠ 临时公钥可能残留在目标机上（"@;
            let b = "）。请删除对应主机 ~/.ssh/authorized_keys 里含 "@;
            let c = " 的那一行。"@;
            assert(text =~= (a + reason + b) + marker + c);
            assert(text =~= a + reason + (b + marker + c));
        },
        Lang::En => {
            let a = "⚠ The temporary key may remain on the destination host ("@;
            let b = "). Remove the line containing "@;
            let c = " from ~/.ssh/authorized_keys there."@;
            assert(text =~= (a + reason + b) + marker + c);
            assert(text =~= a + reason + (b + marker + c));
        },
    }
}

/// Where a key may be left behind the user is told its marker: in the status line of the target, and
/// over everything where the target is gone or not connected; the log is told of it too.
pub proof fn a_key_left_behind_is_told_of(
    w: World,
    uid: u64,
    marker: Seq<char>,
    reason: Seq<char>,
    i: int,
)
    requires
        side_pos(w.sides, uid) == Some(i) || side_pos(w.sides, uid) is None,
    ensures
        side_pos(w.sides, uid) == Some(i) ==> holds(
            warned(w, uid, marker, reason).sides[i].status,
            marker,
        ),
        side_pos(w.sides, uid) is None || !w.sides[i].connected ==> warned(
            w,
            uid,
            marker,
            reason,
        ).toast is Some && holds(warned(w, uid, marker, reason).toast->0, marker),
        warned(w, uid, marker, reason).lines.len() == w.lines.len() + 1,
        warned(w, uid, marker, reason).jobs == w.jobs,
        warned(w, uid, marker, reason).replies == w.replies,
{
    lemma_residue(w.lang, marker, reason);
    lemma_side_found(w, uid);
}

} // verus!
