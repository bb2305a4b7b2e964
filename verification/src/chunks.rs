//! The arithmetic of splitting a transfer into device-sized chunks,
//! and the progress reports a transfer emits, with the laws that hold
//! of them.
//!
//! A transfer of `total` bytes proceeds in strict address order: every
//! chunk but the last carries exactly [`CHUNK_SIZE`] bytes, and the
//! last carries the remainder. After each chunk completes, the
//! transfer reports the byte count completed *before* that chunk, so
//! the reports for a transfer of `total` bytes are `(0, total),
//! (CHUNK_SIZE, total), ...` and 100% is only implicit in completion.

use vstd::prelude::*;

use crate::wire::CHUNK_SIZE;

verus! {

/// The length of the next chunk when `remaining` bytes are left.
pub open spec fn spec_chunk_len(remaining: nat) -> nat {
    if remaining > CHUNK_SIZE {
        CHUNK_SIZE as nat
    } else {
        remaining
    }
}

/// The lengths of the chunks of a transfer of `total` bytes, in order.
pub open spec fn chunk_lens(total: nat) -> Seq<nat>
    decreases total,
{
    if total == 0 {
        Seq::empty()
    } else {
        let c = spec_chunk_len(total);
        seq![c] + chunk_lens((total - c) as nat)
    }
}

/// The progress reports still to come when `done` of `total` bytes
/// have been transferred.
pub open spec fn progress_from(done: nat, total: nat) -> Seq<(usize, usize)>
    decreases total - done,
{
    if done >= total {
        Seq::empty()
    } else {
        let c = spec_chunk_len((total - done) as nat);
        seq![((done as usize), (total as usize))] + progress_from(done + c, total)
    }
}

/// All progress reports of a transfer of `total` bytes.
pub open spec fn progress_reports(total: nat) -> Seq<(usize, usize)> {
    progress_from(0, total)
}

/// The length of the next chunk when `remaining` bytes are left.
pub fn chunk_len(remaining: usize) -> (c: usize)
    ensures
        c == spec_chunk_len(remaining as nat),
        c <= CHUNK_SIZE,
        c <= remaining,
        remaining > 0 ==> c > 0,
{
    if remaining > CHUNK_SIZE {
        CHUNK_SIZE
    } else {
        remaining
    }
}

/// Law: a transfer of `total` bytes is split into exactly
/// `ceil(total / CHUNK_SIZE)` chunks; every chunk but the last is a
/// full [`CHUNK_SIZE`], and the last chunk's length is
/// `total % CHUNK_SIZE`, or [`CHUNK_SIZE`] itself when `total` is a
/// positive exact multiple of it.
pub proof fn lemma_chunk_split(total: nat)
    ensures
        chunk_lens(total).len() == (total + CHUNK_SIZE - 1) / (CHUNK_SIZE as int),
        forall|i: int|
            0 <= i < chunk_lens(total).len() - 1 ==> chunk_lens(total)[i] == CHUNK_SIZE,
        total > 0 ==> chunk_lens(total).last() == (if total % (CHUNK_SIZE as nat) == 0 {
            CHUNK_SIZE as nat
        } else {
            total % (CHUNK_SIZE as nat)
        }),
    decreases total,
{
    let sz = CHUNK_SIZE as int;
    if total == 0 {
    } else if total <= CHUNK_SIZE {
        assert(chunk_lens((total - total) as nat) == Seq::<nat>::empty());
        assert(chunk_lens(total) =~= seq![total]);
        assert((total + sz - 1) / sz == 1) by (nonlinear_arith)
            requires 0 < total <= sz && sz == 64,
        ;
        if total < CHUNK_SIZE {
            assert(total % (CHUNK_SIZE as nat) == total) by (nonlinear_arith)
                requires 0 <= total < 64 && CHUNK_SIZE == 64,
            ;
        } else {
            assert(total % (CHUNK_SIZE as nat) == 0) by (nonlinear_arith)
                requires total == 64 && CHUNK_SIZE == 64,
            ;
        }
    } else {
        let rest = (total - CHUNK_SIZE) as nat;
        lemma_chunk_split(rest);
        assert(chunk_lens(total) == seq![CHUNK_SIZE as nat] + chunk_lens(rest));
        assert((total + sz - 1) / sz == 1 + (rest + sz - 1) / sz) by (nonlinear_arith)
            requires total > sz && sz == 64 && rest == total - sz,
        ;
        assert(total % (CHUNK_SIZE as nat) == rest % (CHUNK_SIZE as nat)) by (nonlinear_arith)
            requires total > 64 && CHUNK_SIZE == 64 && rest == total - 64,
        ;
        assert(chunk_lens(total).last() == chunk_lens(rest).last());
        assert forall|i: int| 0 <= i < chunk_lens(total).len() - 1 implies chunk_lens(total)[i]
            == CHUNK_SIZE by {
            if i > 0 {
                assert(chunk_lens(total)[i] == chunk_lens(rest)[i - 1]);
            }
        }
    }
}

/// Each remaining report of a transfer: the `done` values advance from
/// `done` in full-chunk strides, stay below `total`, and the reported
/// total never changes.
pub proof fn lemma_progress_from(done: nat, total: nat)
    requires
        done <= total,
        total <= usize::MAX,
    ensures
        progress_from(done, total).len() == chunk_lens((total - done) as nat).len(),
        forall|i: int|
            0 <= i < progress_from(done, total).len() ==> {
                &&& (#[trigger] progress_from(done, total)[i]).0 == done + i * CHUNK_SIZE
                &&& progress_from(done, total)[i].1 == total
                &&& done + i * CHUNK_SIZE < total
            },
    decreases total - done,
{
    if done >= total {
    } else {
        let c = spec_chunk_len((total - done) as nat);
        lemma_progress_from(done + c, total);
        assert forall|i: int| 0 <= i < progress_from(done, total).len() implies {
            &&& (#[trigger] progress_from(done, total)[i]).0 == done + i * CHUNK_SIZE
            &&& progress_from(done, total)[i].1 == total
            &&& done + i * CHUNK_SIZE < total
        } by {
            if i == 0 {
                assert(progress_from(done, total)[0] == ((done as usize), (total as usize)));
            } else {
                assert(progress_from(done, total)[i] == progress_from(done + c, total)[i - 1]);
                assert(c == CHUNK_SIZE) by {
                    if c < CHUNK_SIZE {
                        assert(done + c == total);
                        assert(progress_from(done + c, total).len() == 0);
                    }
                }
                assert((progress_from(done + c, total)[i - 1]).0 == (done + c) + (i - 1)
                    * CHUNK_SIZE);
                assert((progress_from(done + c, total)[i - 1]).1 == total);
                assert((done + c) + (i - 1) * CHUNK_SIZE < total);
                assert((done + c) + (i - 1) * CHUNK_SIZE == done + i * CHUNK_SIZE)
                    by (nonlinear_arith)
                    requires c == CHUNK_SIZE && CHUNK_SIZE == 64,
                ;
            }
        }
    }
}

/// Law: the progress reports of a transfer of `total` bytes form a
/// sequence with one entry per chunk, starting at `(0, total)`, whose
/// `done` values strictly increase by exactly the preceding chunk's
/// length, and whose reported total never changes.
pub proof fn lemma_progress_monotone(total: nat)
    requires
        total <= usize::MAX,
    ensures
        progress_reports(total).len() == chunk_lens(total).len(),
        total > 0 ==> progress_reports(total).first() == (0usize, total as usize),
        forall|i: int|
            0 <= i < progress_reports(total).len() ==> (#[trigger] progress_reports(total)[i]).1
                == total,
        forall|i: int|
            0 < i < progress_reports(total).len() ==> (#[trigger] progress_reports(total)[i]).0
                == progress_reports(total)[i - 1].0 + chunk_lens(total)[i - 1],
        forall|i: int|
            0 < i < progress_reports(total).len() ==> progress_reports(total)[i - 1].0 < (
            #[trigger] progress_reports(total)[i]).0,
{
    lemma_progress_from(0, total);
    lemma_chunk_split(total);
    if total > 0 {
        assert(progress_reports(total)[0] == ((0 as usize), (total as usize)));
    }
    assert forall|i: int| 0 < i < progress_reports(total).len() implies (
    #[trigger] progress_reports(total)[i]).0 == progress_reports(total)[i - 1].0 + chunk_lens(
        total,
    )[i - 1] && progress_reports(total)[i - 1].0 < progress_reports(total)[i].0 by {
        assert((progress_reports(total)[i]).0 == 0 + i * CHUNK_SIZE);
        assert((progress_reports(total)[i - 1]).0 == 0 + (i - 1) * CHUNK_SIZE);
        assert(chunk_lens(total)[i - 1] == CHUNK_SIZE);
        assert((i - 1) * CHUNK_SIZE + CHUNK_SIZE == i * CHUNK_SIZE) by (nonlinear_arith);
    }
}

} // verus!
