//! Chunked transfer: unbounded-length reads and writes over a protocol
//! limited to [`CHUNK_SIZE`] bytes per operation, in strict address
//! order, with one progress report per completed chunk.
//!
//! The spec functions here describe everything a whole transfer puts
//! on the wire and everything it consumes from the device, chunk by
//! chunk, so the transfer loops can promise their exact effect on the
//! transport. On any chunk failure a transfer aborts at once: no later
//! chunk is attempted, nothing is rolled back, and the progress
//! reports already delivered are the only record of how far it got.

use vstd::prelude::*;

use crate::chunks::{chunk_len, chunk_lens, progress_from, progress_reports, spec_chunk_len};
use crate::engine::Programmer;
use crate::progress::ProgressSink;
use crate::transport::{ProtoError, Transport};
use crate::wire::{read_frame, write_frame, ACK, CHUNK_SIZE, MAX_ADDRESS};
use vstd::slice::slice_subrange;

verus! {

/// Every frame a read of `total` bytes starting at `base` sends, in
/// order.
pub open spec fn read_frames(base: nat, total: nat) -> Seq<u8>
    decreases total,
{
    if total == 0 {
        Seq::empty()
    } else {
        let c = spec_chunk_len(total);
        read_frame(base, c) + read_frames(base + c, (total - c) as nat)
    }
}

/// Whether the pending byte stream `s` answers every chunk of a read
/// of `total` bytes: an `ACK` and a full payload for each in turn.
pub open spec fn read_stream_ok(s: Seq<u8>, total: nat) -> bool
    decreases total,
{
    if total == 0 {
        true
    } else {
        let c = spec_chunk_len(total);
        &&& s.len() >= 1 + c
        &&& s[0] == ACK
        &&& read_stream_ok(s.skip(1 + c as int), (total - c) as nat)
    }
}

/// The payload bytes a read of `total` bytes takes from the pending
/// stream `s`, with each chunk's acknowledgement byte stripped.
pub open spec fn read_payloads(s: Seq<u8>, total: nat) -> Seq<u8>
    decreases total,
{
    if total == 0 {
        Seq::empty()
    } else {
        let c = spec_chunk_len(total);
        s.subrange(1, 1 + c as int) + read_payloads(s.skip(1 + c as int), (total - c) as nat)
    }
}

/// How many pending bytes a read of `total` bytes consumes: one
/// acknowledgement byte per chunk plus the payloads.
pub open spec fn read_consumed(total: nat) -> nat
    decreases total,
{
    if total == 0 {
        0
    } else {
        let c = spec_chunk_len(total);
        1 + c + read_consumed((total - c) as nat)
    }
}

/// Every byte a write of `data` starting at `base` sends, in order:
/// for each chunk its header, its raw bytes, and the execute frame.
pub open spec fn write_stream(base: nat, data: Seq<u8>) -> Seq<u8>
    decreases data.len(),
{
    if data.len() == 0 {
        Seq::empty()
    } else {
        let c = spec_chunk_len(data.len());
        write_frame(base, data.take(c as int)) + write_stream(base + c, data.skip(c as int))
    }
}

/// Law: a read of `total` bytes sends exactly one 7-byte frame per
/// chunk, so the frame stream's length counts the chunks issued.
pub proof fn lemma_read_frames_len(base: nat, total: nat)
    ensures
        read_frames(base, total).len() == 7 * chunk_lens(total).len(),
    decreases total,
{
    if total == 0 {
    } else {
        let c = spec_chunk_len(total);
        lemma_read_frames_len(base + c, (total - c) as nat);
    }
}

/// Law: a write of `data` sends exactly its bytes plus 8 bytes of
/// framing — header and execute — per chunk.
pub proof fn lemma_write_stream_len(base: nat, data: Seq<u8>)
    ensures
        write_stream(base, data).len() == data.len() + 8 * chunk_lens(data.len()).len(),
    decreases data.len(),
{
    if data.len() == 0 {
    } else {
        let c = spec_chunk_len(data.len());
        lemma_write_stream_len(base + c, data.skip(c as int));
    }
}

/// A sequence that is the left part of a concatenation is a prefix of
/// the whole.
proof fn lemma_concat_prefix<A>(a: Seq<A>, b: Seq<A>, c: Seq<A>)
    requires
        a + b == c,
    ensures
        a.is_prefix_of(c),
{
    assert(a =~= c.subrange(0, a.len() as int));
}

impl<T: Transport> Programmer<T> {
    /// Reads `total` bytes starting at device address `base`, in
    /// chunks of at most [`CHUNK_SIZE`] bytes in strict address order,
    /// reporting `(bytes_done, total)` to `sink` after each chunk.
    ///
    /// On success the result is exactly the payload bytes the device
    /// supplied; a zero-length read asks nothing of the transport and
    /// always succeeds. On the first failing chunk the transfer
    /// aborts: the error is returned as is, the failing chunk's own
    /// report is never delivered, and the reports delivered so far — a
    /// strict prefix of the full report sequence — are the only record
    /// of the completed prefix.
    pub fn read_bytes<P: ProgressSink>(
        &mut self,
        base: usize,
        total: usize,
        sink: &mut P,
    ) -> (r: Result<Vec<u8>, ProtoError>)
        requires
            base <= MAX_ADDRESS,
            base + total <= MAX_ADDRESS + 1,
        ensures
            total == 0 ==> r is Ok,
            old(sink).reports().is_prefix_of(final(sink).reports()),
            final(sink).reports().is_prefix_of(
                old(sink).reports() + progress_reports(total as nat),
            ),
            r is Err ==> final(sink).reports().len() < old(sink).reports().len()
                + progress_reports(total as nat).len(),
            r matches Ok(data) ==> {
                &&& read_stream_ok(old(self).transport.to_read(), total as nat)
                &&& data@ == read_payloads(old(self).transport.to_read(), total as nat)
                &&& data@.len() == total
                &&& final(self).transport.written() == old(self).transport.written() + read_frames(
                    base as nat,
                    total as nat,
                )
                &&& final(self).transport.to_read() == old(self).transport.to_read().skip(
                    read_consumed(total as nat) as int,
                )
                &&& final(sink).reports() == old(sink).reports() + progress_reports(total as nat)
            },
    {
        let ghost s0 = self.transport.to_read();
        let ghost w0 = self.transport.written();
        let ghost r0 = sink.reports();
        let mut data: Vec<u8> = Vec::new();
        let mut done: usize = 0;
        let ghost mut consumed: int = 0;
        proof {
            assert(Seq::<u8>::empty() + read_payloads(s0, total as nat) =~= read_payloads(
                s0,
                total as nat,
            ));
            assert(s0.skip(0) =~= s0);
            assert(r0.is_prefix_of(r0)) by {
                assert(r0 =~= r0.subrange(0, r0.len() as int));
            }
        }
        while done < total
            invariant
                done <= total,
                base <= MAX_ADDRESS,
                base + total <= MAX_ADDRESS + 1,
                data@.len() == done,
                data@ + read_payloads(self.transport.to_read(), (total - done) as nat)
                    == read_payloads(s0, total as nat),
                read_stream_ok(self.transport.to_read(), (total - done) as nat) ==> read_stream_ok(
                    s0,
                    total as nat,
                ),
                self.transport.written() + read_frames((base + done) as nat, (total - done) as nat)
                    == w0 + read_frames(base as nat, total as nat),
                0 <= consumed <= s0.len(),
                self.transport.to_read() == s0.skip(consumed),
                consumed + read_consumed((total - done) as nat) == read_consumed(total as nat),
                r0 == old(sink).reports(),
                sink.reports() + progress_from(done as nat, total as nat) == r0 + progress_from(
                    0,
                    total as nat,
                ),
                r0.is_prefix_of(sink.reports()),
            decreases total - done,
        {
            let remaining = total - done;
            let clen = chunk_len(remaining);
            let addr = base + done;
            let ghost done_pre = done;
            let ghost rem = remaining as nat;
            let ghost c = clen as nat;
            let ghost cur = self.transport.to_read();
            let ghost data_pre = data@;
            let ghost w_pre = self.transport.written();
            let ghost reports_pre = sink.reports();
            let mut chunk = match self.read_chunk(addr, clen) {
                Ok(chunk) => chunk,
                Err(e) => {
                    proof {
                        lemma_concat_prefix(
                            sink.reports(),
                            progress_from(done as nat, total as nat),
                            r0 + progress_from(0, total as nat),
                        );
                        assert(progress_from(done as nat, total as nat).len() >= 1);
                    }
                    return Err(e);
                },
            };
            data.append(&mut chunk);
            sink.on_progress(done, total);
            done = done + clen;
            proof {
                consumed = consumed + 1 + c;
                let cur2 = self.transport.to_read();
                // payloads: one chunk moves from the stream to the buffer
                assert(read_payloads(cur, rem) == cur.subrange(1, 1 + c as int) + read_payloads(
                    cur.skip(1 + c as int),
                    (rem - c) as nat,
                ));
                vstd::seq_lib::lemma_concat_associative(
                    data_pre,
                    cur.subrange(1, 1 + c as int),
                    read_payloads(cur2, (rem - c) as nat),
                );
                // acknowledged so far: the learned ACK extends the chain back to the start
                assert(read_stream_ok(cur2, (rem - c) as nat) ==> read_stream_ok(
                    s0,
                    total as nat,
                )) by {
                    if read_stream_ok(cur2, (rem - c) as nat) {
                        assert(read_stream_ok(cur, rem));
                    }
                }
                // frames: the frame just sent is the next piece of the full frame stream
                assert(read_frames((base + done_pre) as nat, rem) == read_frame(addr as nat, c)
                    + read_frames((base + done_pre + c) as nat, (rem - c) as nat));
                vstd::seq_lib::lemma_concat_associative(
                    w_pre,
                    read_frame(addr as nat, c),
                    read_frames((base + done_pre + c) as nat, (rem - c) as nat),
                );
                // consumption: ack byte plus payload
                assert(cur2 =~= s0.skip(consumed));
                assert(read_consumed(rem) == 1 + c + read_consumed((rem - c) as nat));
                // progress: one report moves from "to come" to "delivered"
                assert(progress_from(done_pre as nat, total as nat) == seq![
                    (done_pre, total),
                ] + progress_from((done_pre + c) as nat, total as nat));
                assert(sink.reports() =~= reports_pre + seq![(done_pre, total)]);
                vstd::seq_lib::lemma_concat_associative(
                    reports_pre,
                    seq![(done_pre, total)],
                    progress_from((done_pre + c) as nat, total as nat),
                );
                assert(r0.is_prefix_of(sink.reports())) by {
                    assert(r0 =~= sink.reports().subrange(0, r0.len() as int));
                }
            }
        }
        proof {
            assert(data@ + Seq::<u8>::empty() =~= data@);
            assert(self.transport.written() + Seq::<u8>::empty() =~= self.transport.written());
            assert(sink.reports() + Seq::<(usize, usize)>::empty() =~= sink.reports());
            assert(final(sink).reports().is_prefix_of(r0 + progress_reports(total as nat))) by {
                assert(sink.reports() =~= (r0 + progress_reports(total as nat)).subrange(
                    0,
                    sink.reports().len() as int,
                ));
            }
        }
        Ok(data)
    }

    /// Writes all of `data` starting at device address `base`, in
    /// chunks of at most [`CHUNK_SIZE`] bytes in strict address order,
    /// reporting `(bytes_done, data.len())` to `sink` after each
    /// chunk. Nothing is ever read back, whatever the outcome: the
    /// device answers the write and execute pair with no synchronous
    /// response.
    ///
    /// On success exactly the header, data and execute bytes of every
    /// chunk have been sent, in order; writing nothing always
    /// succeeds. On the first failing chunk the transfer aborts with
    /// that error, the failing chunk's report is never delivered, and
    /// the reports delivered so far are a strict prefix of the full
    /// report sequence.
    pub fn write_bytes<P: ProgressSink>(
        &mut self,
        base: usize,
        data: &[u8],
        sink: &mut P,
    ) -> (r: Result<(), ProtoError>)
        requires
            base <= MAX_ADDRESS,
            base + data@.len() <= MAX_ADDRESS + 1,
        ensures
            data@.len() == 0 ==> r is Ok,
            final(self).transport.to_read() == old(self).transport.to_read(),
            old(sink).reports().is_prefix_of(final(sink).reports()),
            final(sink).reports().is_prefix_of(
                old(sink).reports() + progress_reports(data@.len()),
            ),
            r is Err ==> final(sink).reports().len() < old(sink).reports().len()
                + progress_reports(data@.len()).len(),
            r is Ok ==> {
                &&& final(self).transport.written() == old(self).transport.written() + write_stream(
                    base as nat,
                    data@,
                )
                &&& final(sink).reports() == old(sink).reports() + progress_reports(data@.len())
            },
            r matches Err(e) ==> !(e is Nak),
    {
        let total = data.len();
        let ghost s0 = self.transport.to_read();
        let ghost w0 = self.transport.written();
        let ghost r0 = sink.reports();
        let mut done: usize = 0;
        proof {
            assert(data@.skip(0) =~= data@);
            assert(r0.is_prefix_of(r0)) by {
                assert(r0 =~= r0.subrange(0, r0.len() as int));
            }
        }
        while done < total
            invariant
                done <= total,
                total == data@.len(),
                base <= MAX_ADDRESS,
                base + total <= MAX_ADDRESS + 1,
                s0 == old(self).transport.to_read(),
                self.transport.to_read() == s0,
                self.transport.written() + write_stream(
                    (base + done) as nat,
                    data@.skip(done as int),
                ) == w0 + write_stream(base as nat, data@),
                r0 == old(sink).reports(),
                sink.reports() + progress_from(done as nat, total as nat) == r0 + progress_from(
                    0,
                    total as nat,
                ),
                r0.is_prefix_of(sink.reports()),
            decreases total - done,
        {
            let remaining = total - done;
            let clen = chunk_len(remaining);
            let addr = base + done;
            let ghost done_pre = done;
            let ghost rem = remaining as nat;
            let ghost c = clen as nat;
            let ghost w_pre = self.transport.written();
            let ghost reports_pre = sink.reports();
            let chunk = slice_subrange(data, done, done + clen);
            match self.write_chunk(addr, chunk) {
                Ok(()) => {},
                Err(e) => {
                    proof {
                        lemma_concat_prefix(
                            sink.reports(),
                            progress_from(done as nat, total as nat),
                            r0 + progress_from(0, total as nat),
                        );
                        assert(progress_from(done as nat, total as nat).len() >= 1);
                    }
                    return Err(e);
                },
            }
            sink.on_progress(done, total);
            done = done + clen;
            proof {
                let tail = data@.skip(done_pre as int);
                assert(write_stream((base + done_pre) as nat, tail) == write_frame(
                    addr as nat,
                    tail.take(c as int),
                ) + write_stream((base + done_pre + c) as nat, tail.skip(c as int)));
                assert(tail.take(c as int) =~= data@.subrange(done_pre as int, done_pre + c));
                assert(tail.skip(c as int) =~= data@.skip(done_pre + c));
                vstd::seq_lib::lemma_concat_associative(
                    w_pre,
                    write_frame(addr as nat, chunk@),
                    write_stream((base + done_pre + c) as nat, data@.skip(done_pre + c)),
                );
                assert(progress_from(done_pre as nat, total as nat) == seq![
                    (done_pre, total),
                ] + progress_from((done_pre + c) as nat, total as nat));
                assert(sink.reports() =~= reports_pre + seq![(done_pre, total)]);
                vstd::seq_lib::lemma_concat_associative(
                    reports_pre,
                    seq![(done_pre, total)],
                    progress_from((done_pre + c) as nat, total as nat),
                );
                assert(r0.is_prefix_of(sink.reports())) by {
                    assert(r0 =~= sink.reports().subrange(0, r0.len() as int));
                }
            }
        }
        proof {
            assert(data@.skip(total as int) =~= Seq::<u8>::empty());
            assert(self.transport.written() + Seq::<u8>::empty() =~= self.transport.written());
            assert(sink.reports() + Seq::<(usize, usize)>::empty() =~= sink.reports());
            assert(final(sink).reports().is_prefix_of(r0 + progress_reports(data@.len()))) by {
                assert(sink.reports() =~= (r0 + progress_reports(data@.len())).subrange(
                    0,
                    sink.reports().len() as int,
                ));
            }
        }
        Ok(())
    }
}

} // verus!
