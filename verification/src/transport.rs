//! The byte-stream capability the protocol engine drives, and a
//! deterministic in-memory implementation of it.
//!
//! The engine owns its transport exclusively and only ever needs two
//! operations: a blocking write of a whole buffer and a blocking
//! read of an exact number of bytes, bounded by the transport's own
//! timeout. Real serial hardware implements the same interface outside
//! the library; [`MockTransport`] implements it here, from a fixed
//! script of incoming bytes, for tests and for the proofs' benefit.

use vstd::prelude::*;

verus! {

/// A protocol-level failure.
///
/// `Nak` means the device rejected the command; `Timeout` means the
/// transport could not move any bytes before its deadline; `Truncated`
/// means the transport delivered fewer bytes than the protocol promised.
#[derive(Clone, Copy, Debug, PartialEq, Eq, Structural)]
pub enum ProtoError {
    Nak,
    Timeout,
    Truncated,
}

/// A half-duplex byte stream with blocking send and exact-length
/// receive, the only capability the protocol engine requires.
///
/// A transport is modelled by two byte sequences: everything sent on it
/// so far (`written`) and everything still waiting to be received
/// (`to_read`). A failed operation reports only `Timeout` or
/// `Truncated`; `Nak` is a protocol-level verdict and never originates
/// in the transport.
pub trait Transport: Sized {
    /// Every byte sent on this transport so far, in order. Verified
    /// implementations override this model; implementations outside
    /// the verifier may leave the default, which no proof relies on.
    open spec fn written(&self) -> Seq<u8> {
        Seq::empty()
    }

    /// The bytes still waiting to be received, in arrival order.
    /// Verified implementations override this model; implementations
    /// outside the verifier may leave the default.
    open spec fn to_read(&self) -> Seq<u8> {
        Seq::empty()
    }

    /// Sends all of `data`, blocking until it is accepted. Sending
    /// never consumes anything from the pending stream, whether it
    /// succeeds or fails.
    fn send(&mut self, data: &[u8]) -> (r: Result<(), ProtoError>)
        ensures
            final(self).to_read() == old(self).to_read(),
            r is Ok ==> final(self).written() == old(self).written() + data@,
            r is Err ==> !(r->Err_0 is Nak),
    ;

    /// Receives exactly `n` bytes, blocking up to the transport's
    /// timeout; on success they are the next `n` pending bytes.
    /// Receiving never sends anything, and even a failed receive
    /// consumes at most `n` pending bytes, from the front.
    fn recv_exact(&mut self, n: usize) -> (r: Result<Vec<u8>, ProtoError>)
        ensures
            final(self).written() == old(self).written(),
            r is Ok ==> {
                &&& n <= old(self).to_read().len()
                &&& r->Ok_0@ == old(self).to_read().take(n as int)
                &&& final(self).to_read() == old(self).to_read().skip(n as int)
            },
            r is Err ==> {
                &&& !(r->Err_0 is Nak)
                &&& exists|k: int|
                    0 <= k <= n && k <= old(self).to_read().len() && final(self).to_read() == old(
                        self,
                    ).to_read().skip(k)
            },
    ;
}

/// A deterministic in-memory transport: replies come from a fixed
/// script, and everything sent is recorded.
pub struct MockTransport {
    incoming: Vec<u8>,
    cursor: usize,
    outgoing: Vec<u8>,
}

impl MockTransport {
    /// A transport whose simulated device will return exactly `script`.
    pub fn new(script: Vec<u8>) -> (t: MockTransport)
        ensures
            t.written() == Seq::<u8>::empty(),
            t.to_read() == script@,
    {
        let t = MockTransport { incoming: script, cursor: 0, outgoing: Vec::new() };
        proof {
            assert(t.to_read() =~= t.incoming@);
        }
        t
    }

    /// Everything sent on this transport so far.
    pub fn sent_bytes(&self) -> (r: &Vec<u8>)
        ensures
            r@ == self.written(),
    {
        &self.outgoing
    }

    /// How many scripted bytes have not been received yet.
    pub fn unread_count(&self) -> (r: usize)
        ensures
            r == self.to_read().len(),
    {
        if self.cursor > self.incoming.len() {
            0
        } else {
            self.incoming.len() - self.cursor
        }
    }
}

impl Transport for MockTransport {
    closed spec fn written(&self) -> Seq<u8> {
        self.outgoing@
    }

    closed spec fn to_read(&self) -> Seq<u8> {
        if self.cursor <= self.incoming@.len() {
            self.incoming@.skip(self.cursor as int)
        } else {
            Seq::empty()
        }
    }

    fn send(&mut self, data: &[u8]) -> (r: Result<(), ProtoError>)
        ensures
            r is Ok,
    {
        let mut i: usize = 0;
        while i < data.len()
            invariant
                i <= data@.len(),
                self.outgoing@ == old(self).outgoing@ + data@.take(i as int),
                self.incoming@ == old(self).incoming@,
                self.cursor == old(self).cursor,
            decreases data@.len() - i,
        {
            self.outgoing.push(data[i]);
            i = i + 1;
            proof {
                assert(self.outgoing@ =~= old(self).outgoing@ + data@.take(i as int));
            }
        }
        proof {
            assert(data@.take(data@.len() as int) =~= data@);
        }
        Ok(())
    }

    fn recv_exact(&mut self, n: usize) -> (r: Result<Vec<u8>, ProtoError>)
        ensures
            r is Ok <==> n <= old(self).to_read().len(),
            r is Err ==> final(self).to_read() == old(self).to_read(),
    {
        if n == 0 {
            let out: Vec<u8> = Vec::new();
            proof {
                assert(out@ =~= self.to_read().take(0));
                assert(self.to_read().skip(0) =~= self.to_read());
            }
            return Ok(out);
        }
        if self.cursor > self.incoming.len() || n > self.incoming.len() - self.cursor {
            let available: usize = if self.cursor > self.incoming.len() {
                0
            } else {
                self.incoming.len() - self.cursor
            };
            proof {
                assert(self.to_read().skip(0) =~= self.to_read());
            }
            return Err(if available == 0 {
                ProtoError::Timeout
            } else {
                ProtoError::Truncated
            });
        }
        let mut out: Vec<u8> = Vec::new();
        let mut i: usize = 0;
        while i < n
            invariant
                i <= n,
                self.cursor + n <= self.incoming@.len(),
                self.incoming@.len() <= usize::MAX,
                out@ == self.incoming@.subrange(self.cursor as int, self.cursor + i),
                self == old(self),
            decreases n - i,
        {
            out.push(self.incoming[self.cursor + i]);
            i = i + 1;
            proof {
                assert(out@ =~= self.incoming@.subrange(self.cursor as int, self.cursor + i));
            }
        }
        proof {
            assert(out@ =~= old(self).to_read().take(n as int));
            assert(old(self).incoming@.skip(self.cursor + n) =~= old(self).to_read().skip(n as int));
        }
        self.cursor = self.cursor + n;
        Ok(out)
    }
}

} // verus!
