//! The protocol engine: one command at a time, turned into its exact
//! wire frame, with the device's acknowledgement-framed response
//! decoded and checked.
//!
//! An engine owns its transport exclusively for the life of the
//! process; every contract below relates the transport's sent and
//! pending byte streams before and after the one command in flight.

use vstd::prelude::*;

use crate::transport::{ProtoError, Transport};
use crate::wire;
use crate::wire::{
    decoded_name, read_frame, write_frame, Command, ACK, CHUNK_SIZE, MAX_ADDRESS, NAME_LEN,
    OP_QUERY_NAME,
};

verus! {

/// The protocol engine for one programmer device.
///
/// It is created once per transport and is the only component that
/// reads or writes it, so frames are never interleaved.
pub struct Programmer<T: Transport> {
    /// The byte stream to the device.
    pub transport: T,
}

impl<T: Transport> Programmer<T> {
    /// An engine over its exclusively owned transport.
    pub fn new(transport: T) -> (p: Programmer<T>)
        ensures
            p.transport == transport,
    {
        Programmer { transport }
    }

    /// Reads the single acknowledgement byte, and on `ACK` exactly
    /// `expected_length` payload bytes after it.
    ///
    /// A `NAK` verdict is returned without reading anything further:
    /// the would-be payload stays on the transport. Whatever the
    /// outcome, nothing is sent and at most `1 + expected_length`
    /// pending bytes are consumed, from the front.
    pub fn recv_with_ack(&mut self, expected_length: usize) -> (r: Result<Vec<u8>, ProtoError>)
        ensures
            final(self).transport.written() == old(self).transport.written(),
            exists|k: int|
                0 <= k <= 1 + expected_length && k <= old(self).transport.to_read().len()
                    && final(self).transport.to_read() == old(self).transport.to_read().skip(k),
            r matches Ok(payload) ==> {
                &&& old(self).transport.to_read().len() >= 1 + expected_length
                &&& old(self).transport.to_read()[0] == ACK
                &&& payload@ == old(self).transport.to_read().subrange(
                    1,
                    1 + expected_length as int,
                )
                &&& final(self).transport.to_read() == old(self).transport.to_read().skip(
                    1 + expected_length as int,
                )
            },
            r matches Err(e) ==> (e is Nak ==> {
                &&& old(self).transport.to_read().len() >= 1
                &&& old(self).transport.to_read()[0] != ACK
                &&& final(self).transport.to_read() == old(self).transport.to_read().skip(1)
            }),
    {
        let ghost s0 = self.transport.to_read();
        let ack = match self.transport.recv_exact(1) {
            Ok(v) => v,
            Err(e) => {
                proof {
                    let k1 = choose|k: int|
                        0 <= k <= 1 && k <= s0.len() && self.transport.to_read() == s0.skip(k);
                    assert(0 <= k1 <= 1 + expected_length);
                }
                return Err(e);
            },
        };
        let ghost mid = s0.skip(1);
        if ack[0] != ACK {
            return Err(ProtoError::Nak);
        }
        match self.transport.recv_exact(expected_length) {
            Ok(payload) => {
                proof {
                    assert(payload@ =~= s0.subrange(1, 1 + expected_length as int));
                    assert(self.transport.to_read() =~= s0.skip(1 + expected_length as int));
                }
                Ok(payload)
            },
            Err(e) => {
                proof {
                    let k2 = choose|k: int|
                        0 <= k <= expected_length && k <= mid.len() && self.transport.to_read()
                            == mid.skip(k);
                    assert(mid.skip(k2) =~= s0.skip(1 + k2));
                }
                Err(e)
            },
        }
    }

    /// Asks the device for its identity and decodes the fixed 16-byte
    /// answer permissively into exactly 16 characters.
    pub fn query_name(&mut self) -> (r: Result<String, ProtoError>)
        ensures
            r matches Ok(name) ==> {
                &&& final(self).transport.written() == old(self).transport.written() + seq![
                    OP_QUERY_NAME,
                ]
                &&& old(self).transport.to_read().len() >= 1 + NAME_LEN
                &&& old(self).transport.to_read()[0] == ACK
                &&& name@ == decoded_name(
                    old(self).transport.to_read().subrange(1, 1 + NAME_LEN as int),
                )
                &&& name@.len() == NAME_LEN
                &&& final(self).transport.to_read() == old(self).transport.to_read().skip(
                    1 + NAME_LEN as int,
                )
            },
            r matches Err(e) ==> (e is Nak ==> {
                &&& final(self).transport.written() == old(self).transport.written() + seq![
                    OP_QUERY_NAME,
                ]
                &&& old(self).transport.to_read().len() >= 1
                &&& old(self).transport.to_read()[0] != ACK
                &&& final(self).transport.to_read() == old(self).transport.to_read().skip(1)
            }),
    {
        let query = Command::QueryName.encode();
        match self.transport.send(query.as_slice()) {
            Ok(()) => {},
            Err(e) => {
                return Err(e);
            },
        }
        let payload = match self.recv_with_ack(NAME_LEN) {
            Ok(v) => v,
            Err(e) => {
                return Err(e);
            },
        };
        let chars = wire::decode_name(&payload);
        Ok(wire::chars_to_string(&chars))
    }

    /// Reads one chunk of at most [`CHUNK_SIZE`] bytes from the given
    /// device address, emitting the exact 7-byte read frame.
    pub fn read_chunk(&mut self, addr: usize, len: usize) -> (r: Result<Vec<u8>, ProtoError>)
        requires
            len <= CHUNK_SIZE,
            addr <= MAX_ADDRESS,
            addr + len <= MAX_ADDRESS + 1,
        ensures
            r matches Ok(data) ==> {
                &&& final(self).transport.written() == old(self).transport.written() + read_frame(
                    addr as nat,
                    len as nat,
                )
                &&& old(self).transport.to_read().len() >= 1 + len
                &&& old(self).transport.to_read()[0] == ACK
                &&& data@ == old(self).transport.to_read().subrange(1, 1 + len as int)
                &&& data@.len() == len
                &&& final(self).transport.to_read() == old(self).transport.to_read().skip(
                    1 + len as int,
                )
            },
            r matches Err(e) ==> (e is Nak ==> {
                &&& final(self).transport.written() == old(self).transport.written() + read_frame(
                    addr as nat,
                    len as nat,
                )
                &&& old(self).transport.to_read().len() >= 1
                &&& old(self).transport.to_read()[0] != ACK
                &&& final(self).transport.to_read() == old(self).transport.to_read().skip(1)
            }),
    {
        let frame = (Command::ReadChunk { address: addr, length: len }).encode();
        match self.transport.send(frame.as_slice()) {
            Ok(()) => {},
            Err(e) => {
                return Err(e);
            },
        }
        self.recv_with_ack(len)
    }

    /// Stages one chunk of at most [`CHUNK_SIZE`] bytes for writing at
    /// the given device address and commits it: the exact 7-byte write
    /// header, the raw data, then the one-byte execute frame. The
    /// device sends no synchronous response to this pair, so nothing
    /// is read — the pending stream is untouched whatever the outcome.
    pub fn write_chunk(&mut self, addr: usize, data: &[u8]) -> (r: Result<(), ProtoError>)
        requires
            data@.len() <= CHUNK_SIZE,
            addr <= MAX_ADDRESS,
            addr + data@.len() <= MAX_ADDRESS + 1,
        ensures
            final(self).transport.to_read() == old(self).transport.to_read(),
            r is Ok ==> final(self).transport.written() == old(self).transport.written()
                + write_frame(addr as nat, data@),
            r matches Err(e) ==> !(e is Nak),
    {
        let header = (Command::WriteChunkHeader { length: data.len(), address: addr }).encode();
        match self.transport.send(header.as_slice()) {
            Ok(()) => {},
            Err(e) => {
                return Err(e);
            },
        }
        match self.transport.send(data) {
            Ok(()) => {},
            Err(e) => {
                return Err(e);
            },
        }
        let exec_frame = Command::Execute.encode();
        match self.transport.send(exec_frame.as_slice()) {
            Ok(()) => {
                proof {
                    assert(self.transport.written() =~= old(self).transport.written()
                        + write_frame(addr as nat, data@));
                }
                Ok(())
            },
            Err(e) => Err(e),
        }
    }
}

} // verus!
