//! Wire-level definitions of the programmer protocol: opcode and handshake
//! byte values, the exact layout of each command frame, and the permissive
//! decoding of the device's fixed-size name field.
//!
//! Addresses and lengths travel as 24-bit little-endian fields. The read
//! header carries the address before the length; the write header carries
//! the length before the address. That asymmetry is part of the device's
//! wire contract and is preserved exactly.

use vstd::prelude::*;

verus! {

/// Handshake byte: command accepted, payload (if any) follows.
pub const ACK: u8 = 0x06;

/// Handshake byte: command rejected.
pub const NAK: u8 = 0x15;

/// Opcode: no operation.
pub const OP_NOP: u8 = 0x00;

/// Opcode: request the 16-byte programmer identity string.
pub const OP_QUERY_NAME: u8 = 0x03;

/// Opcode: read N bytes starting at an address.
pub const OP_READ_N: u8 = 0x0a;

/// Opcode: stage N bytes for writing at an address.
pub const OP_WRITE_N: u8 = 0x0d;

/// Opcode: commit the most recently staged write.
pub const OP_EXEC: u8 = 0x0f;

/// Largest payload the device accepts in one read or write operation.
pub const CHUNK_SIZE: usize = 64;

/// Largest valid device address (24-bit address space).
pub const MAX_ADDRESS: usize = 0xffffff;

/// Length in bytes of the programmer's identity field.
pub const NAME_LEN: usize = 16;

/// Low byte of a 24-bit little-endian field.
pub open spec fn le_byte0(n: nat) -> u8 {
    (n % 256) as u8
}

/// Middle byte of a 24-bit little-endian field.
pub open spec fn le_byte1(n: nat) -> u8 {
    ((n / 256) % 256) as u8
}

/// High byte of a 24-bit little-endian field.
pub open spec fn le_byte2(n: nat) -> u8 {
    ((n / 65536) % 256) as u8
}

/// The 7-byte read-command frame: opcode, then the address, then the
/// length, each as a 24-bit little-endian field.
pub open spec fn read_frame(addr: nat, len: nat) -> Seq<u8> {
    seq![
        OP_READ_N,
        le_byte0(addr),
        le_byte1(addr),
        le_byte2(addr),
        le_byte0(len),
        le_byte1(len),
        le_byte2(len),
    ]
}

/// The 7-byte write-command header: opcode, then the length, then the
/// address — the mirror image of the read frame's field order.
pub open spec fn write_header(addr: nat, len: nat) -> Seq<u8> {
    seq![
        OP_WRITE_N,
        le_byte0(len),
        le_byte1(len),
        le_byte2(len),
        le_byte0(addr),
        le_byte1(addr),
        le_byte2(addr),
    ]
}

/// Everything one staged-and-committed write chunk puts on the wire:
/// the header, the raw data with no framing of its own, and the one-byte
/// execute frame.
pub open spec fn write_frame(addr: nat, data: Seq<u8>) -> Seq<u8> {
    write_header(addr, data.len()) + data + seq![OP_EXEC]
}

/// Permissive decoding of one name byte: ASCII bytes stand for
/// themselves, anything else becomes the replacement character.
pub open spec fn decoded_byte(b: u8) -> char {
    if b < 0x80 {
        b as char
    } else {
        '\u{fffd}'
    }
}

/// Permissive decoding of the whole name field: one character per byte,
/// so a 16-byte field always yields a 16-character name.
pub open spec fn decoded_name(bytes: Seq<u8>) -> Seq<char> {
    bytes.map_values(|b: u8| decoded_byte(b))
}

/// A device command. Each serializes to a fixed-size, opcode-prefixed
/// frame; responses are never self-describing, so the expected reply
/// length is always known from the command itself.
#[derive(Clone, Copy, Debug, PartialEq, Eq, Structural)]
pub enum Command {
    /// Do nothing.
    Nop,
    /// Ask for the 16-byte programmer identity string.
    QueryName,
    /// Read `length` bytes starting at `address`.
    ReadChunk { address: usize, length: usize },
    /// Stage `length` bytes for writing at `address`; the raw data and
    /// an `Execute` follow separately.
    WriteChunkHeader { length: usize, address: usize },
    /// Commit the most recently staged write.
    Execute,
}

impl Command {
    /// Whether the command's fields fit the wire format: 24-bit
    /// addresses and chunk-sized lengths.
    pub open spec fn wf(self) -> bool {
        match self {
            Command::ReadChunk { address, length } => address <= MAX_ADDRESS && length
                <= CHUNK_SIZE,
            Command::WriteChunkHeader { length, address } => address <= MAX_ADDRESS && length
                <= CHUNK_SIZE,
            _ => true,
        }
    }

    /// The exact frame the command serializes to.
    pub open spec fn spec_frame(self) -> Seq<u8> {
        match self {
            Command::Nop => seq![OP_NOP],
            Command::QueryName => seq![OP_QUERY_NAME],
            Command::ReadChunk { address, length } => read_frame(address as nat, length as nat),
            Command::WriteChunkHeader { length, address } => write_header(
                address as nat,
                length as nat,
            ),
            Command::Execute => seq![OP_EXEC],
        }
    }

    /// Serializes the command into its frame.
    pub fn encode(self) -> (frame: Vec<u8>)
        requires
            self.wf(),
        ensures
            frame@ == self.spec_frame(),
    {
        match self {
            Command::Nop => {
                let mut frame: Vec<u8> = Vec::new();
                frame.push(OP_NOP);
                proof {
                    assert(frame@ =~= seq![OP_NOP]);
                }
                frame
            },
            Command::QueryName => {
                let mut frame: Vec<u8> = Vec::new();
                frame.push(OP_QUERY_NAME);
                proof {
                    assert(frame@ =~= seq![OP_QUERY_NAME]);
                }
                frame
            },
            Command::ReadChunk { address, length } => encode_read_frame(address, length),
            Command::WriteChunkHeader { length, address } => encode_write_header(address, length),
            Command::Execute => {
                let mut frame: Vec<u8> = Vec::new();
                frame.push(OP_EXEC);
                proof {
                    assert(frame@ =~= seq![OP_EXEC]);
                }
                frame
            },
        }
    }
}

/// Builds the exact read-command frame for one chunk.
pub fn encode_read_frame(addr: usize, len: usize) -> (frame: Vec<u8>)
    requires
        addr <= MAX_ADDRESS,
        len <= CHUNK_SIZE,
    ensures
        frame@ == read_frame(addr as nat, len as nat),
{
    let mut frame: Vec<u8> = Vec::new();
    frame.push(OP_READ_N);
    frame.push((addr % 256) as u8);
    frame.push(((addr / 256) % 256) as u8);
    frame.push(((addr / 65536) % 256) as u8);
    frame.push((len % 256) as u8);
    frame.push(((len / 256) % 256) as u8);
    frame.push(((len / 65536) % 256) as u8);
    proof {
        assert(frame@ =~= read_frame(addr as nat, len as nat));
    }
    frame
}

/// Builds the exact write-command header for one chunk.
pub fn encode_write_header(addr: usize, len: usize) -> (header: Vec<u8>)
    requires
        addr <= MAX_ADDRESS,
        len <= CHUNK_SIZE,
    ensures
        header@ == write_header(addr as nat, len as nat),
{
    let mut header: Vec<u8> = Vec::new();
    header.push(OP_WRITE_N);
    header.push((len % 256) as u8);
    header.push(((len / 256) % 256) as u8);
    header.push(((len / 65536) % 256) as u8);
    header.push((addr % 256) as u8);
    header.push(((addr / 256) % 256) as u8);
    header.push(((addr / 65536) % 256) as u8);
    proof {
        assert(header@ =~= write_header(addr as nat, len as nat));
    }
    header
}

/// Decodes the programmer name field permissively: never fails, and
/// returns exactly one character per input byte.
pub fn decode_name(bytes: &Vec<u8>) -> (name: Vec<char>)
    ensures
        name@ == decoded_name(bytes@),
        name@.len() == bytes@.len(),
{
    let mut name: Vec<char> = Vec::new();
    let mut i: usize = 0;
    while i < bytes.len()
        invariant
            i <= bytes@.len(),
            name@ == decoded_name(bytes@.take(i as int)),
            name@.len() == i,
        decreases bytes@.len() - i,
    {
        let b = bytes[i];
        if b < 0x80 {
            name.push(b as char);
        } else {
            name.push('\u{fffd}');
        }
        i = i + 1;
        proof {
            assert(name@ =~= decoded_name(bytes@.take(i as int)));
        }
    }
    proof {
        assert(bytes@.take(bytes@.len() as int) =~= bytes@);
    }
    name
}

/// Relies on `<String as FromIterator<&char>>::from_iter` (through
/// `Iterator::collect`): it builds the string holding exactly the
/// given characters in order.
#[verifier::external_body]
pub fn chars_to_string(chars: &Vec<char>) -> (r: String)
    ensures
        r@ == chars@,
{
    chars.iter().collect()
}

} // verus!
