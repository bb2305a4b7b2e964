//! End-to-end checks of the protocol engine and chunked transfer over
//! the deterministic in-memory transport.

use serprog::engine::Programmer;
use serprog::progress::ProgressLog;
use serprog::transport::{MockTransport, ProtoError};
use serprog::wire::{
    encode_read_frame, encode_write_header, Command, ACK, NAK, OP_EXEC, OP_READ_N, OP_WRITE_N,
};

fn programmer_with_script(script: Vec<u8>) -> Programmer<MockTransport> {
    Programmer::new(MockTransport::new(script))
}

#[test]
fn read_frame_is_exact() {
    assert_eq!(
        encode_read_frame(0, 64),
        vec![0x0a, 0x00, 0x00, 0x00, 0x40, 0x00, 0x00]
    );
    assert_eq!(
        encode_read_frame(0x123456, 10),
        vec![0x0a, 0x56, 0x34, 0x12, 0x0a, 0x00, 0x00]
    );
    assert_eq!(encode_read_frame(0xffffff, 0), vec![0x0a, 0xff, 0xff, 0xff, 0x00, 0x00, 0x00]);
}

#[test]
fn write_header_is_exact() {
    assert_eq!(
        encode_write_header(0x001000, 10),
        vec![0x0d, 0x0a, 0x00, 0x00, 0x00, 0x10, 0x00]
    );
    assert_eq!(
        encode_write_header(0xabcdef, 64),
        vec![0x0d, 0x40, 0x00, 0x00, 0xef, 0xcd, 0xab]
    );
}

#[test]
fn read_chunk_sends_frame_and_returns_payload() {
    let mut script = vec![ACK];
    let payload: Vec<u8> = (0..64u8).collect();
    script.extend_from_slice(&payload);
    let mut p = programmer_with_script(script);

    let got = p.read_chunk(0, 64).unwrap();
    assert_eq!(got, payload);
    assert_eq!(
        p.transport.sent_bytes(),
        &vec![0x0a, 0x00, 0x00, 0x00, 0x40, 0x00, 0x00]
    );
    assert_eq!(p.transport.unread_count(), 0);
}

#[test]
fn read_128_bytes_takes_two_chunks() {
    let mut script = Vec::new();
    let mut expected = Vec::new();
    for chunk in 0..2u8 {
        script.push(ACK);
        for i in 0..64u8 {
            script.push(chunk * 100 + i / 2);
            expected.push(chunk * 100 + i / 2);
        }
    }
    let mut p = programmer_with_script(script);
    let mut log = ProgressLog::new();

    let got = p.read_bytes(0, 128, &mut log).unwrap();
    assert_eq!(got, expected);

    // two frames, the first exactly as the wire contract promises
    let sent = p.transport.sent_bytes();
    assert_eq!(sent.len(), 14);
    assert_eq!(&sent[0..7], &[0x0a, 0x00, 0x00, 0x00, 0x40, 0x00, 0x00]);
    // second chunk starts at address 64
    assert_eq!(&sent[7..14], &[0x0a, 0x40, 0x00, 0x00, 0x40, 0x00, 0x00]);

    // ceil(128 / 64) = 2 chunks, reported before each chunk's size is added
    assert_eq!(log.entries(), &vec![(0, 128), (64, 128)]);
}

#[test]
fn read_130_bytes_takes_three_chunks_with_short_tail() {
    let mut script = Vec::new();
    for len in [64usize, 64, 2] {
        script.push(ACK);
        for i in 0..len {
            script.push(i as u8);
        }
    }
    let mut p = programmer_with_script(script);
    let mut log = ProgressLog::new();

    let got = p.read_bytes(0x20, 130, &mut log).unwrap();
    assert_eq!(got.len(), 130);

    let sent = p.transport.sent_bytes();
    assert_eq!(sent.len(), 21);
    assert_eq!(&sent[0..7], &encode_read_frame(0x20, 64)[..]);
    assert_eq!(&sent[7..14], &encode_read_frame(0x60, 64)[..]);
    // final chunk: 130 mod 64 = 2 bytes, at address 0x20 + 128
    assert_eq!(&sent[14..21], &encode_read_frame(0xa0, 2)[..]);

    assert_eq!(log.entries(), &vec![(0, 130), (64, 130), (128, 130)]);
}

#[test]
fn progress_starts_at_zero_and_grows_by_chunk_sizes() {
    let mut script = Vec::new();
    for len in [64usize, 64, 64, 9] {
        script.push(ACK);
        script.extend(std::iter::repeat(0u8).take(len));
    }
    let mut p = programmer_with_script(script);
    let mut log = ProgressLog::new();
    p.read_bytes(0, 201, &mut log).unwrap();

    let entries = log.entries();
    assert_eq!(entries.len(), 4);
    assert_eq!(entries[0], (0, 201));
    for i in 1..entries.len() {
        let step = entries[i].0 - entries[i - 1].0;
        assert_eq!(step, 64);
        assert!(entries[i].0 > entries[i - 1].0);
        assert_eq!(entries[i].1, 201);
    }
}

#[test]
fn recv_with_ack_returns_exactly_the_payload() {
    let mut p = programmer_with_script(vec![ACK, 1, 2, 3]);
    let got = p.recv_with_ack(3).unwrap();
    assert_eq!(got, vec![1, 2, 3]);
    assert_eq!(p.transport.unread_count(), 0);
    assert!(p.transport.sent_bytes().is_empty());
}

#[test]
fn nak_aborts_without_consuming_payload() {
    let mut p = programmer_with_script(vec![NAK, 0xde, 0xad, 0xbe]);

    let r = p.read_chunk(0, 3);
    assert_eq!(r, Err(ProtoError::Nak));
    // the would-be payload is still pending on the transport
    assert_eq!(p.transport.unread_count(), 3);
    // the read frame itself was sent before the device refused
    assert_eq!(p.transport.sent_bytes(), &encode_read_frame(0, 3));
}

#[test]
fn nak_on_name_query_fails_with_nak() {
    let mut p = programmer_with_script(vec![0x15, 1, 2, 3, 4]);
    let r = p.query_name();
    assert_eq!(r, Err(ProtoError::Nak));
    assert_eq!(p.transport.unread_count(), 4);
    // the query frame itself was sent before the device refused
    assert_eq!(p.transport.sent_bytes(), &vec![0x03]);
}

#[test]
fn query_name_decodes_sixteen_bytes() {
    let mut script = vec![ACK];
    script.extend_from_slice(b"URP-PROGRAMMER\0\0");
    let mut p = programmer_with_script(script);

    let name = p.query_name().unwrap();
    assert_eq!(name, "URP-PROGRAMMER\0\0");
    assert_eq!(p.transport.sent_bytes(), &vec![0x03]);
}

#[test]
fn query_name_never_fails_on_invalid_bytes() {
    let mut script = vec![ACK];
    script.extend(std::iter::repeat(0xffu8).take(16));
    let mut p = programmer_with_script(script);

    let name = p.query_name().unwrap();
    assert_eq!(name.chars().count(), 16);
    assert!(name.chars().all(|c| c == '\u{fffd}'));
}

#[test]
fn query_name_replaces_only_non_ascii_bytes() {
    let mut script = vec![ACK];
    script.extend_from_slice(b"AB");
    script.push(0xc3);
    script.push(0xa4);
    script.extend_from_slice(b"CDEFGHIJKLM\0");
    let mut p = programmer_with_script(script);

    let name = p.query_name().unwrap();
    let chars: Vec<char> = name.chars().collect();
    assert_eq!(chars.len(), 16);
    assert_eq!(chars[0], 'A');
    assert_eq!(chars[1], 'B');
    assert_eq!(chars[2], '\u{fffd}');
    assert_eq!(chars[3], '\u{fffd}');
    assert_eq!(chars[4], 'C');
    assert_eq!(chars[15], '\0');
}

#[test]
fn write_10_bytes_at_0x1000() {
    let data: Vec<u8> = (0..10u8).collect();
    let mut p = programmer_with_script(Vec::new());
    let mut log = ProgressLog::new();

    p.write_bytes(0x001000, &data, &mut log).unwrap();

    let mut expected = vec![0x0d, 0x0a, 0x00, 0x00, 0x00, 0x10, 0x00];
    expected.extend_from_slice(&data);
    expected.push(0x0f);
    assert_eq!(p.transport.sent_bytes(), &expected);
    assert_eq!(log.entries(), &vec![(0, 10)]);
}

#[test]
fn write_chunk_emits_header_data_exec() {
    let data: Vec<u8> = (0..64u8).collect();
    let mut p = programmer_with_script(Vec::new());
    p.write_chunk(0xabcdef - 63, &data).unwrap();

    let sent = p.transport.sent_bytes();
    assert_eq!(sent.len(), 7 + 64 + 1);
    assert_eq!(sent[0], OP_WRITE_N);
    assert_eq!(&sent[7..71], &data[..]);
    assert_eq!(sent[71], OP_EXEC);
}

#[test]
fn write_130_bytes_takes_three_chunks() {
    let data: Vec<u8> = (0..130u8).collect();
    let mut p = programmer_with_script(Vec::new());
    let mut log = ProgressLog::new();

    p.write_bytes(0, &data, &mut log).unwrap();

    let sent = p.transport.sent_bytes();
    // each chunk costs 7 header bytes and 1 execute byte on top of its data
    assert_eq!(sent.len(), 130 + 3 * 8);
    assert_eq!(&sent[0..7], &encode_write_header(0, 64)[..]);
    assert_eq!(sent[71], OP_EXEC);
    assert_eq!(&sent[72..79], &encode_write_header(64, 64)[..]);
    assert_eq!(sent[143], OP_EXEC);
    assert_eq!(&sent[144..151], &encode_write_header(128, 2)[..]);
    assert_eq!(&sent[151..153], &[128, 129]);
    assert_eq!(sent[153], OP_EXEC);

    assert_eq!(log.entries(), &vec![(0, 130), (64, 130), (128, 130)]);
}

#[test]
fn empty_transfers_do_nothing() {
    let mut p = programmer_with_script(Vec::new());
    let mut log = ProgressLog::new();

    let got = p.read_bytes(0, 0, &mut log).unwrap();
    assert!(got.is_empty());
    p.write_bytes(0, &[], &mut log).unwrap();

    assert!(p.transport.sent_bytes().is_empty());
    assert!(log.entries().is_empty());
}

#[test]
fn silent_transport_times_out() {
    let mut p = programmer_with_script(Vec::new());
    let r = p.read_chunk(0, 4);
    assert_eq!(r, Err(ProtoError::Timeout));
}

#[test]
fn short_payload_is_truncated() {
    let mut p = programmer_with_script(vec![ACK, 1, 2]);
    let r = p.read_chunk(0, 4);
    assert_eq!(r, Err(ProtoError::Truncated));
    // only the acknowledgement byte was consumed
    assert_eq!(p.transport.unread_count(), 2);
}

#[test]
fn failing_chunk_aborts_read_after_last_report() {
    let mut script = vec![ACK];
    script.extend(std::iter::repeat(7u8).take(64));
    script.push(NAK);
    let mut p = programmer_with_script(script);
    let mut log = ProgressLog::new();

    let r = p.read_bytes(0, 128, &mut log);
    assert_eq!(r, Err(ProtoError::Nak));
    // only the first chunk completed; its report is the whole record
    assert_eq!(log.entries(), &vec![(0, 128)]);
    // only two frames were ever sent: the second chunk's NAK stopped everything
    assert_eq!(p.transport.sent_bytes().len(), 14);
}

#[test]
fn chunk_len_is_capped_at_chunk_size() {
    assert_eq!(serprog::chunks::chunk_len(200), 64);
    assert_eq!(serprog::chunks::chunk_len(64), 64);
    assert_eq!(serprog::chunks::chunk_len(10), 10);
    assert_eq!(serprog::chunks::chunk_len(0), 0);
}

#[test]
fn decode_name_is_one_char_per_byte() {
    let bytes = vec![0x41, 0x00, 0x7f, 0x80, 0xff];
    let chars = serprog::wire::decode_name(&bytes);
    assert_eq!(chars, vec!['A', '\0', '\x7f', '\u{fffd}', '\u{fffd}']);
}

#[test]
fn commands_encode_to_their_frames() {
    assert_eq!(Command::Nop.encode(), vec![0x00]);
    assert_eq!(Command::QueryName.encode(), vec![0x03]);
    assert_eq!(Command::Execute.encode(), vec![0x0f]);
    assert_eq!(
        (Command::ReadChunk { address: 0, length: 64 }).encode(),
        vec![0x0a, 0x00, 0x00, 0x00, 0x40, 0x00, 0x00]
    );
    assert_eq!(
        (Command::WriteChunkHeader { length: 10, address: 0x001000 }).encode(),
        vec![0x0d, 0x0a, 0x00, 0x00, 0x00, 0x10, 0x00]
    );
}

#[test]
fn opcodes_match_the_wire_protocol() {
    assert_eq!(ACK, 0x06);
    assert_eq!(NAK, 0x15);
    assert_eq!(serprog::wire::OP_NOP, 0x00);
    assert_eq!(serprog::wire::OP_QUERY_NAME, 0x03);
    assert_eq!(OP_READ_N, 0x0a);
    assert_eq!(OP_WRITE_N, 0x0d);
    assert_eq!(OP_EXEC, 0x0f);
}
