use toy_dns_server::buffer::BytePacketBuffer;
use toy_dns_server::error::BytePacketBufferError;
use toy_dns_server::header::{DnsHeader, ResultCode};
use toy_dns_server::packet::DnsPacket;
use toy_dns_server::question::{DnsQuestion, QueryType};
use toy_dns_server::record::{DnsRecord, Ipv4Address, Ipv6Address};

fn buffer_of(bytes: &[u8]) -> BytePacketBuffer {
    let mut buffer = BytePacketBuffer::new();
    buffer.buffer[..bytes.len()].copy_from_slice(bytes);
    buffer
}

fn read_name_at(bytes: &[u8], position: usize) -> (Result<(), BytePacketBufferError>, String, usize) {
    let mut buffer = buffer_of(bytes);
    buffer.seek(position).unwrap();
    let mut name = String::new();
    let result = buffer.read_qname(&mut name);
    (result, name, buffer.position)
}

// ---- the buffer ----

#[test]
fn new_buffer_is_zeroed() {
    let buffer = BytePacketBuffer::new();
    assert_eq!(buffer.position, 0);
    assert!(buffer.buffer.iter().all(|b| *b == 0));
    let other = BytePacketBuffer::default();
    assert_eq!(other.position, 0);
    assert_eq!(other.buffer.len(), 512);
}

#[test]
fn sequential_reads_are_big_endian() {
    let mut buffer = buffer_of(&[0x12, 0x34, 0x56, 0x78, 0x9a, 0xbc, 0xde]);
    assert_eq!(buffer.read(), Ok(0x12));
    assert_eq!(buffer.position, 1);
    assert_eq!(buffer.read_u16(), Ok(0x3456));
    assert_eq!(buffer.position, 3);
    assert_eq!(buffer.read_u32(), Ok(0x789abcde));
    assert_eq!(buffer.position, 7);
}

#[test]
fn sequential_writes_are_big_endian() {
    let mut buffer = BytePacketBuffer::new();
    assert_eq!(buffer.write(0x01), Ok(()));
    assert_eq!(buffer.write_u8(0x02), Ok(()));
    assert_eq!(buffer.write_u16(0x0304), Ok(()));
    assert_eq!(buffer.write_u32(0x05060708), Ok(()));
    assert_eq!(buffer.position, 8);
    assert_eq!(&buffer.buffer[..9], &[1, 2, 3, 4, 5, 6, 7, 8, 0]);
}

#[test]
fn reads_fail_at_the_end_of_the_buffer() {
    let mut buffer = BytePacketBuffer::new();
    buffer.seek(512).unwrap();
    assert_eq!(buffer.read(), Err(BytePacketBufferError::EndOfBuffer));
    assert_eq!(buffer.position, 512);

    buffer.seek(511).unwrap();
    assert_eq!(buffer.read_u16(), Err(BytePacketBufferError::EndOfBuffer));
    assert_eq!(buffer.position, 512);

    buffer.seek(509).unwrap();
    assert_eq!(buffer.read_u32(), Err(BytePacketBufferError::EndOfBuffer));
    assert_eq!(buffer.position, 512);

    buffer.seek(508).unwrap();
    assert_eq!(buffer.read_u32(), Ok(0));
    assert_eq!(buffer.position, 512);

    buffer.seek(9000).unwrap();
    assert_eq!(buffer.read_u16(), Err(BytePacketBufferError::EndOfBuffer));
    assert_eq!(buffer.position, 9000);
}

#[test]
fn writes_fail_at_the_end_of_the_buffer() {
    let mut buffer = BytePacketBuffer::new();
    buffer.seek(510).unwrap();
    assert_eq!(
        buffer.write_u32(0xaabbccdd),
        Err(BytePacketBufferError::EndOfBuffer)
    );
    assert_eq!(buffer.position, 512);
    assert_eq!(&buffer.buffer[509..], &[0, 0xaa, 0xbb]);

    assert_eq!(buffer.write(1), Err(BytePacketBufferError::EndOfBuffer));
    assert_eq!(buffer.write_u8(1), Err(BytePacketBufferError::EndOfBuffer));
    assert_eq!(buffer.write_u16(1), Err(BytePacketBufferError::EndOfBuffer));
    assert_eq!(buffer.position, 512);

    buffer.seek(511).unwrap();
    assert_eq!(buffer.write(7), Ok(()));
    assert_eq!(buffer.buffer[511], 7);
    assert_eq!(buffer.position, 512);
}

#[test]
fn get_reads_without_moving_the_cursor() {
    let mut buffer = buffer_of(&[9, 8, 7]);
    buffer.seek(2).unwrap();
    assert_eq!(buffer.get(0), Ok(9));
    assert_eq!(buffer.get(1), Ok(8));
    assert_eq!(buffer.get(511), Ok(0));
    assert_eq!(buffer.get(512), Err(BytePacketBufferError::EndOfBuffer));
    assert_eq!(buffer.position, 2);
}

#[test]
fn get_range_stops_short_of_the_last_byte() {
    let mut buffer = buffer_of(&[1, 2, 3, 4, 5]);
    assert_eq!(buffer.get_range(1, 3), Ok(&[2u8, 3, 4][..]));
    assert_eq!(buffer.get_range(4, 0), Ok(&[][..]));
    assert_eq!(buffer.get_range(0, 511).map(|s| s.len()), Ok(511));
    assert_eq!(
        buffer.get_range(0, 512),
        Err(BytePacketBufferError::EndOfBuffer)
    );
    assert_eq!(
        buffer.get_range(500, 12),
        Err(BytePacketBufferError::EndOfBuffer)
    );
    assert_eq!(
        buffer.get_range(512, 0),
        Err(BytePacketBufferError::EndOfBuffer)
    );
    assert_eq!(
        buffer.get_range(usize::MAX, usize::MAX),
        Err(BytePacketBufferError::EndOfBuffer)
    );
    assert_eq!(buffer.position, 0);
}

#[test]
fn set_patches_bytes_in_place() {
    let mut buffer = buffer_of(&[1, 2, 3, 4]);
    buffer.seek(4).unwrap();
    assert_eq!(buffer.set(0, 0xff), Ok(()));
    assert_eq!(buffer.set_u16(2, 0xabcd), Ok(()));
    assert_eq!(buffer.set_u16(510, 0x0102), Ok(()));
    assert_eq!(&buffer.buffer[..4], &[0xff, 2, 0xab, 0xcd]);
    assert_eq!(&buffer.buffer[510..], &[1, 2]);
    assert_eq!(buffer.position, 4);
}

#[test]
fn step_and_seek_move_the_cursor_freely() {
    let mut buffer = BytePacketBuffer::new();
    assert_eq!(buffer.step(10), Ok(()));
    assert_eq!(buffer.position, 10);
    assert_eq!(buffer.step(600), Ok(()));
    assert_eq!(buffer.position, 610);
    assert_eq!(buffer.seek(3), Ok(()));
    assert_eq!(buffer.position, 3);
}

#[test]
fn length_is_patched_after_the_data() {
    let mut buffer = BytePacketBuffer::new();
    let at = buffer.position;
    buffer.write_u16(0).unwrap();
    buffer.write_qname("ns1.example.com").unwrap();
    let size = buffer.position - at - 2;
    buffer.set_u16(at, size as u16).unwrap();
    assert_eq!(size, 17);
    assert_eq!(&buffer.buffer[..3], &[0, 17, 3]);
}

// ---- names ----

#[test]
fn name_is_written_label_by_label() {
    let mut buffer = BytePacketBuffer::new();
    assert_eq!(buffer.write_qname("google.com"), Ok(()));
    assert_eq!(buffer.position, 12);
    assert_eq!(
        &buffer.buffer[..12],
        &[6, b'g', b'o', b'o', b'g', b'l', b'e', 3, b'c', b'o', b'm', 0]
    );
}

#[test]
fn empty_name_is_a_single_zero() {
    let mut buffer = buffer_of(&[0xee, 0xee, 0xee]);
    assert_eq!(buffer.write_qname(""), Ok(()));
    assert_eq!(buffer.position, 1);
    assert_eq!(&buffer.buffer[..3], &[0, 0xee, 0xee]);
}

#[test]
fn empty_labels_are_written_as_they_stand() {
    let mut buffer = buffer_of(&[0xee; 8]);
    assert_eq!(buffer.write_qname("a."), Ok(()));
    assert_eq!(&buffer.buffer[..5], &[1, b'a', 0, 0, 0xee]);

    let mut buffer = buffer_of(&[0xee; 8]);
    assert_eq!(buffer.write_qname("a..b"), Ok(()));
    assert_eq!(&buffer.buffer[..7], &[1, b'a', 0, 1, b'b', 0, 0xee]);
}

#[test]
fn label_of_63_bytes_is_written() {
    let label = "a".repeat(63);
    let mut buffer = BytePacketBuffer::new();
    assert_eq!(buffer.write_qname(&label), Ok(()));
    assert_eq!(buffer.position, 65);
    assert_eq!(buffer.buffer[0], 63);
    assert_eq!(buffer.buffer[64], 0);
}

#[test]
fn label_of_64_bytes_is_refused() {
    let name = format!("ok.{}.com", "a".repeat(64));
    let mut buffer = BytePacketBuffer::new();
    assert_eq!(
        buffer.write_qname(&name),
        Err(BytePacketBufferError::SingleLabelExceedsCharactersOfLength)
    );
    assert_eq!(buffer.position, 3);
    assert_eq!(&buffer.buffer[..4], &[2, b'o', b'k', 0]);
}

#[test]
fn label_length_counts_bytes_not_characters() {
    let name = "é".repeat(32);
    let mut buffer = BytePacketBuffer::new();
    assert_eq!(
        buffer.write_qname(&name),
        Err(BytePacketBufferError::SingleLabelExceedsCharactersOfLength)
    );
    let name = "é".repeat(31);
    let mut buffer = BytePacketBuffer::new();
    assert_eq!(buffer.write_qname(&name), Ok(()));
    assert_eq!(buffer.buffer[0], 62);
    assert_eq!(&buffer.buffer[1..3], &[0xc3, 0xa9]);
}

#[test]
fn name_that_does_not_fit_ends_the_buffer() {
    let mut buffer = BytePacketBuffer::new();
    buffer.seek(505).unwrap();
    assert_eq!(
        buffer.write_qname("google.com"),
        Err(BytePacketBufferError::EndOfBuffer)
    );
    assert_eq!(buffer.position, 512);
    assert_eq!(&buffer.buffer[505..], &[6, b'g', b'o', b'o', b'g', b'l', b'e']);

    let long = format!("google.com.{}", "a".repeat(64));
    let mut buffer = BytePacketBuffer::new();
    buffer.seek(505).unwrap();
    assert_eq!(
        buffer.write_qname(&long),
        Err(BytePacketBufferError::EndOfBuffer)
    );

    let mut buffer = BytePacketBuffer::new();
    buffer.seek(500).unwrap();
    assert_eq!(buffer.write_qname("google.com"), Ok(()));
    assert_eq!(buffer.position, 512);
}

#[test]
fn name_is_read_in_lower_case() {
    let (result, name, position) = read_name_at(
        &[6, b'G', b'o', b'O', b'g', b'L', b'e', 3, b'C', b'O', b'M', 0, 0xee],
        0,
    );
    assert_eq!(result, Ok(()));
    assert_eq!(name, "google.com");
    assert_eq!(position, 12);
}

#[test]
fn root_name_is_read_as_empty() {
    let (result, name, position) = read_name_at(&[0, 3, b'c', b'o', b'm', 0], 0);
    assert_eq!(result, Ok(()));
    assert_eq!(name, "");
    assert_eq!(position, 1);
}

#[test]
fn name_read_is_appended() {
    let mut buffer = buffer_of(&[1, b'a', 1, b'b', 0]);
    let mut name = "x".to_string();
    assert_eq!(buffer.read_qname(&mut name), Ok(()));
    assert_eq!(name, "xa.b");
}

#[test]
fn written_name_is_read_back_in_lower_case() {
    for name in ["", "com", "Example.COM", "a.b.c.d.e", "MiXeD-Case_09.Org"] {
        let mut buffer = BytePacketBuffer::new();
        buffer.seek(40).unwrap();
        buffer.write_qname(name).unwrap();
        let end = buffer.position;
        buffer.seek(40).unwrap();
        let mut read = String::new();
        assert_eq!(buffer.read_qname(&mut read), Ok(()));
        assert_eq!(read, name.to_ascii_lowercase());
        assert_eq!(buffer.position, end);
    }
}

#[test]
fn pointer_is_followed_and_cursor_stays_behind_it() {
    let mut bytes = vec![0u8; 64];
    bytes[20..32].copy_from_slice(&[6, b'g', b'o', b'o', b'g', b'l', b'e', 3, b'c', b'o', b'm', 0]);
    bytes[40..46].copy_from_slice(&[3, b'w', b'w', b'w', 0xc0, 20]);
    let (result, name, position) = read_name_at(&bytes, 40);
    assert_eq!(result, Ok(()));
    assert_eq!(name, "www.google.com");
    assert_eq!(position, 46);
}

#[test]
fn pointer_offset_has_fourteen_bits() {
    let mut bytes = vec![0u8; 512];
    bytes[0x12c..0x12c + 3].copy_from_slice(&[1, b'z', 0]);
    bytes[0] = 0xc1;
    bytes[1] = 0x2c;
    let (result, name, position) = read_name_at(&bytes, 0);
    assert_eq!(result, Ok(()));
    assert_eq!(name, "z");
    assert_eq!(position, 2);

    let (result, _, position) = read_name_at(&[0xff, 0xff], 0);
    assert_eq!(result, Err(BytePacketBufferError::EndOfBuffer));
    assert_eq!(position, 2);
}

#[test]
fn five_pointers_are_followed() {
    let bytes = [
        0xc0, 2, 0xc0, 4, 0xc0, 6, 0xc0, 8, 0xc0, 10, 2, b'o', b'k', 0,
    ];
    let (result, name, position) = read_name_at(&bytes, 0);
    assert_eq!(result, Ok(()));
    assert_eq!(name, "ok");
    assert_eq!(position, 2);
}

#[test]
fn six_pointers_exceed_the_limit() {
    let bytes = [
        0xc0, 2, 0xc0, 4, 0xc0, 6, 0xc0, 8, 0xc0, 10, 0xc0, 12, 2, b'o', b'k', 0,
    ];
    let (result, name, position) = read_name_at(&bytes, 0);
    assert_eq!(result, Err(BytePacketBufferError::LimitOfJumpsExceeded(5)));
    assert_eq!(name, "");
    assert_eq!(position, 2);
}

#[test]
fn self_referential_pointer_exceeds_the_jump_limit() {
    let (result, name, position) = read_name_at(&[0xc0, 0x00], 0);
    assert_eq!(result, Err(BytePacketBufferError::LimitOfJumpsExceeded(5)));
    assert_eq!(name, "");
    assert_eq!(position, 2);

    let (result, _, position) = read_name_at(&[1, b'a', 0xc0, 0x02], 0);
    assert_eq!(result, Err(BytePacketBufferError::LimitOfJumpsExceeded(5)));
    assert_eq!(position, 4);
}

#[test]
fn name_that_leaves_the_buffer_fails() {
    let mut bytes = vec![0u8; 512];
    bytes[509] = 2;
    bytes[510] = b'a';
    bytes[511] = b'b';
    let (result, _, position) = read_name_at(&bytes, 509);
    assert_eq!(result, Err(BytePacketBufferError::EndOfBuffer));
    assert_eq!(position, 509);

    bytes[508] = 2;
    bytes[509] = b'a';
    bytes[510] = b'b';
    bytes[511] = 0;
    let (result, name, position) = read_name_at(&bytes, 508);
    assert_eq!(result, Ok(()));
    assert_eq!(name, "ab");
    assert_eq!(position, 512);

    bytes[511] = 0xc0;
    let (result, _, position) = read_name_at(&bytes, 511);
    assert_eq!(result, Err(BytePacketBufferError::EndOfBuffer));
    assert_eq!(position, 513);

    let (result, _, position) = read_name_at(&bytes, 512);
    assert_eq!(result, Err(BytePacketBufferError::EndOfBuffer));
    assert_eq!(position, 512);
}

#[test]
fn failed_read_keeps_what_was_read() {
    let mut bytes = vec![0u8; 512];
    bytes[500..504].copy_from_slice(&[1, b'a', 60, b'b']);
    let (result, name, position) = read_name_at(&bytes, 500);
    assert_eq!(result, Err(BytePacketBufferError::EndOfBuffer));
    assert_eq!(name, "a.");
    assert_eq!(position, 500);
}

#[test]
fn length_with_one_high_bit_is_a_plain_length() {
    let mut bytes = vec![b'x'; 70];
    bytes[0] = 0x40;
    bytes[65] = 0;
    let (result, name, position) = read_name_at(&bytes, 0);
    assert_eq!(result, Ok(()));
    assert_eq!(name, "x".repeat(64));
    assert_eq!(position, 66);
}

#[test]
fn label_outside_ascii_is_decoded_and_lowered() {
    let (result, name, _) = read_name_at(&[2, 0xc3, 0x89, 1, b'X', 0], 0);
    assert_eq!(result, Ok(()));
    assert_eq!(name, "é.x");

    let (result, name, _) = read_name_at(&[3, b'A', 0xff, b'B', 0], 0);
    assert_eq!(result, Ok(()));
    assert_eq!(name, "a\u{fffd}b");
}

// ---- the header ----

#[test]
fn header_defaults() {
    let header = DnsHeader::new();
    assert_eq!(header, DnsHeader::default());
    assert_eq!(header.id, 0);
    assert!(!header.recursion_desired);
    assert!(!header.truncated_message);
    assert!(!header.authoritative_answer);
    assert_eq!(header.opcode, 0);
    assert!(!header.response);
    assert_eq!(header.rescode, ResultCode::NoError);
    assert!(!header.checking_disabled);
    assert!(!header.authentic_data);
    assert!(!header.z);
    assert!(!header.recursion_available);
    assert_eq!(header.questions, 0);
    assert_eq!(header.answers, 0);
    assert_eq!(header.authoritative_entries, 0);
    assert_eq!(header.resource_entries, 0);
}

#[test]
fn result_codes_have_their_numbers() {
    let codes = [
        ResultCode::NoError,
        ResultCode::FormErr,
        ResultCode::ServFail,
        ResultCode::NxDomain,
        ResultCode::NotImp,
        ResultCode::Refused,
    ];
    for (n, code) in codes.iter().enumerate() {
        assert_eq!(ResultCode::from(n as u8), *code);
        assert_eq!(code.to_num(), n as u8);
    }
    for n in 6..=255u8 {
        assert_eq!(ResultCode::from(n), ResultCode::NoError);
    }
}

#[test]
fn header_flags_are_packed_bit_by_bit() {
    let mut header = DnsHeader::new();
    header.id = 0xbeef;
    header.recursion_desired = true;
    header.authoritative_answer = true;
    header.opcode = 2;
    header.response = true;
    header.rescode = ResultCode::NxDomain;
    header.authentic_data = true;
    header.recursion_available = true;
    header.questions = 1;
    header.answers = 0x0203;
    header.authoritative_entries = 4;
    header.resource_entries = 0xffff;
    let mut buffer = BytePacketBuffer::new();
    assert_eq!(header.write(&mut buffer), Ok(()));
    assert_eq!(buffer.position, 12);
    assert_eq!(
        &buffer.buffer[..12],
        &[0xbe, 0xef, 0x95, 0xa3, 0, 1, 2, 3, 0, 4, 0xff, 0xff]
    );

    let mut header = DnsHeader::new();
    header.truncated_message = true;
    header.opcode = 15;
    header.rescode = ResultCode::Refused;
    header.checking_disabled = true;
    header.z = true;
    let mut buffer = BytePacketBuffer::new();
    assert_eq!(header.write(&mut buffer), Ok(()));
    assert_eq!(&buffer.buffer[2..4], &[0x7a, 0x55]);
}

#[test]
fn header_is_read_back() {
    let mut buffer = buffer_of(&[0xbe, 0xef, 0x95, 0xa3, 0, 1, 2, 3, 0, 4, 0xff, 0xff]);
    let mut header = DnsHeader::new();
    assert_eq!(header.read(&mut buffer), Ok(()));
    assert_eq!(buffer.position, 12);
    assert_eq!(header.id, 0xbeef);
    assert!(header.recursion_desired);
    assert!(!header.truncated_message);
    assert!(header.authoritative_answer);
    assert_eq!(header.opcode, 2);
    assert!(header.response);
    assert_eq!(header.rescode, ResultCode::NxDomain);
    assert!(!header.checking_disabled);
    assert!(header.authentic_data);
    assert!(!header.z);
    assert!(header.recursion_available);
    assert_eq!(header.questions, 1);
    assert_eq!(header.answers, 0x0203);
    assert_eq!(header.authoritative_entries, 4);
    assert_eq!(header.resource_entries, 0xffff);

    let mut buffer = buffer_of(&[0, 0, 0x7a, 0x5f]);
    let mut header = DnsHeader::new();
    assert_eq!(header.read(&mut buffer), Ok(()));
    assert!(header.truncated_message);
    assert_eq!(header.opcode, 15);
    assert_eq!(header.rescode, ResultCode::NoError);
    assert!(header.checking_disabled);
    assert!(header.z);
    assert!(!header.recursion_available);
}

#[test]
fn header_round_trips_for_every_flag() {
    for bits in 0u32..(1 << 8) {
        for opcode in [0u8, 1, 7, 15] {
            for code in 0u8..6 {
                let mut header = DnsHeader::new();
                header.id = (bits * 251) as u16;
                header.recursion_desired = bits & 1 != 0;
                header.truncated_message = bits & 2 != 0;
                header.authoritative_answer = bits & 4 != 0;
                header.response = bits & 8 != 0;
                header.checking_disabled = bits & 16 != 0;
                header.authentic_data = bits & 32 != 0;
                header.z = bits & 64 != 0;
                header.recursion_available = bits & 128 != 0;
                header.opcode = opcode;
                header.rescode = ResultCode::from(code);
                header.questions = bits as u16;
                let mut buffer = BytePacketBuffer::new();
                header.write(&mut buffer).unwrap();
                buffer.seek(0).unwrap();
                let mut read = DnsHeader::new();
                read.read(&mut buffer).unwrap();
                assert_eq!(read, header);
            }
        }
    }
}

#[test]
fn header_cut_short_keeps_the_words_that_were_read() {
    let mut buffer = BytePacketBuffer::new();
    buffer.buffer[505..512].copy_from_slice(&[0x11, 0x22, 0x81, 0x03, 0, 9, 0xaa]);
    buffer.seek(505).unwrap();
    let mut header = DnsHeader::new();
    header.answers = 77;
    assert_eq!(header.read(&mut buffer), Err(BytePacketBufferError::EndOfBuffer));
    assert_eq!(buffer.position, 512);
    assert_eq!(header.id, 0x1122);
    assert!(header.recursion_desired);
    assert!(header.response);
    assert_eq!(header.rescode, ResultCode::NxDomain);
    assert_eq!(header.questions, 9);
    assert_eq!(header.answers, 77);

    let mut buffer = BytePacketBuffer::new();
    buffer.seek(501).unwrap();
    assert_eq!(
        DnsHeader::new().write(&mut buffer),
        Err(BytePacketBufferError::EndOfBuffer)
    );
    assert_eq!(buffer.position, 512);
}

// ---- questions ----

#[test]
fn query_types_have_their_numbers() {
    let known = [
        (1u16, QueryType::A),
        (2, QueryType::Ns),
        (5, QueryType::Cname),
        (15, QueryType::Mx),
        (28, QueryType::Aaaa),
    ];
    for (n, t) in known {
        assert_eq!(QueryType::from(n), t);
        assert_eq!(u16::from(t), n);
    }
    for n in [0u16, 3, 4, 6, 16, 27, 29, 255, 65535] {
        assert_eq!(QueryType::from(n), QueryType::Unknown(n));
        assert_eq!(u16::from(QueryType::Unknown(n)), n);
    }
    assert_eq!(u16::from(QueryType::Unknown(1)), 1);
}

#[test]
fn question_is_written_with_class_in() {
    let question = DnsQuestion::new("a.bc".to_string(), QueryType::Mx);
    assert_eq!(question.name, "a.bc");
    assert_eq!(question.qtype, QueryType::Mx);
    let mut buffer = BytePacketBuffer::new();
    assert_eq!(question.write(&mut buffer), Ok(()));
    assert_eq!(buffer.position, 10);
    assert_eq!(
        &buffer.buffer[..10],
        &[1, b'a', 2, b'b', b'c', 0, 0, 15, 0, 1]
    );
}

#[test]
fn question_is_read_and_its_class_ignored() {
    let mut buffer = buffer_of(&[1, b'A', 2, b'b', b'C', 0, 0, 28, 0x12, 0x34]);
    let mut question = DnsQuestion::new(String::new(), QueryType::Unknown(0));
    assert_eq!(question.read(&mut buffer), Ok(()));
    assert_eq!(question, DnsQuestion::new("a.bc".to_string(), QueryType::Aaaa));
    assert_eq!(buffer.position, 10);
}

#[test]
fn question_errors_leave_the_cursor_where_reading_stopped() {
    let mut buffer = BytePacketBuffer::new();
    buffer.buffer[507..512].copy_from_slice(&[1, b'q', 0, 0, 1]);
    buffer.seek(507).unwrap();
    let mut question = DnsQuestion::new(String::new(), QueryType::Unknown(0));
    assert_eq!(question.read(&mut buffer), Err(BytePacketBufferError::EndOfBuffer));
    assert_eq!(question, DnsQuestion::new("q".to_string(), QueryType::A));
    assert_eq!(buffer.position, 512);

    let question = DnsQuestion::new(format!("{}.x", "l".repeat(70)), QueryType::A);
    let mut buffer = BytePacketBuffer::new();
    assert_eq!(
        question.write(&mut buffer),
        Err(BytePacketBufferError::SingleLabelExceedsCharactersOfLength)
    );
    assert_eq!(buffer.position, 0);
}

// ---- records ----

fn sample_records() -> Vec<DnsRecord> {
    vec![
        DnsRecord::A {
            domain: "a.example.com".to_string(),
            addr: Ipv4Address { octets: [192, 0, 2, 1] },
            ttl: 0x01020304,
        },
        DnsRecord::Ns {
            domain: "example.com".to_string(),
            host: "ns1.example.com".to_string(),
            ttl: 3600,
        },
        DnsRecord::Cname {
            domain: "www.example.com".to_string(),
            host: "a.example.com".to_string(),
            ttl: 1,
        },
        DnsRecord::Mx {
            domain: "example.com".to_string(),
            priority: 10,
            host: "mail.example.com".to_string(),
            ttl: 0xffffffff,
        },
        DnsRecord::Aaaa {
            domain: "".to_string(),
            addr: Ipv6Address {
                segments: [0x2001, 0x0db8, 0, 0, 0, 0xff00, 0x0042, 0x8329],
            },
            ttl: 0,
        },
    ]
}

#[test]
fn a_record_bytes() {
    let record = DnsRecord::A {
        domain: "ab".to_string(),
        addr: Ipv4Address { octets: [1, 2, 3, 4] },
        ttl: 0x01020304,
    };
    let mut buffer = BytePacketBuffer::new();
    assert_eq!(record.write(&mut buffer), Ok(18));
    assert_eq!(
        &buffer.buffer[..19],
        &[2, b'a', b'b', 0, 0, 1, 0, 1, 1, 2, 3, 4, 0, 4, 1, 2, 3, 4, 0]
    );
}

#[test]
fn ns_record_length_is_filled_in() {
    let record = DnsRecord::Ns {
        domain: "com".to_string(),
        host: "a.gtld-servers.net".to_string(),
        ttl: 172800,
    };
    let mut buffer = BytePacketBuffer::new();
    buffer.seek(7).unwrap();
    assert_eq!(record.write(&mut buffer), Ok(35));
    assert_eq!(buffer.position, 42);
    assert_eq!(
        &buffer.buffer[7..24],
        &[3, b'c', b'o', b'm', 0, 0, 2, 0, 1, 0, 2, 0xa3, 0, 0, 20, 1, b'a']
    );
}

#[test]
fn cname_and_mx_record_bytes() {
    let record = DnsRecord::Cname { domain: "w".to_string(), host: "x.y".to_string(), ttl: 5 };
    let mut buffer = BytePacketBuffer::new();
    assert_eq!(record.write(&mut buffer), Ok(18));
    assert_eq!(
        &buffer.buffer[..18],
        &[1, b'w', 0, 0, 5, 0, 1, 0, 0, 0, 5, 0, 5, 1, b'x', 1, b'y', 0]
    );

    let record = DnsRecord::Mx {
        domain: "w".to_string(),
        priority: 0x0102,
        host: "m".to_string(),
        ttl: 5,
    };
    let mut buffer = BytePacketBuffer::new();
    assert_eq!(record.write(&mut buffer), Ok(18));
    assert_eq!(
        &buffer.buffer[..18],
        &[1, b'w', 0, 0, 15, 0, 1, 0, 0, 0, 5, 0, 5, 1, 2, 1, b'm', 0]
    );
}

#[test]
fn aaaa_record_bytes() {
    let record = DnsRecord::Aaaa {
        domain: "".to_string(),
        addr: Ipv6Address { segments: [0x2001, 0x0db8, 0, 1, 2, 0xff00, 0x0042, 0x8329] },
        ttl: 9,
    };
    let mut buffer = BytePacketBuffer::new();
    assert_eq!(record.write(&mut buffer), Ok(27));
    assert_eq!(
        &buffer.buffer[..27],
        &[
            0, 0, 28, 0, 1, 0, 0, 0, 9, 0, 16, 0x20, 0x01, 0x0d, 0xb8, 0, 0, 0, 1, 0, 2, 0xff, 0,
            0, 0x42, 0x83, 0x29
        ]
    );
}

#[test]
fn unknown_record_is_not_written() {
    let record = DnsRecord::Unknown {
        domain: "example.com".to_string(),
        qtype: 99,
        data_len: 4,
        ttl: 7,
    };
    let mut buffer = buffer_of(&[0xee; 4]);
    buffer.seek(2).unwrap();
    assert_eq!(record.write(&mut buffer), Ok(0));
    assert_eq!(buffer.position, 2);
    assert_eq!(&buffer.buffer[..4], &[0xee; 4]);

    buffer.seek(600).unwrap();
    assert_eq!(record.write(&mut buffer), Ok(0));
}

#[test]
fn unknown_record_data_is_skipped() {
    let mut buffer = buffer_of(&[
        1, b'T', 0, 0, 16, 0, 1, 0, 0, 1, 0, 0, 3, b'a', b'b', b'c', 0xee,
    ]);
    assert_eq!(
        DnsRecord::read(&mut buffer),
        Ok(DnsRecord::Unknown { domain: "t".to_string(), qtype: 16, data_len: 3, ttl: 256 })
    );
    assert_eq!(buffer.position, 16);

    let mut buffer = buffer_of(&[0, 0, 99, 0, 1, 0, 0, 0, 0, 0xff, 0xff]);
    assert_eq!(
        DnsRecord::read(&mut buffer),
        Ok(DnsRecord::Unknown { domain: String::new(), qtype: 99, data_len: 0xffff, ttl: 0 })
    );
    assert_eq!(buffer.position, 11 + 0xffff);
}

#[test]
fn records_are_read_back() {
    for record in sample_records() {
        let mut buffer = BytePacketBuffer::new();
        buffer.seek(13).unwrap();
        let written = record.write(&mut buffer).unwrap();
        assert_eq!(buffer.position, 13 + written);
        buffer.seek(13).unwrap();
        assert_eq!(DnsRecord::read(&mut buffer), Ok(record));
        assert_eq!(buffer.position, 13 + written);
    }
}

#[test]
fn record_data_length_is_ignored_for_known_types() {
    let mut buffer = buffer_of(&[0, 0, 1, 0, 1, 0, 0, 0, 60, 0, 99, 10, 0, 0, 1]);
    assert_eq!(
        DnsRecord::read(&mut buffer),
        Ok(DnsRecord::A {
            domain: String::new(),
            addr: Ipv4Address { octets: [10, 0, 0, 1] },
            ttl: 60
        })
    );
    assert_eq!(buffer.position, 15);
}

#[test]
fn record_with_compressed_names_is_read() {
    let mut bytes = vec![0u8; 64];
    bytes[0..5].copy_from_slice(&[3, b'c', b'o', b'm', 0]);
    bytes[10..28].copy_from_slice(&[
        2, b'e', b'x', 0xc0, 0, 0, 15, 0, 1, 0, 0, 0, 60, 0, 7, 0, 5, 4,
    ]);
    bytes[28..34].copy_from_slice(&[b'M', b'A', b'I', b'L', 0xc0, 10]);
    let mut buffer = buffer_of(&bytes);
    buffer.seek(10).unwrap();
    assert_eq!(
        DnsRecord::read(&mut buffer),
        Ok(DnsRecord::Mx {
            domain: "ex.com".to_string(),
            priority: 5,
            host: "mail.ex.com".to_string(),
            ttl: 60
        })
    );
    assert_eq!(buffer.position, 34);
}

#[test]
fn record_errors() {
    let record = DnsRecord::Ns {
        domain: "example.com".to_string(),
        host: format!("{}.example.com", "h".repeat(64)),
        ttl: 1,
    };
    let mut buffer = BytePacketBuffer::new();
    assert_eq!(
        record.write(&mut buffer),
        Err(BytePacketBufferError::SingleLabelExceedsCharactersOfLength)
    );
    assert_eq!(buffer.position, 23);
    assert_eq!(&buffer.buffer[19..24], &[0, 1, 0, 0, 0]);

    let record = DnsRecord::A {
        domain: "example.com".to_string(),
        addr: Ipv4Address { octets: [1, 1, 1, 1] },
        ttl: 1,
    };
    let mut buffer = BytePacketBuffer::new();
    buffer.seek(490).unwrap();
    assert_eq!(record.write(&mut buffer), Err(BytePacketBufferError::EndOfBuffer));
    assert_eq!(buffer.position, 512);

    let mut buffer = buffer_of(&[0, 0, 1, 0, 1, 0, 0]);
    buffer.seek(505).unwrap();
    assert_eq!(DnsRecord::read(&mut buffer), Err(BytePacketBufferError::EndOfBuffer));

    let mut buffer = buffer_of(&[0xc0, 0]);
    assert_eq!(
        DnsRecord::read(&mut buffer),
        Err(BytePacketBufferError::LimitOfJumpsExceeded(5))
    );
}

// ---- whole messages ----

#[test]
fn decodes_a_query_for_google_com() {
    let mut buffer = buffer_of(&[
        0x86, 0x2a, 0x01, 0x20, 0x00, 0x01, 0x00, 0x00, 0x00, 0x00, 0x00, 0x00, 0x06, 0x67, 0x6f,
        0x6f, 0x67, 0x6c, 0x65, 0x03, 0x63, 0x6f, 0x6d, 0x00, 0x00, 0x01, 0x00, 0x01,
    ]);
    let packet = DnsPacket::from_buffer(&mut buffer).unwrap();
    assert_eq!(packet.header.id, 0x862a);
    assert!(packet.header.recursion_desired);
    assert!(packet.header.authentic_data);
    assert_eq!(packet.header.questions, 1);
    assert_eq!(packet.questions.len(), 1);
    assert_eq!(
        packet.questions[0],
        DnsQuestion::new("google.com".to_string(), QueryType::A)
    );
    assert!(packet.answers.is_empty());
    assert!(packet.authorities.is_empty());
    assert!(packet.resources.is_empty());
    assert_eq!(buffer.position, 28);
}

#[test]
fn encodes_a_query_for_google_com() {
    let mut packet = DnsPacket::new();
    packet.header.id = 6666;
    packet.header.recursion_desired = true;
    packet
        .questions
        .push(DnsQuestion::new("google.com".to_string(), QueryType::A));
    let mut buffer = BytePacketBuffer::new();
    packet.write(&mut buffer).unwrap();
    assert_eq!(buffer.position, 28);
    assert_eq!(
        &buffer.buffer[..28],
        &[
            0x1a, 0x0a, 0x01, 0x00, 0x00, 0x01, 0x00, 0x00, 0x00, 0x00, 0x00, 0x00, 0x06, 0x67,
            0x6f, 0x6f, 0x67, 0x6c, 0x65, 0x03, 0x63, 0x6f, 0x6d, 0x00, 0x00, 0x01, 0x00, 0x01,
        ]
    );
    assert_eq!(packet.header.questions, 1);
}

#[test]
fn new_packet_is_empty() {
    let packet = DnsPacket::new();
    assert_eq!(packet, DnsPacket::default());
    assert_eq!(packet.header, DnsHeader::new());
    assert!(packet.questions.is_empty());
    assert!(packet.answers.is_empty());
    assert!(packet.authorities.is_empty());
    assert!(packet.resources.is_empty());
}

#[test]
fn counts_are_set_from_the_sections_on_write() {
    let mut packet = DnsPacket::new();
    packet.header.questions = 9;
    packet.header.answers = 9;
    packet.header.authoritative_entries = 9;
    packet.header.resource_entries = 9;
    packet.questions.push(DnsQuestion::new("q".to_string(), QueryType::A));
    let records = sample_records();
    packet.answers.push(records[0].clone());
    packet.answers.push(records[2].clone());
    packet.resources.push(records[4].clone());
    let mut buffer = BytePacketBuffer::new();
    packet.write(&mut buffer).unwrap();
    assert_eq!(packet.header.questions, 1);
    assert_eq!(packet.header.answers, 2);
    assert_eq!(packet.header.authoritative_entries, 0);
    assert_eq!(packet.header.resource_entries, 1);
    assert_eq!(&buffer.buffer[4..12], &[0, 1, 0, 2, 0, 0, 0, 1]);
}

#[test]
fn message_is_read_back() {
    let records = sample_records();
    let mut packet = DnsPacket::new();
    packet.header.id = 0x1234;
    packet.header.response = true;
    packet.header.opcode = 3;
    packet.header.rescode = ResultCode::Refused;
    packet.header.recursion_available = true;
    packet.header.answers = 40;
    packet
        .questions
        .push(DnsQuestion::new("WWW.Example.Com".to_string(), QueryType::Cname));
    packet.questions.push(DnsQuestion::new("".to_string(), QueryType::Unknown(255)));
    packet.answers.push(records[2].clone());
    packet.answers.push(records[0].clone());
    packet.authorities.push(records[1].clone());
    packet.resources.push(records[3].clone());
    packet.resources.push(records[4].clone());

    let mut buffer = BytePacketBuffer::new();
    packet.write(&mut buffer).unwrap();
    let end = buffer.position;
    buffer.seek(0).unwrap();
    let read = DnsPacket::from_buffer(&mut buffer).unwrap();
    assert_eq!(buffer.position, end);

    let mut expected = packet.clone();
    expected.questions[0].name = "www.example.com".to_string();
    assert_eq!(expected.header.answers, 2);
    assert_eq!(read, expected);
}

#[test]
fn unknown_record_breaks_the_round_trip() {
    let mut packet = DnsPacket::new();
    packet.answers.push(DnsRecord::Unknown {
        domain: "x".to_string(),
        qtype: 99,
        data_len: 0,
        ttl: 0,
    });
    let mut buffer = BytePacketBuffer::new();
    packet.write(&mut buffer).unwrap();
    assert_eq!(buffer.position, 12);
    assert_eq!(packet.header.answers, 1);
    buffer.seek(0).unwrap();
    let read = DnsPacket::from_buffer(&mut buffer).unwrap();
    assert_eq!(read.answers.len(), 1);
    assert_ne!(read, packet);
}

#[test]
fn message_that_does_not_fit_fails() {
    let mut packet = DnsPacket::new();
    for i in 0..40 {
        packet.answers.push(DnsRecord::A {
            domain: format!("host{}.example.com", i),
            addr: Ipv4Address { octets: [10, 0, 0, i as u8] },
            ttl: 60,
        });
    }
    let mut buffer = BytePacketBuffer::new();
    assert_eq!(packet.write(&mut buffer), Err(BytePacketBufferError::EndOfBuffer));
    assert_eq!(buffer.position, 512);
    assert_eq!(packet.header.answers, 40);

    let mut packet = DnsPacket::new();
    packet
        .questions
        .push(DnsQuestion::new("l".repeat(64), QueryType::A));
    let mut buffer = BytePacketBuffer::new();
    assert_eq!(
        packet.write(&mut buffer),
        Err(BytePacketBufferError::SingleLabelExceedsCharactersOfLength)
    );
    assert_eq!(buffer.position, 12);
}

#[test]
fn message_with_more_counted_than_held_fails() {
    let mut buffer = buffer_of(&[0, 1, 0, 0, 0, 200, 0, 0, 0, 0, 0, 0]);
    assert_eq!(
        DnsPacket::from_buffer(&mut buffer).map(|_| ()),
        Err(BytePacketBufferError::EndOfBuffer)
    );
    let mut buffer = buffer_of(&[0, 1, 0, 0, 0, 1, 0, 0, 0, 0, 0, 0, 0xc0, 12]);
    assert_eq!(
        DnsPacket::from_buffer(&mut buffer).map(|_| ()),
        Err(BytePacketBufferError::LimitOfJumpsExceeded(5))
    );
    let mut buffer = BytePacketBuffer::new();
    buffer.seek(501).unwrap();
    assert_eq!(
        DnsPacket::from_buffer(&mut buffer).map(|_| ()),
        Err(BytePacketBufferError::EndOfBuffer)
    );
}

#[test]
fn any_buffer_is_read_or_refused() {
    let mut state: u64 = 0x9e3779b97f4a7c15;
    let mut next = move || {
        state ^= state << 13;
        state ^= state >> 7;
        state ^= state << 17;
        state
    };
    let mut read = 0;
    for round in 0..400 {
        let mut buffer = BytePacketBuffer::new();
        for byte in buffer.buffer.iter_mut() {
            let r = next();
            *byte = match round % 4 {
                0 => r as u8,
                1 => (r % 8) as u8,
                2 => if r % 5 == 0 { 0xc0 } else { (r % 16) as u8 },
                _ => if r % 3 == 0 { 0 } else { r as u8 },
            };
        }
        buffer.buffer[4] = 0;
        buffer.buffer[5] = (next() % 4) as u8;
        buffer.buffer[6] = 0;
        buffer.buffer[7] = (next() % 3) as u8;
        buffer.buffer[8] = 0;
        buffer.buffer[10] = 0;
        match DnsPacket::from_buffer(&mut buffer) {
            Ok(packet) => {
                read += 1;
                assert_eq!(packet.questions.len(), packet.header.questions as usize);
                assert_eq!(packet.answers.len(), packet.header.answers as usize);
                let entries = packet.questions.len()
                    + packet.answers.len()
                    + packet.authorities.len()
                    + packet.resources.len();
                assert!(entries <= 102);
            }
            Err(e) => assert!(
                e == BytePacketBufferError::EndOfBuffer
                    || e == BytePacketBufferError::LimitOfJumpsExceeded(5)
            ),
        }
    }
    assert!(read > 0);
}
