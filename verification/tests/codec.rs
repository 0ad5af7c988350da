use dns_starter_rust::error::DecodeError;
use dns_starter_rust::header::{
    AuthoritativeAnswer, DnsHeader, DnsHeaderFlags, DnsHeaderFlags2, QueryResponseIndicator,
    RecursionAvailable, RecursionDesired, Truncation,
};
use dns_starter_rust::label::DnsLabel;
use dns_starter_rust::message::DnsMessage;
use dns_starter_rust::question::{
    decode_questions, DnsQuestion, QuestionClass, QuestionType,
};
use dns_starter_rust::record::{DnsResourceRecord, DnsResourceRecordData};
use dns_starter_rust::wire::{copy_range, push_bytes, push_u16, push_u32, read_u16, read_u32};

fn name(parts: &[&str]) -> DnsLabel {
    DnsLabel::new(parts.iter().map(|p| p.as_bytes().to_vec()).collect())
}

fn question(parts: &[&str]) -> DnsQuestion {
    DnsQuestion { label: name(parts), kind: QuestionType::A, class: QuestionClass::Internet }
}

fn address_record(parts: &[&str], ip: [u8; 4]) -> DnsResourceRecord {
    DnsResourceRecord {
        name: name(parts),
        kind: QuestionType::A,
        class: QuestionClass::Internet,
        ttl: 60,
        data: DnsResourceRecordData::A { ip },
    }
}

fn sample_message() -> DnsMessage {
    let mut m = DnsMessage::new();
    m.header.id = 0x1234;
    m.header.flags.set_qr(QueryResponseIndicator::Response);
    m.header.flags.set_opcode(2);
    m.header.flags.set_recursion_desired(RecursionDesired::Recursive);
    m.header.flags2.set_response(3);
    m.header.flags2.set_recursion_available(RecursionAvailable::Available);
    m.questions.push(question(&["example", "com"]));
    m.questions.push(DnsQuestion {
        label: name(&["mail", "example", "org"]),
        kind: QuestionType::Unknown(15),
        class: QuestionClass::Unknown(3),
    });
    m.answers.push(address_record(&["example", "com"], [93, 184, 216, 34]));
    m.authorities.push(DnsResourceRecord {
        name: name(&["com"]),
        kind: QuestionType::NS,
        class: QuestionClass::Internet,
        ttl: 86400,
        data: DnsResourceRecordData::Raw { bytes: vec![1, b'a', 0] },
    });
    m.additionals.push(DnsResourceRecord {
        name: DnsLabel::new(Vec::new()),
        kind: QuestionType::Unknown(41),
        class: QuestionClass::Unknown(4096),
        ttl: 0,
        data: DnsResourceRecordData::Raw { bytes: Vec::new() },
    });
    m.header.question_count = 2;
    m.header.answer_count = 1;
    m.header.nscount = 1;
    m.header.arcount = 1;
    m
}

#[test]
fn header_bit_layout_of_a_recursive_response() {
    let mut h = DnsHeader::new();
    h.flags.set_qr(QueryResponseIndicator::Response);
    h.flags.set_opcode(0);
    h.flags.set_recursion_desired(RecursionDesired::Recursive);
    h.flags2.set_response(0);
    let bytes = h.encode();
    assert_eq!(bytes.len(), 12);
    assert_eq!(bytes[2], 0b1000_0001);
    assert_eq!(bytes[3], 0);
    let back = DnsHeader::decode(&bytes).unwrap();
    assert_eq!(back, h);
    assert_eq!(back.flags.qr(), QueryResponseIndicator::Response);
    assert_eq!(back.flags.opcode(), 0);
    assert_eq!(back.flags.authoritative(), AuthoritativeAnswer::Other);
    assert_eq!(back.flags.truncation(), Truncation::No);
    assert_eq!(back.flags.recursion_desired(), RecursionDesired::Recursive);
    assert_eq!(back.flags2.response(), 0);
    assert_eq!(back.flags2.recursion_available(), RecursionAvailable::NotAvailable);
}

#[test]
fn header_fields_stand_at_their_bits() {
    let h = DnsHeader {
        id: 0xABCD,
        flags: DnsHeaderFlags {
            recursion_desired: RecursionDesired::NonRecursive,
            truncation: Truncation::LargerThan512,
            authoritative: AuthoritativeAnswer::Owns,
            opcode: 0b1010,
            qr: QueryResponseIndicator::Query,
        },
        flags2: DnsHeaderFlags2 { response: 0b0101, recursion_available: RecursionAvailable::Available },
        question_count: 0x0102,
        answer_count: 0x0304,
        nscount: 0x0506,
        arcount: 0x0708,
    };
    assert_eq!(
        h.encode(),
        vec![0xAB, 0xCD, 0b0101_0110, 0b1000_0101, 1, 2, 3, 4, 5, 6, 7, 8]
    );
    assert_eq!(DnsHeader::decode(&h.encode()), Ok(h));
}

#[test]
fn each_flag_has_its_own_bit() {
    let mut f = DnsHeaderFlags::new();
    assert_eq!(f.into_bytes(), [0]);
    f.set_recursion_desired(RecursionDesired::Recursive);
    assert_eq!(f.into_bytes(), [0b0000_0001]);
    f.set_truncation(Truncation::LargerThan512);
    assert_eq!(f.into_bytes(), [0b0000_0011]);
    f.set_authoritative(AuthoritativeAnswer::Owns);
    assert_eq!(f.into_bytes(), [0b0000_0111]);
    f.set_opcode(15);
    assert_eq!(f.into_bytes(), [0b0111_1111]);
    f.set_qr(QueryResponseIndicator::Response);
    assert_eq!(f.into_bytes(), [0b1111_1111]);
    assert_eq!(DnsHeaderFlags::from_bytes([0b1111_1111]), f);
    let mut g = DnsHeaderFlags2::new();
    assert_eq!(g.into_bytes(), [0]);
    g.set_response(4);
    assert_eq!(g.into_bytes(), [0b0000_0100]);
    g.set_recursion_available(RecursionAvailable::Available);
    assert_eq!(g.into_bytes(), [0b1000_0100]);
    assert_eq!(DnsHeaderFlags2::from_bytes([0b1000_0100]), g);
}

#[test]
fn every_flag_byte_survives_reading_and_writing() {
    for b in 0..=255u8 {
        assert_eq!(DnsHeaderFlags::from_bytes([b]).into_bytes(), [b]);
        assert_eq!(DnsHeaderFlags2::from_bytes([b]).into_bytes(), [b & 0b1000_1111]);
    }
}

#[test]
fn encoder_masks_wide_opcode_and_response() {
    let mut h = DnsHeader::new();
    h.flags.opcode = 0b1_0011;
    h.flags2.response = 0xF7;
    let bytes = h.encode();
    assert_eq!(bytes[2], 0b0001_1000);
    assert_eq!(bytes[3], 0b0000_0111);
}

#[test]
fn reserved_bits_are_ignored_when_read_and_written_as_zero() {
    let bytes = [0u8, 1, 0, 0b0111_0010, 0, 0, 0, 0, 0, 0, 0, 0];
    let h = DnsHeader::decode(&bytes).unwrap();
    assert_eq!(h.flags2.response(), 2);
    assert_eq!(h.flags2.recursion_available(), RecursionAvailable::NotAvailable);
    assert_eq!(h.encode()[3], 0b0000_0010);
}

#[test]
fn default_header_is_all_zero() {
    assert_eq!(DnsHeader::default().encode(), vec![0u8; 12]);
    assert_eq!(DnsHeader::default(), DnsHeader::new());
    assert_eq!(DnsHeaderFlags::default(), DnsHeaderFlags::new());
    assert_eq!(DnsHeaderFlags2::default(), DnsHeaderFlags2::new());
}

#[test]
fn short_buffer_fails_with_truncated_header() {
    for n in 0..12usize {
        let bytes = vec![0xFFu8; n];
        assert_eq!(DnsHeader::decode(&bytes), Err(DecodeError::TruncatedHeader));
        assert_eq!(DnsMessage::decode(&bytes), Err(DecodeError::TruncatedHeader));
    }
    assert!(DnsHeader::decode(&[0u8; 12]).is_ok());
}

#[test]
fn header_decode_reads_only_twelve_bytes() {
    let mut bytes = vec![0u8; 12];
    bytes[0] = 0x12;
    bytes[1] = 0x34;
    bytes.extend_from_slice(&[9, 9, 9]);
    assert_eq!(DnsHeader::decode(&bytes).unwrap().id, 0x1234);
}

#[test]
fn pointer_at_the_end_yields_the_name_at_its_target() {
    let buf = [3, b'a', b'b', b'c', 0, 3, b'd', b'e', b'f', 0xC0, 0];
    let (label, end) = DnsLabel::decode(&buf, 9).unwrap();
    assert_eq!(label.labels, vec![b"abc".to_vec()]);
    assert_eq!(end, 11);
    let (label, end) = DnsLabel::decode(&buf, 5).unwrap();
    assert_eq!(label.labels, vec![b"def".to_vec(), b"abc".to_vec()]);
    assert_eq!(end, 11);
    let (label, end) = DnsLabel::decode(&buf, 0).unwrap();
    assert_eq!(label.labels, vec![b"abc".to_vec()]);
    assert_eq!(end, 5);
}

#[test]
fn root_name_takes_one_byte() {
    let (label, end) = DnsLabel::decode(&[7, 0, 9], 1).unwrap();
    assert!(label.labels.is_empty());
    assert_eq!(end, 2);
    assert_eq!(DnsLabel::default().encode(), vec![0]);
}

#[test]
fn name_is_written_as_lengths_and_bytes() {
    let n = name(&["example", "com"]);
    assert_eq!(
        n.encode(),
        vec![7, b'e', b'x', b'a', b'm', b'p', b'l', b'e', 3, b'c', b'o', b'm', 0]
    );
    let bytes = n.encode();
    let (back, end) = DnsLabel::decode(&bytes, 0).unwrap();
    assert_eq!(back, n);
    assert_eq!(end, bytes.len());
}

#[test]
fn segment_bytes_need_not_be_text() {
    let n = DnsLabel::new(vec![vec![0xFF, 0x00, 0xC3]]);
    let bytes = n.encode();
    assert_eq!(bytes, vec![3, 0xFF, 0x00, 0xC3, 0]);
    assert_eq!(DnsLabel::decode(&bytes, 0).unwrap().0, n);
}

#[test]
fn longest_segment_survives() {
    let n = DnsLabel::new(vec![vec![b'x'; 63]]);
    assert!(n.is_well_formed());
    let bytes = n.encode();
    assert_eq!(bytes.len(), 65);
    assert_eq!(bytes[0], 63);
    assert_eq!(DnsLabel::decode(&bytes, 0).unwrap(), (n, 65));
}

#[test]
fn well_formedness_of_names() {
    assert!(name(&["a"]).is_well_formed());
    assert!(DnsLabel::new(Vec::new()).is_well_formed());
    assert!(!DnsLabel::new(vec![Vec::new()]).is_well_formed());
    assert!(!DnsLabel::new(vec![vec![b'x'; 64]]).is_well_formed());
    assert!(!DnsLabel::new(vec![b"ok".to_vec(), vec![b'x'; 64]]).is_well_formed());
}

#[test]
fn self_pointer_is_invalid() {
    let buf = [0xC0, 0];
    assert_eq!(DnsLabel::decode(&buf, 0), Err(DecodeError::InvalidPointer));
    let buf = [0, 0, 0xC0, 2];
    assert_eq!(DnsLabel::decode(&buf, 2), Err(DecodeError::InvalidPointer));
}

#[test]
fn forward_pointer_is_invalid() {
    let buf = [0xC0, 2, 0];
    assert_eq!(DnsLabel::decode(&buf, 0), Err(DecodeError::InvalidPointer));
    let buf = [0xFF, 0xFF];
    assert_eq!(DnsLabel::decode(&buf, 0), Err(DecodeError::InvalidPointer));
    let buf = [1, b'a', 0xC0, 200, 0];
    assert_eq!(DnsLabel::decode(&buf, 0), Err(DecodeError::InvalidPointer));
}

#[test]
fn pointer_behind_segments_of_its_own_loop_is_stopped() {
    let buf = [3, b'a', b'b', b'c', 0xC0, 0];
    assert_eq!(DnsLabel::decode(&buf, 0), Err(DecodeError::CompressionLoopExceeded));
    assert_eq!(DnsLabel::decode(&buf, 4), Err(DecodeError::CompressionLoopExceeded));
}

#[test]
fn thirty_two_pointers_in_a_row_are_followed_and_no_more() {
    let mut buf: Vec<u8> = vec![1, b'z', 0];
    let mut target: u8 = 0;
    for _ in 0..33 {
        let at = buf.len() as u8;
        buf.push(0xC0);
        buf.push(target);
        target = at;
    }
    let thirty_second = 3 + 2 * 31;
    let (label, end) = DnsLabel::decode(&buf, thirty_second).unwrap();
    assert_eq!(label.labels, vec![b"z".to_vec()]);
    assert_eq!(end, thirty_second + 2);
    assert_eq!(
        DnsLabel::decode(&buf, thirty_second + 2),
        Err(DecodeError::CompressionLoopExceeded)
    );
}

#[test]
fn pointer_offset_uses_fourteen_bits() {
    let mut buf = vec![0u8; 0x0203];
    buf[0x0201] = 0xC1;
    buf[0x0202] = 0x05;
    buf[0x0105] = 2;
    buf[0x0106] = b'h';
    buf[0x0107] = b'i';
    let (label, end) = DnsLabel::decode(&buf, 0x0201).unwrap();
    assert_eq!(label.labels, vec![b"hi".to_vec()]);
    assert_eq!(end, 0x0203);
}

#[test]
fn byte_with_one_top_bit_starts_a_pointer() {
    let buf = [1, b'q', 0, 0x40, 0];
    let (label, end) = DnsLabel::decode(&buf, 3).unwrap();
    assert_eq!(label.labels, vec![b"q".to_vec()]);
    assert_eq!(end, 5);
    let buf = [0, 0x80, 1];
    assert_eq!(DnsLabel::decode(&buf, 1), Err(DecodeError::InvalidPointer));
}

#[test]
fn truncated_names_fail_with_truncated_label() {
    assert_eq!(DnsLabel::decode(&[], 0), Err(DecodeError::TruncatedLabel));
    assert_eq!(DnsLabel::decode(&[0], 1), Err(DecodeError::TruncatedLabel));
    assert_eq!(DnsLabel::decode(&[0], 5), Err(DecodeError::TruncatedLabel));
    assert_eq!(DnsLabel::decode(&[3, b'a', b'b'], 0), Err(DecodeError::TruncatedLabel));
    assert_eq!(DnsLabel::decode(&[3, b'a', b'b', b'c'], 0), Err(DecodeError::TruncatedLabel));
    assert_eq!(DnsLabel::decode(&[0, 0xC0], 1), Err(DecodeError::TruncatedLabel));
}

#[test]
fn question_is_name_type_and_class() {
    let q = DnsQuestion {
        label: name(&["ab"]),
        kind: QuestionType::CNAME,
        class: QuestionClass::Internet,
    };
    let bytes = q.encode();
    assert_eq!(bytes, vec![2, b'a', b'b', 0, 0, 5, 0, 1]);
    assert_eq!(DnsQuestion::decode(&bytes, 0), Ok((q, 8)));
}

#[test]
fn unknown_type_and_class_are_kept() {
    let bytes = [0, 0x01, 0x00, 0x00, 0xFF];
    let (q, end) = DnsQuestion::decode(&bytes, 0).unwrap();
    assert_eq!(q.kind, QuestionType::Unknown(256));
    assert_eq!(q.class, QuestionClass::Unknown(255));
    assert_eq!(end, 5);
    assert_eq!(q.encode(), bytes.to_vec());
}

#[test]
fn type_and_class_codes() {
    assert_eq!(QuestionType::A.code(), 1);
    assert_eq!(QuestionType::NS.code(), 2);
    assert_eq!(QuestionType::CNAME.code(), 5);
    assert_eq!(QuestionType::Unknown(28).code(), 28);
    assert_eq!(QuestionType::from_code(1), QuestionType::A);
    assert_eq!(QuestionType::from_code(2), QuestionType::NS);
    assert_eq!(QuestionType::from_code(5), QuestionType::CNAME);
    assert_eq!(QuestionType::from_code(3), QuestionType::Unknown(3));
    assert_eq!(QuestionClass::Internet.code(), 1);
    assert_eq!(QuestionClass::from_code(1), QuestionClass::Internet);
    assert_eq!(QuestionClass::from_code(0), QuestionClass::Unknown(0));
    assert_eq!(QuestionClass::Unknown(7).code(), 7);
    assert!(QuestionType::Unknown(3).is_well_formed());
    assert!(!QuestionType::Unknown(5).is_well_formed());
    assert!(QuestionType::NS.is_well_formed());
    assert!(!QuestionClass::Unknown(1).is_well_formed());
    assert!(QuestionClass::Unknown(2).is_well_formed());
    for c in 0..=u16::MAX {
        assert_eq!(QuestionType::from_code(c).code(), c);
        assert_eq!(QuestionClass::from_code(c).code(), c);
    }
}

#[test]
fn question_cut_in_its_fixed_fields_fails() {
    assert_eq!(DnsQuestion::decode(&[0, 0, 1, 0], 0), Err(DecodeError::TruncatedMessage));
    assert_eq!(DnsQuestion::decode(&[0], 0), Err(DecodeError::TruncatedMessage));
    assert_eq!(DnsQuestion::decode(&[1, b'a'], 0), Err(DecodeError::TruncatedLabel));
}

#[test]
fn no_question_is_read_without_taking_a_byte() {
    let buf = [0xFFu8; 20];
    let (list, end) = decode_questions(&buf, 12, 0).unwrap();
    assert!(list.is_empty());
    assert_eq!(end, 12);
    let m = DnsMessage::decode(&[0u8; 12]).unwrap();
    assert!(m.questions.is_empty());
    assert!(m.answers.is_empty());
    assert!(m.authorities.is_empty());
    assert!(m.additionals.is_empty());
    assert_eq!(m, DnsMessage::new());
}

#[test]
fn address_record_layout() {
    let r = address_record(&["a"], [8, 8, 8, 8]);
    let bytes = r.encode();
    assert_eq!(bytes, vec![1, b'a', 0, 0, 1, 0, 1, 0, 0, 0, 60, 0, 4, 8, 8, 8, 8]);
    assert_eq!(DnsResourceRecord::decode(&bytes, 0), Ok((r, 17)));
}

#[test]
fn time_to_live_is_big_endian() {
    let mut r = address_record(&[], [1, 2, 3, 4]);
    r.ttl = 0x0102_0304;
    let bytes = r.encode();
    assert_eq!(&bytes[5..9], &[1, 2, 3, 4]);
    assert_eq!(DnsResourceRecord::decode(&bytes, 0).unwrap().0.ttl, 0x0102_0304);
}

#[test]
fn unknown_record_type_keeps_its_seven_bytes() {
    let bytes = vec![0, 0, 99, 0, 1, 0, 0, 1, 0, 0, 7, 1, 2, 3, 4, 5, 6, 7];
    let (r, end) = DnsResourceRecord::decode(&bytes, 0).unwrap();
    assert_eq!(end, 18);
    assert_eq!(r.kind, QuestionType::Unknown(99));
    assert_eq!(r.data, DnsResourceRecordData::Raw { bytes: vec![1, 2, 3, 4, 5, 6, 7] });
    assert_eq!(r.data.payload_len(), 7);
    assert_eq!(r.encode(), bytes);
}

#[test]
fn written_length_is_that_of_the_data() {
    let r = DnsResourceRecord {
        name: DnsLabel::new(Vec::new()),
        kind: QuestionType::NS,
        class: QuestionClass::Internet,
        ttl: 1,
        data: DnsResourceRecordData::Raw { bytes: vec![0xAA; 300] },
    };
    let bytes = r.encode();
    assert_eq!(&bytes[9..11], &[0x01, 0x2C]);
    assert_eq!(bytes.len(), 11 + 300);
    assert_eq!(DnsResourceRecord::decode(&bytes, 0), Ok((r, 311)));
}

#[test]
fn address_of_wrong_length_is_malformed() {
    let bytes = [0, 0, 1, 0, 1, 0, 0, 0, 60, 0, 5, 8, 8, 8, 8, 8];
    assert_eq!(DnsResourceRecord::decode(&bytes, 0), Err(DecodeError::MalformedRecordData));
    let bytes = [0, 0, 1, 0, 1, 0, 0, 0, 60, 0, 3, 8, 8, 8];
    assert_eq!(DnsResourceRecord::decode(&bytes, 0), Err(DecodeError::MalformedRecordData));
    let bytes = [0, 0, 1, 0, 1, 0, 0, 0, 60, 0, 0];
    assert_eq!(DnsResourceRecord::decode(&bytes, 0), Err(DecodeError::MalformedRecordData));
}

#[test]
fn record_cut_short_fails() {
    let bytes = [0, 0, 1, 0, 1, 0, 0, 0, 60, 0];
    assert_eq!(DnsResourceRecord::decode(&bytes, 0), Err(DecodeError::TruncatedMessage));
    let bytes = [0, 0, 1, 0, 1, 0, 0, 0, 60, 0, 4, 8, 8, 8];
    assert_eq!(DnsResourceRecord::decode(&bytes, 0), Err(DecodeError::TruncatedMessage));
    let bytes = [0, 0, 2, 0, 1, 0, 0, 0, 60, 0, 2, 8];
    assert_eq!(DnsResourceRecord::decode(&bytes, 0), Err(DecodeError::TruncatedMessage));
    assert_eq!(DnsResourceRecord::decode(&[2, b'a'], 0), Err(DecodeError::TruncatedLabel));
}

#[test]
fn address_is_had_only_from_address_data() {
    assert_eq!(DnsResourceRecordData::A { ip: [1, 2, 3, 4] }.address(), Ok([1, 2, 3, 4]));
    assert_eq!(
        DnsResourceRecordData::Raw { bytes: vec![1, 2, 3, 4] }.address(),
        Err(DecodeError::UnsupportedType)
    );
}

#[test]
fn well_formedness_of_records() {
    assert!(address_record(&["a"], [1, 1, 1, 1]).is_well_formed());
    let mut r = address_record(&["a"], [1, 1, 1, 1]);
    r.kind = QuestionType::NS;
    assert!(!r.is_well_formed());
    r.data = DnsResourceRecordData::Raw { bytes: vec![0; 65535] };
    assert!(r.is_well_formed());
    r.data = DnsResourceRecordData::Raw { bytes: vec![0; 65536] };
    assert!(!r.is_well_formed());
    r.data = DnsResourceRecordData::Raw { bytes: vec![] };
    r.kind = QuestionType::A;
    assert!(!r.is_well_formed());
    r.kind = QuestionType::Unknown(1);
    assert!(!r.is_well_formed());
}

#[test]
fn message_round_trip() {
    let m = sample_message();
    assert!(m.is_well_formed());
    let bytes = m.encode();
    assert_eq!(DnsMessage::decode(&bytes), Ok(m.clone()));
    let mut longer = bytes.clone();
    longer.extend_from_slice(&[1, 2, 3]);
    assert_eq!(DnsMessage::decode(&longer), Ok(m));
}

#[test]
fn message_layout() {
    let mut m = DnsMessage::new();
    m.header.id = 7;
    m.questions.push(question(&["a"]));
    m.answers.push(address_record(&["a"], [8, 8, 8, 8]));
    assert_eq!(
        m.encode(),
        vec![
            0, 7, 0, 0, 0, 1, 0, 1, 0, 0, 0, 0, 1, b'a', 0, 0, 1, 0, 1, 1, b'a', 0, 0, 1, 0, 1,
            0, 0, 0, 60, 0, 4, 8, 8, 8, 8,
        ]
    );
}

#[test]
fn counts_are_taken_from_the_sections() {
    let mut m = sample_message();
    m.header.question_count = 9;
    m.header.answer_count = 0;
    m.header.nscount = 77;
    m.header.arcount = 65535;
    assert!(m.is_encodable());
    assert!(!m.is_well_formed());
    let bytes = m.encode();
    assert_eq!(&bytes[4..12], &[0, 2, 0, 1, 0, 1, 0, 1]);
    assert_eq!(DnsMessage::decode(&bytes), Ok(sample_message()));
}

#[test]
fn sections_are_read_in_their_order() {
    let mut bytes = vec![0, 1, 0x80, 0, 0, 0, 0, 1, 0, 1, 0, 1];
    bytes.extend_from_slice(&[0, 0, 1, 0, 1, 0, 0, 0, 1, 0, 4, 1, 1, 1, 1]);
    bytes.extend_from_slice(&[0, 0, 2, 0, 1, 0, 0, 0, 2, 0, 1, 2]);
    bytes.extend_from_slice(&[0, 0, 5, 0, 1, 0, 0, 0, 3, 0, 0]);
    let m = DnsMessage::decode(&bytes).unwrap();
    assert_eq!(m.answers.len(), 1);
    assert_eq!(m.authorities.len(), 1);
    assert_eq!(m.additionals.len(), 1);
    assert_eq!(m.answers[0].data, DnsResourceRecordData::A { ip: [1, 1, 1, 1] });
    assert_eq!(m.authorities[0].ttl, 2);
    assert_eq!(m.authorities[0].data, DnsResourceRecordData::Raw { bytes: vec![2] });
    assert_eq!(m.additionals[0].kind, QuestionType::CNAME);
    assert_eq!(m.header.flags.qr(), QueryResponseIndicator::Response);
    assert_eq!(m.encode(), bytes);
}

#[test]
fn second_question_points_into_the_first() {
    let data: [u8; 53] = [
        0x90, 0xdc, 1, 0, 0, 2, 0, 0, 0, 0, 0, 0, 3, 0x61, 0x62, 0x63, 0x11, 0x6c, 0x6f, 0x6e,
        0x67, 0x61, 0x73, 0x73, 0x64, 0x6f, 0x6d, 0x61, 0x69, 0x6e, 0x6e, 0x61, 0x6d, 0x65, 3,
        0x63, 0x6f, 0x6d, 0, 0, 1, 0, 1, 3, 0x64, 0x65, 0x66, 0xc0, 0x10, 0, 1, 0, 1,
    ];
    let m = DnsMessage::decode(&data).unwrap();
    assert_eq!(m.header.id, 0x90dc);
    assert_eq!(m.header.flags.recursion_desired(), RecursionDesired::Recursive);
    assert_eq!(m.header.question_count, 2);
    assert_eq!(m.questions.len(), 2);
    assert_eq!(m.questions[0], question(&["abc", "longassdomainname", "com"]));
    assert_eq!(m.questions[1], question(&["def", "longassdomainname", "com"]));
    assert!(m.answers.is_empty());
    assert!(m.is_well_formed());
    let again = DnsMessage::decode(&m.encode()).unwrap();
    assert_eq!(again, m);
}

#[test]
fn record_name_points_into_a_question() {
    let mut bytes = vec![0, 1, 0, 0, 0, 1, 0, 1, 0, 0, 0, 0];
    bytes.extend_from_slice(&[1, b'a', 2, b'b', b'c', 0, 0, 1, 0, 1]);
    bytes.extend_from_slice(&[0xC0, 14, 0, 1, 0, 1, 0, 0, 0, 9, 0, 4, 10, 0, 0, 1]);
    let m = DnsMessage::decode(&bytes).unwrap();
    assert_eq!(m.questions[0].label, name(&["a", "bc"]));
    assert_eq!(m.answers[0].name, name(&["bc"]));
    assert_eq!(m.answers[0].data.address(), Ok([10, 0, 0, 1]));
}

#[test]
fn message_with_too_few_questions_fails() {
    let bytes = [0, 1, 0, 0, 0, 2, 0, 0, 0, 0, 0, 0, 0, 0, 1, 0, 1];
    assert_eq!(DnsMessage::decode(&bytes), Err(DecodeError::TruncatedLabel));
    let bytes = [0, 1, 0, 0, 0, 1, 0, 0, 0, 0, 0, 0, 0, 0, 1, 0];
    assert_eq!(DnsMessage::decode(&bytes), Err(DecodeError::TruncatedMessage));
    let bytes = [0, 1, 0, 0, 0, 1, 0, 0, 0, 0, 0, 0, 0xC0, 12, 0, 1, 0, 1];
    assert_eq!(DnsMessage::decode(&bytes), Err(DecodeError::InvalidPointer));
    let bytes = [0, 1, 0, 0, 0, 0, 0, 0, 0, 0, 0, 1];
    assert_eq!(DnsMessage::decode(&bytes), Err(DecodeError::TruncatedLabel));
}

#[test]
fn message_with_a_bad_part_cannot_be_written() {
    let mut m = sample_message();
    assert!(m.is_encodable());
    m.questions.push(DnsQuestion {
        label: DnsLabel::new(vec![Vec::new()]),
        kind: QuestionType::A,
        class: QuestionClass::Internet,
    });
    assert!(!m.is_encodable());
    let mut m = sample_message();
    m.authorities[0].data = DnsResourceRecordData::Raw { bytes: vec![0; 65536] };
    assert!(!m.is_encodable());
    let mut m = sample_message();
    m.additionals[0].kind = QuestionType::A;
    assert!(m.is_encodable());
    assert!(!m.is_well_formed());
    let mut m = sample_message();
    m.header.flags.opcode = 16;
    assert!(m.is_encodable());
    assert!(!m.is_well_formed());
}

#[test]
fn integers_are_big_endian() {
    let mut out = vec![9u8];
    push_u16(&mut out, 0x1234);
    push_u32(&mut out, 0xDEAD_BEEF);
    push_bytes(&mut out, &[1, 2]);
    assert_eq!(out, vec![9, 0x12, 0x34, 0xDE, 0xAD, 0xBE, 0xEF, 1, 2]);
    assert_eq!(read_u16(&out, 1), 0x1234);
    assert_eq!(read_u32(&out, 3), 0xDEAD_BEEF);
    assert_eq!(read_u16(&[0xFF, 0xFF], 0), 65535);
    assert_eq!(read_u32(&[0xFF, 0xFF, 0xFF, 0xFF], 0), u32::MAX);
    assert_eq!(copy_range(&out, 1, 3), vec![0x12, 0x34]);
    assert_eq!(copy_range(&out, 4, 4), Vec::<u8>::new());
}

#[test]
fn name_is_copied_segment_by_segment() {
    let n = name(&["www", "example", "com"]);
    assert_eq!(n.duplicate(), n);
    assert_eq!(DnsLabel::new(Vec::new()).duplicate(), DnsLabel::default());
}

#[test]
fn code_written_in_another_way_is_read_in_its_own() {
    let q = DnsQuestion {
        label: name(&["a"]),
        kind: QuestionType::Unknown(5),
        class: QuestionClass::Unknown(1),
    };
    assert!(q.is_encodable());
    assert!(!q.is_well_formed());
    let bytes = q.encode();
    assert_eq!(bytes, vec![1, b'a', 0, 0, 5, 0, 1]);
    let (back, _) = DnsQuestion::decode(&bytes, 0).unwrap();
    assert_eq!(back.kind, QuestionType::CNAME);
    assert_eq!(back.class, QuestionClass::Internet);
}

#[test]
fn record_whose_data_does_not_fit_its_type_is_still_written() {
    let r = DnsResourceRecord {
        name: name(&["a"]),
        kind: QuestionType::NS,
        class: QuestionClass::Internet,
        ttl: 5,
        data: DnsResourceRecordData::A { ip: [1, 2, 3, 4] },
    };
    assert!(r.is_encodable());
    assert!(!r.is_well_formed());
    let bytes = r.encode();
    assert_eq!(bytes, vec![1, b'a', 0, 0, 2, 0, 1, 0, 0, 0, 5, 0, 4, 1, 2, 3, 4]);
    let (back, _) = DnsResourceRecord::decode(&bytes, 0).unwrap();
    assert_eq!(back.data, DnsResourceRecordData::Raw { bytes: vec![1, 2, 3, 4] });
    let bad = DnsResourceRecord {
        name: DnsLabel::new(vec![Vec::new()]),
        kind: QuestionType::NS,
        class: QuestionClass::Internet,
        ttl: 5,
        data: DnsResourceRecordData::Raw { bytes: Vec::new() },
    };
    assert!(!bad.is_encodable());
}

#[test]
fn defaults_are_empty() {
    assert!(DnsLabel::default().labels.is_empty());
    let m = DnsMessage::default();
    assert_eq!(m, DnsMessage::new());
    assert_eq!(m.header, DnsHeader::new());
    assert!(m.is_well_formed());
    assert_eq!(m.encode(), vec![0u8; 12]);
}
