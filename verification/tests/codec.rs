use edoras::{Message, MessageBuilder, MessageError, MessageType};

fn build(mtype: MessageType, fields: Vec<Vec<u8>>) -> Message {
    MessageBuilder::new().with_type(mtype).with_fields(fields).build()
}

fn encode(mtype: MessageType, fields: Vec<Vec<u8>>) -> Vec<u8> {
    build(mtype, fields).encode()
}

#[test]
fn round_trip_no_fields() {
    let enc = encode(MessageType::Ping, vec![]);
    let (msg, used) = Message::decode(&enc).expect("decode");
    assert_eq!(used, enc.len());
    assert_eq!(msg.mtype().to_code(), 0x3c);
    assert_eq!(msg.data(), Vec::<Vec<u8>>::new());
}

#[test]
fn round_trip_multi_field() {
    let fields = vec![b"alice".to_vec(), Vec::new(), vec![0u8, 255u8, 7u8]];
    let enc = encode(MessageType::Register, fields.clone());
    let (msg, used) = Message::decode(&enc).expect("decode");
    assert_eq!(used, enc.len());
    assert_eq!(msg.mtype().to_code(), 0x52);
    assert_eq!(msg.data(), fields);
}

#[test]
fn round_trip_every_type() {
    let types = [
        MessageType::Empty,
        MessageType::Ping,
        MessageType::Pong,
        MessageType::Okay,
        MessageType::Error,
        MessageType::Disconnect,
        MessageType::Register,
        MessageType::Login,
    ];
    for t in types {
        let enc = encode(t, vec![b"payload".to_vec()]);
        let (msg, _) = Message::decode(&enc).expect("decode");
        assert_eq!(msg.mtype().to_code(), t.to_code());
        assert_eq!(msg.data(), vec![b"payload".to_vec()]);
    }
}

#[test]
fn exact_ping_bytes() {
    let enc = encode(MessageType::Ping, vec![]);
    assert_eq!(enc, vec![0x23, 0x3c, 0x21, 0x3e, 0x3c, 0, 0, 0, 0]);
}

#[test]
fn exact_register_bytes() {
    let enc = encode(MessageType::Register, vec![b"alice".to_vec()]);
    let mut expected = vec![0x23, 0x3c, 0x21, 0x3e, 0x52, 1, 0, 0, 0, 5, 0, 0, 0];
    expected.extend_from_slice(b"alice");
    assert_eq!(enc, expected);
}

#[test]
fn header_rejection() {
    let bytes = vec![0x00u8, 0x01, 0x02, 0x03, 0x3c, 0, 0, 0, 0];
    match Message::decode(&bytes) {
        Err(MessageError::InvalidMessage(h)) => assert_eq!(h, vec![0x00, 0x01, 0x02, 0x03]),
        other => panic!("expected InvalidMessage, got {:?}", other.map(|p| p.1)),
    }
}

#[test]
fn header_rejection_near_miss() {
    let bytes = vec![0x23u8, 0x3c, 0x21, 0x3f, 0x3c, 0, 0, 0, 0];
    match Message::decode(&bytes) {
        Err(MessageError::InvalidMessage(h)) => assert_eq!(h, vec![0x23, 0x3c, 0x21, 0x3f]),
        other => panic!("expected InvalidMessage, got {:?}", other.map(|p| p.1)),
    }
}

#[test]
fn truncation_at_every_boundary() {
    let fields = vec![b"user".to_vec(), b"pass".to_vec()];
    let enc = encode(MessageType::Login, fields);
    for k in 0..enc.len() {
        match Message::decode(&enc[..k]) {
            Err(MessageError::ReadError) => {},
            other => panic!("cut at {} gave {:?}", k, other.map(|p| p.1)),
        }
    }
}

#[test]
fn unknown_type_code() {
    let bytes = vec![0x23u8, 0x3c, 0x21, 0x3e, 0x7f, 0, 0, 0, 0];
    match Message::decode(&bytes) {
        Err(MessageError::UnknownType(c)) => assert_eq!(c, 0x7f),
        other => panic!("expected UnknownType, got {:?}", other.map(|p| p.1)),
    }
}

#[test]
fn from_code_rejects_unknown() {
    assert!(MessageType::from_code(0x7f).is_none());
    assert!(MessageType::from_code(0x01).is_none());
    assert_eq!(MessageType::from_code(0x3e).unwrap().to_code(), 0x3e);
}

#[test]
fn zero_length_field_round_trips() {
    let enc = encode(MessageType::Okay, vec![Vec::new()]);
    let (msg, _) = Message::decode(&enc).expect("decode");
    assert_eq!(msg.data(), vec![Vec::<u8>::new()]);
}

#[test]
fn field_count_and_data_ref() {
    let msg = build(MessageType::Error, vec![b"a".to_vec(), b"bc".to_vec()]);
    assert_eq!(msg.field_count(), 2);
    let refs = msg.data_ref();
    assert_eq!(refs.len(), 2);
    assert_eq!(refs[0], b"a");
    assert_eq!(refs[1], b"bc");
}

#[test]
fn builder_with_field_appends() {
    let msg = MessageBuilder::new()
        .with_type(MessageType::Register)
        .with_field(b"one".to_vec())
        .with_field(b"two".to_vec())
        .build();
    assert_eq!(msg.data(), vec![b"one".to_vec(), b"two".to_vec()]);
}

#[test]
fn builder_defaults_to_empty() {
    let msg = MessageBuilder::new().build();
    assert_eq!(msg.mtype().to_code(), 0x00);
    assert_eq!(msg.field_count(), 0);
}

#[test]
fn peek_for_header_probe() {
    assert!(Message::peek_for_header(&[0x23, 0x3c, 0x21, 0x3e, 0xaa]));
    assert!(!Message::peek_for_header(&[0x23, 0x3c, 0x21]));
    assert!(!Message::peek_for_header(&[0x24, 0x3c, 0x21, 0x3e]));
    assert!(!Message::peek_for_header(&[]));
}

#[test]
fn decode_empty_input_is_short() {
    match Message::decode(&[]) {
        Err(MessageError::ReadError) => {},
        other => panic!("expected ReadError, got {:?}", other.map(|p| p.1)),
    }
}

#[test]
fn message_error_texts() {
    assert_eq!(MessageError::ReadError.to_string(), "Failed to read from stream");
    assert_eq!(MessageError::WriteError.to_string(), "Failed to write to stream");
    assert_eq!(MessageError::InvalidMessage(vec![1]).to_string(), "Invalid message");
    assert_eq!(MessageError::UnknownType(9).to_string(), "Unknown message type code");
    assert_eq!(MessageError::UnknownError.to_string(), "Unknown error");
}

#[test]
fn pipelined_messages_decode_in_turn() {
    let mut enc = encode(MessageType::Ping, vec![]);
    let second = encode(MessageType::Register, vec![b"alice".to_vec()]);
    enc.extend_from_slice(&second);
    let (first_msg, used) = Message::decode(&enc).expect("first");
    assert_eq!(first_msg.mtype().to_code(), 0x3c);
    let (second_msg, used2) = Message::decode(&enc[used..]).expect("second");
    assert_eq!(second_msg.mtype().to_code(), 0x52);
    assert_eq!(used + used2, enc.len());
    assert_eq!(second_msg.data(), vec![b"alice".to_vec()]);
}
