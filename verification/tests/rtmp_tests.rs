use scuffle::rtmp::{count_amf0_containers, read_set_chunk_size, MessageData, MessageError, MessageParser, AMF0_MAX_CONTAINERS};
use scuffle_amf0::Amf0Value;

fn connect_command(object: &[u8]) -> Vec<u8> {
    let mut payload = vec![0x02, 0x00, 0x07];
    payload.extend_from_slice(b"connect");
    payload.push(0x00);
    payload.extend_from_slice(&1.0f64.to_be_bytes());
    payload.extend_from_slice(object);
    payload
}

#[test]
fn audio_message_carries_its_payload() {
    let r = MessageParser::parse(8, &[1, 2, 3]).unwrap();
    assert!(matches!(r, Some(MessageData::AudioData { data }) if data == vec![1, 2, 3]));
}

#[test]
fn video_message_carries_its_payload() {
    let r = MessageParser::parse(9, &[4, 5]).unwrap();
    assert!(matches!(r, Some(MessageData::VideoData { data }) if data == vec![4, 5]));
}

#[test]
fn data_messages_carry_their_payload() {
    let r = MessageParser::parse(18, &[7]).unwrap();
    assert!(matches!(r, Some(MessageData::AmfData { data }) if data == vec![7]));
    let r = MessageParser::parse(15, &[]).unwrap();
    assert!(matches!(r, Some(MessageData::AmfData { data }) if data.is_empty()));
}

#[test]
fn other_message_types_are_not_parsed() {
    assert!(matches!(MessageParser::parse(2, &[1, 2]), Ok(None)));
    assert!(matches!(MessageParser::parse(22, &[]), Ok(None)));
}

#[test]
fn set_chunk_size_is_big_endian() {
    let r = MessageParser::parse(1, &[0x00, 0x00, 0x10, 0x00]).unwrap();
    assert!(matches!(r, Some(MessageData::SetChunkSize { chunk_size: 4096 })));
    assert_eq!(read_set_chunk_size(&[0x01, 0x02, 0x03, 0x04, 0xff]).unwrap(), 0x0102_0304);
}

#[test]
fn short_set_chunk_size_is_refused() {
    assert!(matches!(
        MessageParser::parse(1, &[0x00, 0x10, 0x00]),
        Err(MessageError::ProtocolControlMessage)
    ));
}

#[test]
fn command_with_object_is_decoded() {
    let payload = connect_command(&[0x03, 0x00, 0x00, 0x09, 0x05]);
    match MessageParser::parse(20, &payload).unwrap() {
        Some(MessageData::Amf0Command { command_name, transaction_id, command_object, others }) => {
            assert!(matches!(command_name, Amf0Value::String(ref s) if s.as_str() == "connect"));
            assert_eq!(transaction_id, Amf0Value::Number(1.0));
            assert!(matches!(command_object, Amf0Value::Object(ref o) if o.is_empty()));
            assert_eq!(others, vec![Amf0Value::Null]);
        }
        other => panic!("unexpected {other:?}"),
    }
}

#[test]
fn command_with_null_object_is_decoded() {
    let payload = connect_command(&[0x05]);
    match MessageParser::parse(20, &payload).unwrap() {
        Some(MessageData::Amf0Command { command_object, others, .. }) => {
            assert_eq!(command_object, Amf0Value::Null);
            assert!(others.is_empty());
        }
        other => panic!("unexpected {other:?}"),
    }
}

#[test]
fn command_name_must_be_a_string() {
    let mut payload = vec![0x00];
    payload.extend_from_slice(&1.0f64.to_be_bytes());
    assert!(matches!(
        MessageParser::parse(20, &payload),
        Err(MessageError::Amf0WrongType { expected: 2, got: 0 })
    ));
}

#[test]
fn command_object_must_be_an_object_or_null() {
    let payload = connect_command(&[0x01, 0x01]);
    assert!(matches!(
        MessageParser::parse(20, &payload),
        Err(MessageError::Amf0WrongType { expected: 5, got: 1 })
    ));
}

#[test]
fn truncated_command_is_refused() {
    assert!(matches!(MessageParser::parse(20, &[0x02, 0x00]), Err(MessageError::Amf0Read(_))));
}

#[test]
fn deeply_nested_command_is_refused_before_decoding() {
    let mut payload = Vec::new();
    for _ in 0..(AMF0_MAX_CONTAINERS + 1) {
        payload.extend_from_slice(&[0x0a, 0x00, 0x00, 0x00, 0x01]);
    }
    assert!(matches!(MessageParser::parse(20, &payload), Err(MessageError::Amf0TooDeep)));
}

#[test]
fn container_bytes_are_counted() {
    assert_eq!(count_amf0_containers(&[0x03, 0x08, 0x0a, 0x10, 0x02, 0x00, 0x11]), 4);
    assert_eq!(count_amf0_containers(&[]), 0);
}

#[test]
fn command_values_after_the_object_are_kept() {
    let mut payload = connect_command(&[0x05]);
    payload.extend_from_slice(&[0x02, 0x00, 0x01, b'x', 0x01, 0x01]);
    match MessageParser::parse(20, &payload).unwrap() {
        Some(MessageData::Amf0Command { others, .. }) => {
            assert_eq!(others.len(), 2);
            assert!(matches!(others[0], Amf0Value::String(ref s) if s.as_str() == "x"));
            assert_eq!(others[1], Amf0Value::Boolean(true));
        }
        other => panic!("unexpected {other:?}"),
    }
}

#[test]
fn nesting_up_to_the_bound_is_decoded() {
    let mut payload = connect_command(&[0x05]);
    for _ in 0..AMF0_MAX_CONTAINERS {
        payload.extend_from_slice(&[0x0a, 0x00, 0x00, 0x00, 0x01]);
    }
    payload.push(0x05);
    match MessageParser::parse(20, &payload).unwrap() {
        Some(MessageData::Amf0Command { others, .. }) => assert_eq!(others.len(), 1),
        other => panic!("unexpected {other:?}"),
    }
}
