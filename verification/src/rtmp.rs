//! The media that flows between RTMP sessions, and the parser of RTMP
//! messages.
use vstd::prelude::*;

verus! {

#[verifier::external_type_specification]
#[verifier::external_body]
pub struct ExBytes(bytes::Bytes);

/// A media message of a stream, with its timestamp.
#[derive(Debug)]
pub enum ChannelData {
    Video { timestamp: u32, data: bytes::Bytes },
    Audio { timestamp: u32, data: bytes::Bytes },
    Metadata { timestamp: u32, data: bytes::Bytes },
}

impl ChannelData {
    /// The timestamp of the message, whatever its kind.
    pub fn timestamp(&self) -> (r: u32)
        ensures
            r == match *self {
                ChannelData::Video { timestamp, .. } => timestamp,
                ChannelData::Audio { timestamp, .. } => timestamp,
                ChannelData::Metadata { timestamp, .. } => timestamp,
            },
    {
        match self {
            ChannelData::Video { timestamp, .. } => *timestamp,
            ChannelData::Audio { timestamp, .. } => *timestamp,
            ChannelData::Metadata { timestamp, .. } => *timestamp,
        }
    }

    /// The payload of the message, whatever its kind.
    pub fn data(&self) -> (r: &bytes::Bytes)
        ensures
            *r == match *self {
                ChannelData::Video { data, .. } => data,
                ChannelData::Audio { data, .. } => data,
                ChannelData::Metadata { data, .. } => data,
            },
    {
        match self {
            ChannelData::Video { data, .. } => data,
            ChannelData::Audio { data, .. } => data,
            ChannelData::Metadata { data, .. } => data,
        }
    }
}

#[verifier::external_type_specification]
#[verifier::external_body]
pub struct ExAmf0Value<'a>(scuffle_amf0::Amf0Value<'a>);

#[verifier::external_type_specification]
#[verifier::external_body]
pub struct ExAmf0Error(scuffle_amf0::Amf0Error);

/// Message type id of a set-chunk-size protocol control message.
pub const MSG_SET_CHUNK_SIZE: u8 = 1;

/// Message type id of an audio message.
pub const MSG_AUDIO: u8 = 8;

/// Message type id of a video message.
pub const MSG_VIDEO: u8 = 9;

/// Message type id of an AMF3 data message.
pub const MSG_DATA_AMF3: u8 = 15;

/// Message type id of an AMF0 data message.
pub const MSG_DATA_AMF0: u8 = 18;

/// Message type id of an AMF0 command message.
pub const MSG_COMMAND_AMF0: u8 = 20;

/// AMF0 marker of a number.
pub const AMF0_NUMBER: u8 = 0x00;

/// AMF0 marker of a string.
pub const AMF0_STRING: u8 = 0x02;

/// AMF0 marker of an object.
pub const AMF0_OBJECT: u8 = 0x03;

/// AMF0 marker of null.
pub const AMF0_NULL: u8 = 0x05;

/// What a parsed RTMP message carries.
#[derive(Debug)]
pub enum MessageData {
    Amf0Command {
        command_name: scuffle_amf0::Amf0Value<'static>,
        transaction_id: scuffle_amf0::Amf0Value<'static>,
        command_object: scuffle_amf0::Amf0Value<'static>,
        others: Vec<scuffle_amf0::Amf0Value<'static>>,
    },
    AudioData { data: Vec<u8> },
    VideoData { data: Vec<u8> },
    SetChunkSize { chunk_size: u32 },
    AmfData { data: Vec<u8> },
}

/// Why an RTMP message could not be parsed.
#[derive(Debug)]
pub enum MessageError {
    /// The AMF0 decoder refused the payload.
    Amf0Read(scuffle_amf0::Amf0Error),
    /// An AMF0 value of the command had another type than the one its place asks for.
    Amf0WrongType { expected: u8, got: u8 },
    /// A protocol control message was shorter than its fields.
    ProtocolControlMessage,
    /// An AMF0 command holds more bytes that could open an object or an
    /// array than `AMF0_MAX_CONTAINERS`; it is refused before decoding.
    Amf0TooDeep,
}

/// The big-endian 32-bit integer held by the first four bytes of `b`.
pub open spec fn be_u32(b: Seq<u8>) -> int
    recommends
        b.len() >= 4,
{
    b[0] * 0x1000000 + b[1] * 0x10000 + b[2] * 0x100 + b[3]
}

/// The chunk size announced by a set-chunk-size message: its first four
/// bytes, big-endian; the payload is refused when it has fewer.
pub fn read_set_chunk_size(payload: &[u8]) -> (r: Result<u32, MessageError>)
    ensures
        payload@.len() >= 4 <==> r is Ok,
        r matches Ok(size) ==> size == be_u32(payload@),
        r matches Err(e) ==> e is ProtocolControlMessage,
{
    if payload.len() < 4 {
        return Err(MessageError::ProtocolControlMessage);
    }
    let b0: u32 = payload[0] as u32;
    let b1: u32 = payload[1] as u32;
    let b2: u32 = payload[2] as u32;
    let b3: u32 = payload[3] as u32;
    Ok(b0 * 0x1000000 + b1 * 0x10000 + b2 * 0x100 + b3)
}

/// The most bytes that could open an AMF0 object or array (`0x03`,
/// `0x08`, `0x0a`, `0x10`) that a command payload may hold. The decoder
/// recurses once per level of nesting, and every level starts at such a
/// byte, so this bounds the depth of that recursion and keeps it well within
/// a thread's stack.
pub const AMF0_MAX_CONTAINERS: usize = 512;

/// Whether a byte is the marker of an AMF0 object, ECMA array, strict array
/// or typed object.
pub open spec fn is_container_marker(b: u8) -> bool {
    b == 0x03 || b == 0x08 || b == 0x0a || b == 0x10
}

/// How many bytes of `b` have the value of a container marker.
pub open spec fn amf0_containers(b: Seq<u8>) -> nat
    decreases b.len(),
{
    if b.len() == 0 {
        0
    } else {
        amf0_containers(b.drop_last()) + if is_container_marker(b.last()) {
            1nat
        } else {
            0nat
        }
    }
}

/// Counts the bytes of `payload` that have the value of a container marker.
pub fn count_amf0_containers(payload: &[u8]) -> (r: usize)
    ensures
        r == amf0_containers(payload@),
{
    let mut count: usize = 0;
    let mut i: usize = 0;
    while i < payload.len()
        invariant
            i <= payload@.len(),
            count == amf0_containers(payload@.take(i as int)),
            count <= i,
        decreases payload@.len() - i,
    {
        assert(payload@.take(i + 1).drop_last() =~= payload@.take(i as int));
        let b = payload[i];
        if b == 0x03 || b == 0x08 || b == 0x0a || b == 0x10 {
            count = count + 1;
        }
        i = i + 1;
    }
    assert(payload@.take(payload@.len() as int) =~= payload@);
    count
}

/// How many bytes are left unread after `scuffle_amf0`'s decoder reads one
/// value from the start of `bytes`, or `None` when it refuses them.
pub uninterp spec fn amf0_value_rest(bytes: Seq<u8>) -> Option<nat>;

/// Whether `scuffle_amf0`'s decoder reads every value of `bytes` without
/// error.
pub uninterp spec fn amf0_decodes_all(bytes: Seq<u8>) -> bool;

/// The marker of the AMF0 value at `pos`.
///
/// Calls `Amf0Decoder::peek_marker` on the bytes from `pos`, which reads one
/// byte and accepts it when it is a marker (`0x00` to `0x11`).
#[verifier::external_body]
fn amf0_marker_at(payload: &[u8], pos: usize) -> (r: Result<u8, scuffle_amf0::Amf0Error>)
    requires
        pos <= payload@.len(),
    ensures
        r is Ok <==> (pos < payload@.len() && payload@[pos as int] <= 0x11),
        r matches Ok(m) ==> m == payload@[pos as int],
{
    match scuffle_amf0::Amf0Decoder::from_buf(&payload[pos..]).peek_marker() {
        Ok(marker) => Ok(marker as u8),
        Err(e) => Err(e),
    }
}

/// The AMF0 value at `pos`, and how many bytes are left after it.
///
/// Calls `Amf0Decoder::decode_value` on the bytes from `pos`; its outcome is
/// the name `amf0_value_rest`, and it reads at least the marker. The value
/// itself is not stated. The decoder recurses once per level of nesting, so
/// the payload is first held to `AMF0_MAX_CONTAINERS`.
#[verifier::external_body]
fn amf0_decode_at(payload: &[u8], pos: usize) -> (r: Result<
    (scuffle_amf0::Amf0Value<'static>, usize),
    scuffle_amf0::Amf0Error,
>)
    requires
        pos <= payload@.len(),
        amf0_containers(payload@) <= AMF0_MAX_CONTAINERS,
    ensures
        r is Ok <==> amf0_value_rest(payload@.skip(pos as int)) is Some,
        r matches Ok((_, rest)) ==> amf0_value_rest(payload@.skip(pos as int)) == Some(rest as nat)
            && rest < payload@.len() - pos,
{
    let mut rest: &[u8] = &payload[pos..];
    let value = scuffle_amf0::Amf0Decoder::from_buf(&mut rest).decode_value();
    match value {
        Ok(v) => Ok((v, rest.len())),
        Err(e) => Err(e),
    }
}

/// How many AMF0 values `bytes` holds one after the other, read value by
/// value with [`amf0_value_rest`], when none of them starts as an ECMA or a
/// strict array (`0x08`, `0x0a`); `None` when one does or a value does not
/// decode. (After an array, the decoder may hold back the marker of the
/// next value, so a value read on its own no longer starts where the array
/// ended.)
pub open spec fn amf0_value_count(b: Seq<u8>) -> Option<nat>
    decreases b.len(),
{
    if b.len() == 0 {
        Some(0)
    } else if b[0] == 0x08 || b[0] == 0x0a {
        None
    } else {
        match amf0_value_rest(b) {
            Some(rest) => if rest < b.len() {
                match amf0_value_count(b.skip(b.len() - rest)) {
                    Some(n) => Some(n + 1),
                    None => None,
                }
            } else {
                None
            },
            None => None,
        }
    }
}

/// Every AMF0 value from `pos` to the end, in order.
///
/// Calls `Amf0Decoder::decode_all` on the bytes from `pos`; whether it
/// succeeds is the name `amf0_decodes_all`. It reads values one after the
/// other until no byte is left, each from where the last one ended, so when
/// [`amf0_value_count`] counts them it yields that many. The values
/// themselves are not stated.
#[verifier::external_body]
fn amf0_decode_all_at(payload: &[u8], pos: usize) -> (r: Result<
    Vec<scuffle_amf0::Amf0Value<'static>>,
    scuffle_amf0::Amf0Error,
>)
    requires
        pos <= payload@.len(),
        amf0_containers(payload@) <= AMF0_MAX_CONTAINERS,
    ensures
        r is Ok <==> amf0_decodes_all(payload@.skip(pos as int)),
        r matches Ok(v) ==> (amf0_value_count(payload@.skip(pos as int)) matches Some(n) ==> v@.len()
            == n),
{
    scuffle_amf0::Amf0Decoder::from_buf(&payload[pos..]).decode_all()
}

/// Where the AMF0 value at `pos` ends.
pub open spec fn value_end(p: Seq<u8>, pos: nat) -> Option<nat> {
    match amf0_value_rest(p.skip(pos as int)) {
        Some(rest) => Some((p.len() - rest) as nat),
        None => None,
    }
}

/// Where the value at `pos` ends, when its marker is `marker`.
pub open spec fn typed_end(p: Seq<u8>, pos: nat, marker: u8) -> Option<nat> {
    if pos < p.len() && p[pos as int] == marker {
        value_end(p, pos)
    } else {
        None
    }
}

/// Where the command object at `pos` ends: an object, or else null.
pub open spec fn command_object_end(p: Seq<u8>, pos: nat) -> Option<nat> {
    match typed_end(p, pos, AMF0_OBJECT) {
        Some(e) => Some(e),
        None => typed_end(p, pos, AMF0_NULL),
    }
}

/// Where the fixed values of a command end: a string (its name) at the
/// start, then a number (its transaction id), then its command object.
pub open spec fn command_values_end(p: Seq<u8>) -> Option<nat> {
    match typed_end(p, 0, AMF0_STRING) {
        Some(n1) => match typed_end(p, n1, AMF0_NUMBER) {
            Some(n2) => command_object_end(p, n2),
            None => None,
        },
        None => None,
    }
}

/// Whether a command payload decodes: its fixed values, then every value
/// after them.
pub open spec fn command_decodes(p: Seq<u8>) -> bool {
    match command_values_end(p) {
        Some(e) => amf0_decodes_all(p.skip(e as int)),
        None => false,
    }
}

/// Reads the AMF0 value at `pos` when its marker is `expected`, and refuses
/// it with the marker it has otherwise; gives the value and where it ends.
fn decode_with_type(payload: &[u8], pos: usize, expected: u8) -> (r: Result<
    (scuffle_amf0::Amf0Value<'static>, usize),
    MessageError,
>)
    requires
        pos <= payload@.len(),
        expected <= 0x11,
        amf0_containers(payload@) <= AMF0_MAX_CONTAINERS,
    ensures
        r matches Ok((_, end)) ==> typed_end(payload@, pos as nat, expected) == Some(end as nat)
            && pos < end <= payload@.len(),
        r is Err ==> typed_end(payload@, pos as nat, expected) is None,
        r matches Err(MessageError::Amf0WrongType { expected: e, got }) ==> e == expected && got
            != expected,
{
    match amf0_marker_at(payload, pos) {
        Err(e) => Err(MessageError::Amf0Read(e)),
        Ok(got) => {
            if got != expected {
                Err(MessageError::Amf0WrongType { expected, got })
            } else {
                match amf0_decode_at(payload, pos) {
                    Ok((v, rest)) => Ok((v, payload.len() - rest)),
                    Err(e) => Err(MessageError::Amf0Read(e)),
                }
            }
        },
    }
}

/// Decodes an AMF0 command: its name (a string), its transaction id (a
/// number), its command object (an object, or else null) and the values
/// that follow.
fn decode_command(payload: &[u8]) -> (r: Result<MessageData, MessageError>)
    requires
        amf0_containers(payload@) <= AMF0_MAX_CONTAINERS,
    ensures
        r is Ok <==> command_decodes(payload@),
        r matches Ok(d) ==> d is Amf0Command,
        r matches Ok(MessageData::Amf0Command { others, .. }) ==> command_values_end(payload@) matches Some(
            e,
        ) && (amf0_value_count(payload@.skip(e as int)) matches Some(n) ==> others@.len() == n),
{
    let (command_name, n1) = match decode_with_type(payload, 0, AMF0_STRING) {
        Ok(x) => x,
        Err(e) => return Err(e),
    };
    let (transaction_id, n2) = match decode_with_type(payload, n1, AMF0_NUMBER) {
        Ok(x) => x,
        Err(e) => return Err(e),
    };
    let (command_object, n3) = match decode_with_type(payload, n2, AMF0_OBJECT) {
        Ok(x) => x,
        Err(_) => match decode_with_type(payload, n2, AMF0_NULL) {
            Ok(x) => x,
            Err(e) => return Err(e),
        },
    };
    let others = match amf0_decode_all_at(payload, n3) {
        Ok(v) => v,
        Err(e) => return Err(MessageError::Amf0Read(e)),
    };
    Ok(MessageData::Amf0Command { command_name, transaction_id, command_object, others })
}

/// A copy of the bytes of `payload`.
fn copy_payload(payload: &[u8]) -> (r: Vec<u8>)
    ensures
        r@ == payload@,
{
    let mut data: Vec<u8> = Vec::new();
    crate::bytes_util::put_slice(&mut data, payload);
    assert(data@ =~= payload@);
    data
}

/// The parser of RTMP messages.
pub struct MessageParser;

impl MessageParser {
    /// Parses a message of type `msg_type_id`: audio, video and AMF data
    /// messages carry their payload, a set-chunk-size message its chunk
    /// size, an AMF0 command its decoded values; other types give `None`.
    /// An AMF0 command decodes when it starts with a string, a number
    /// follows, then an object or null, and every value after them decodes;
    /// one that could nest deeper than [`AMF0_MAX_CONTAINERS`] is refused.
    pub fn parse(msg_type_id: u8, payload: &[u8]) -> (r: Result<
        Option<MessageData>,
        MessageError,
    >)
        ensures
            msg_type_id == MSG_AUDIO ==> (r matches Ok(Some(MessageData::AudioData { data }))
                && data@ == payload@),
            msg_type_id == MSG_VIDEO ==> (r matches Ok(Some(MessageData::VideoData { data }))
                && data@ == payload@),
            (msg_type_id == MSG_DATA_AMF0 || msg_type_id == MSG_DATA_AMF3) ==> (r matches Ok(
                Some(MessageData::AmfData { data }),
            ) && data@ == payload@),
            msg_type_id == MSG_SET_CHUNK_SIZE ==> (payload@.len() >= 4 <==> r is Ok),
            msg_type_id == MSG_SET_CHUNK_SIZE && payload@.len() >= 4 ==> (r matches Ok(
                Some(MessageData::SetChunkSize { chunk_size }),
            ) && chunk_size == be_u32(payload@)),
            msg_type_id == MSG_SET_CHUNK_SIZE && payload@.len() < 4 ==> r matches Err(
                MessageError::ProtocolControlMessage,
            ),
            msg_type_id == MSG_COMMAND_AMF0 ==> (r matches Ok(d) ==> d matches Some(
                MessageData::Amf0Command { .. },
            )),
            msg_type_id == MSG_COMMAND_AMF0 && amf0_containers(payload@) > AMF0_MAX_CONTAINERS ==> r
                matches Err(MessageError::Amf0TooDeep),
            msg_type_id == MSG_COMMAND_AMF0 && amf0_containers(payload@) <= AMF0_MAX_CONTAINERS ==> (
            r is Ok <==> command_decodes(payload@)),
            msg_type_id == MSG_COMMAND_AMF0 ==> (r matches Ok(Some(MessageData::Amf0Command { others, .. }))
                ==> command_values_end(payload@) matches Some(e) && (amf0_value_count(
                payload@.skip(e as int),
            ) matches Some(n) ==> others@.len() == n)),
            !(msg_type_id == MSG_AUDIO || msg_type_id == MSG_VIDEO || msg_type_id == MSG_DATA_AMF0
                || msg_type_id == MSG_DATA_AMF3 || msg_type_id == MSG_SET_CHUNK_SIZE
                || msg_type_id == MSG_COMMAND_AMF0) ==> r matches Ok(None),
    {
        if msg_type_id == MSG_COMMAND_AMF0 {
            if count_amf0_containers(payload) > AMF0_MAX_CONTAINERS {
                return Err(MessageError::Amf0TooDeep);
            }
            match decode_command(payload) {
                Ok(d) => Ok(Some(d)),
                Err(e) => Err(e),
            }
        } else if msg_type_id == MSG_AUDIO {
            Ok(Some(MessageData::AudioData { data: copy_payload(payload) }))
        } else if msg_type_id == MSG_VIDEO {
            Ok(Some(MessageData::VideoData { data: copy_payload(payload) }))
        } else if msg_type_id == MSG_SET_CHUNK_SIZE {
            match read_set_chunk_size(payload) {
                Ok(chunk_size) => Ok(Some(MessageData::SetChunkSize { chunk_size })),
                Err(e) => Err(e),
            }
        } else if msg_type_id == MSG_DATA_AMF0 || msg_type_id == MSG_DATA_AMF3 {
            Ok(Some(MessageData::AmfData { data: copy_payload(payload) }))
        } else {
            Ok(None)
        }
    }
}

/// A decoded AMF0 command keeps every value that follows its command
/// object: as many as the decoder reads there, none dropped.
pub proof fn law_command_keeps_following_values(
    payload: &[u8],
    r: Result<Option<MessageData>, MessageError>,
)
    requires
        call_ensures(MessageParser::parse, (MSG_COMMAND_AMF0, payload), r),
    ensures
        r matches Ok(Some(d)) ==> d is Amf0Command,
        r matches Ok(Some(MessageData::Amf0Command { others, .. })) ==> command_values_end(payload@) matches Some(
            e,
        ) && (amf0_value_count(payload@.skip(e as int)) matches Some(n) ==> others@.len() == n),
{
}

} // verus!
