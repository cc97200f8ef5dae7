//! The frames of HTTP/2 that this library reads and writes: HEADERS,
//! PRIORITY, SETTINGS and GOAWAY (RFC 7540, sections 4 and 6).

use vstd::prelude::*;
use vstd::slice::slice_subrange;
use vstd::slice::slice_to_vec;
use crate::error::{Code, Error, Level};
use crate::hpack::{DecodeError, Decoder, DecoderField, Encoder, EncoderField, HeaderField};
use crate::hpack::decoder::block_decoding;
use crate::hpack::dynamic_table::TableView;
use crate::hpack::encoder::{block_encoding, field_specs};
use crate::hpack::field::FieldView;
use crate::hpack::symmetry::{decoded_views, encodable, lemma_block_roundtrip};
use crate::parsers::{be_value, lemma_be_value_bound, parse_uint, pow256};
use crate::serializers::{be_bytes, lemma_be_bytes_len, lemma_be_roundtrip, serialize_uint};
use crate::settings::SettingKey;

verus! {

/// The length of a frame header.
pub const FRAME_HEADER_LEN: usize = 9;

/// The longest body that the length of a frame header can say.
pub const MAX_BODY_LEN: usize = 0xFF_FFFF;

pub const TYPE_HEADERS: u8 = 1;

pub const TYPE_PRIORITY: u8 = 2;

pub const TYPE_SETTINGS: u8 = 4;

pub const TYPE_GOAWAY: u8 = 7;

pub const FLAG_END_STREAM: u8 = 0x1;

pub const FLAG_ACK: u8 = 0x1;

pub const FLAG_END_HEADERS: u8 = 0x4;

pub const FLAG_PADDED: u8 = 0x8;

pub const FLAG_PRIORITY: u8 = 0x20;

/// The low 31 bits of a 32-bit field: a stream id without the reserved bit.
pub open spec fn low31(v: int) -> int {
    v % 0x8000_0000
}

/// The header of a frame.
#[derive(Debug, Clone, Copy, PartialEq, Eq, Structural)]
pub struct FrameHeader {
    pub body_len: usize,
    pub frame_type: u8,
    pub flags: u8,
    pub stream_id: u32,
}

impl FrameHeader {
    /// The header that the nine octets `buf` spell. The reserved bit before
    /// the stream id is left out.
    pub open spec fn spec_parse(buf: Seq<u8>) -> FrameHeader {
        FrameHeader {
            body_len: be_value(buf.take(3)) as usize,
            frame_type: buf[3],
            flags: buf[4],
            stream_id: low31(be_value(buf.subrange(5, 9))) as u32,
        }
    }

    /// The nine octets of the header. Of the length the low 24 bits are
    /// written, of the stream id the low 31.
    pub open spec fn spec_serialize(self) -> Seq<u8> {
        be_bytes(self.body_len as int, 3) + seq![self.frame_type, self.flags] + be_bytes(
            low31(self.stream_id as int),
            4,
        )
    }

    /// The length fits 24 bits and the stream id 31.
    pub open spec fn valid(self) -> bool {
        self.body_len <= 0xFF_FFFF && self.stream_id < 0x8000_0000
    }

    pub fn parse(buf: &[u8]) -> (h: FrameHeader)
        requires
            buf@.len() == 9,
        ensures
            h == FrameHeader::spec_parse(buf@),
            h.valid(),
    {
        let (rest, body_len) = parse_uint(buf, 3);
        let frame_type = rest[0];
        let flags = rest[1];
        let (_, stream_id) = parse_uint(slice_subrange(rest, 2, rest.len()), 4);
        proof {
            reveal_with_fuel(pow256, 5);
            lemma_be_value_bound(buf@.take(3));
            lemma_be_value_bound(buf@.subrange(5, 9));
            assert(rest@.subrange(2, 6).take(4) =~= buf@.subrange(5, 9));
        }
        FrameHeader {
            body_len: body_len as usize,
            frame_type,
            flags,
            stream_id: (stream_id % 0x8000_0000) as u32,
        }
    }

    pub fn serialize(&self, out: &mut Vec<u8>)
        ensures
            final(out)@ == old(out)@ + self.spec_serialize(),
    {
        let ghost start = out@;
        serialize_uint(out, self.body_len as u64, 3);
        out.push(self.frame_type);
        out.push(self.flags);
        serialize_uint(out, (self.stream_id % 0x8000_0000) as u64, 4);
        assert(out@ =~= start + self.spec_serialize());
    }
}

/// Reading a frame header gives back the header that was written.
pub proof fn lemma_frame_header_roundtrip(h: FrameHeader, body: Seq<u8>)
    requires
        h.valid(),
    ensures
        h.spec_serialize().len() == 9,
        FrameHeader::spec_parse((h.spec_serialize() + body).take(9)) == h,
{
    reveal_with_fuel(pow256, 5);
    let len_bytes = be_bytes(h.body_len as int, 3);
    let id_bytes = be_bytes(h.stream_id as int, 4);
    lemma_be_bytes_len(h.body_len as int, 3);
    lemma_be_bytes_len(h.stream_id as int, 4);
    lemma_be_roundtrip(h.body_len as int, 3);
    lemma_be_roundtrip(h.stream_id as int, 4);
    let w = h.spec_serialize();
    assert((w + body).take(9) =~= w);
    assert(w.take(3) =~= len_bytes);
    assert(w.subrange(5, 9) =~= id_bytes);
}

/// The priority of a stream as a HEADERS frame carries it.
#[derive(Debug, Clone, Copy, PartialEq, Eq, Structural)]
pub struct PriorityInHeadersFrame {
    pub weight: u8,
    pub dependency_stream: u32,
    /// Whether the stream alone is to depend on `dependency_stream`.
    pub exclusive: bool,
}

impl PriorityInHeadersFrame {
    /// The priority that the five octets `bytes` spell.
    pub open spec fn spec_parse(bytes: Seq<u8>) -> PriorityInHeadersFrame {
        PriorityInHeadersFrame {
            weight: bytes[4],
            dependency_stream: low31(be_value(bytes.take(4))) as u32,
            exclusive: be_value(bytes.take(4)) >= 0x8000_0000,
        }
    }

    /// The five octets of the priority.
    pub open spec fn spec_serialize(self) -> Seq<u8> {
        be_bytes(
            low31(self.dependency_stream as int) + if self.exclusive {
                0x8000_0000int
            } else {
                0int
            },
            4,
        ).push(self.weight)
    }

    pub fn parse(bytes: &[u8]) -> (p: PriorityInHeadersFrame)
        requires
            bytes@.len() == 5,
        ensures
            p == PriorityInHeadersFrame::spec_parse(bytes@),
            p.dependency_stream < 0x8000_0000,
    {
        let (rest, dep) = parse_uint(bytes, 4);
        proof {
            reveal_with_fuel(pow256, 5);
            lemma_be_value_bound(bytes@.take(4));
        }
        PriorityInHeadersFrame {
            weight: rest[0],
            dependency_stream: (dep % 0x8000_0000) as u32,
            exclusive: dep >= 0x8000_0000,
        }
    }

    pub fn serialize(&self, out: &mut Vec<u8>)
        ensures
            final(out)@ == old(out)@ + self.spec_serialize(),
    {
        let ghost start = out@;
        let dep = (self.dependency_stream % 0x8000_0000) as u64;
        let word = if self.exclusive {
            dep + 0x8000_0000
        } else {
            dep
        };
        serialize_uint(out, word, 4);
        out.push(self.weight);
        assert(out@ =~= start + self.spec_serialize());
    }
}

/// Reading a priority gives back the priority that was written.
pub proof fn lemma_priority_fields_roundtrip(p: PriorityInHeadersFrame)
    requires
        p.dependency_stream < 0x8000_0000,
    ensures
        p.spec_serialize().len() == 5,
        PriorityInHeadersFrame::spec_parse(p.spec_serialize()) == p,
{
    reveal_with_fuel(pow256, 5);
    let word = p.dependency_stream as int + if p.exclusive {
        0x8000_0000int
    } else {
        0int
    };
    lemma_be_bytes_len(word, 4);
    lemma_be_roundtrip(word, 4);
    assert(p.spec_serialize().take(4) =~= be_bytes(word, 4));
}

/// A PRIORITY frame.
#[derive(Debug, PartialEq, Eq)]
pub struct PriorityFrame {
    pub my_stream_id: u32,
    pub dep_stream_id: u32,
    pub weight: i64,
    /// Whether the stream alone is to depend on `dep_stream_id`.
    pub exclusive: bool,
}

/// What went wrong with a frame: the level and the code of the error.
pub type Fault = (Level, Code);

impl PriorityFrame {
    pub fn new(my_stream_id: u32, dep_stream_id: u32, weight: i64) -> (f: PriorityFrame)
        ensures
            f == (PriorityFrame { my_stream_id, dep_stream_id, weight, exclusive: false }),
    {
        PriorityFrame { my_stream_id, dep_stream_id, weight, exclusive: false }
    }

    /// The same frame with the dependency exclusive or not, as `exclusive`
    /// says.
    pub fn with_exclusive(self, exclusive: bool) -> (f: PriorityFrame)
        ensures
            f == (PriorityFrame { exclusive, ..self }),
    {
        PriorityFrame {
            my_stream_id: self.my_stream_id,
            dep_stream_id: self.dep_stream_id,
            weight: self.weight,
            exclusive,
        }
    }

    /// The frame can be written as it is: the stream ids fit 31 bits, the
    /// stream is not 0, and the weight fits an octet.
    pub open spec fn valid(&self) -> bool {
        &&& 0 < self.my_stream_id < 0x8000_0000
        &&& self.dep_stream_id < 0x8000_0000
        &&& 0 <= self.weight <= 255
    }

    /// The frame that a header and a body give, or what is wrong with them.
    pub open spec fn spec_parse(header: FrameHeader, body: Seq<u8>) -> Result<PriorityFrame, Fault> {
        if header.stream_id == 0 {
            Err((Level::ConnectionLevel, Code::ProtocolError))
        } else if body.len() != 5 {
            Err((Level::StreamLevel, Code::FrameSizeError))
        } else {
            let p = PriorityInHeadersFrame::spec_parse(body);
            Ok(
                PriorityFrame {
                    my_stream_id: header.stream_id,
                    dep_stream_id: p.dependency_stream,
                    weight: p.weight as i64,
                    exclusive: p.exclusive,
                },
            )
        }
    }

    /// The octets of the frame, header and body. Of the weight the low
    /// octet is written.
    pub open spec fn spec_serialize(&self) -> Seq<u8> {
        (FrameHeader {
            body_len: 5,
            frame_type: 2,
            flags: 0,
            stream_id: self.my_stream_id,
        }).spec_serialize() + (PriorityInHeadersFrame {
            weight: (self.weight % 256) as u8,
            dependency_stream: self.dep_stream_id,
            exclusive: self.exclusive,
        }).spec_serialize()
    }

    pub fn parse(header: &FrameHeader, body: Vec<u8>) -> (r: Result<PriorityFrame, Error>)
        ensures
            faithful(r, PriorityFrame::spec_parse(*header, body@)),
    {
        if header.stream_id == 0 {
            return Err(
                Error::with_details(
                    Level::ConnectionLevel,
                    Code::ProtocolError,
                    "PriorityFrame must be associated with a stream",
                ),
            );
        }
        if body.len() != 5 {
            return Err(
                Error::with_details(
                    Level::StreamLevel,
                    Code::FrameSizeError,
                    "PriorityFrame must has a body of length 5.",
                ),
            );
        }
        let p = PriorityInHeadersFrame::parse(body.as_slice());
        Ok(
            PriorityFrame {
                my_stream_id: header.stream_id,
                dep_stream_id: p.dependency_stream,
                weight: p.weight as i64,
                exclusive: p.exclusive,
            },
        )
    }

    pub fn serialize(&self) -> (buf: Vec<u8>)
        ensures
            buf@ == self.spec_serialize(),
    {
        let mut buf: Vec<u8> = Vec::new();
        let h = FrameHeader {
            body_len: 5,
            frame_type: TYPE_PRIORITY,
            flags: 0,
            stream_id: self.my_stream_id,
        };
        h.serialize(&mut buf);
        let weight = self.weight;
        let low = (weight & 0xff) as u8;
        assert(low == weight % 256) by (bit_vector)
            requires
                low == (weight & 0xff) as u8,
        ;
        let p = PriorityInHeadersFrame {
            weight: low,
            dependency_stream: self.dep_stream_id,
            exclusive: self.exclusive,
        };
        p.serialize(&mut buf);
        assert(buf@ =~= self.spec_serialize());
        buf
    }
}

/// The result `r` of parsing is the one that `expected` names: the same
/// value, or an error of the same level and code.
pub open spec fn faithful<T>(r: Result<T, Error>, expected: Result<T, Fault>) -> bool {
    match expected {
        Ok(v) => match r {
            Ok(x) => x == v,
            Err(_) => false,
        },
        Err(fault) => match r {
            Ok(_) => false,
            Err(e) => e.level == fault.0 && e.code == fault.1,
        },
    }
}

/// Reading a PRIORITY frame gives back the frame that was written.
pub proof fn lemma_priority_roundtrip(f: PriorityFrame)
    requires
        f.valid(),
    ensures
        f.spec_serialize().len() == 14,
        PriorityFrame::spec_parse(
            FrameHeader::spec_parse(f.spec_serialize().take(9)),
            f.spec_serialize().skip(9),
        ) == Ok::<PriorityFrame, Fault>(f),
{
    let h = FrameHeader { body_len: 5, frame_type: 2, flags: 0, stream_id: f.my_stream_id };
    let p = PriorityInHeadersFrame {
        weight: (f.weight % 256) as u8,
        dependency_stream: f.dep_stream_id,
        exclusive: f.exclusive,
    };
    lemma_frame_header_roundtrip(h, p.spec_serialize());
    lemma_priority_fields_roundtrip(p);
    assert(f.spec_serialize().skip(9) =~= p.spec_serialize());
}

/// A SETTINGS frame: an acknowledgement, or settings to be taken over.
#[derive(Debug, PartialEq, Eq)]
pub struct SettingsFrame {
    pub ack: bool,
    pub values: Vec<(SettingKey, u32)>,
}

/// The setting with the identifier `id`, which is one of 1 to 6.
pub open spec fn setting_with_id(id: int) -> SettingKey {
    if id == 1 {
        SettingKey::HeaderTableSize
    } else if id == 2 {
        SettingKey::EnablePush
    } else if id == 3 {
        SettingKey::MaxConcurrentStreams
    } else if id == 4 {
        SettingKey::InitialWindowSize
    } else if id == 5 {
        SettingKey::MaxFrameSize
    } else {
        SettingKey::MaxHeaderListSize
    }
}

/// The settings that a body spells, six octets each: an identifier and a
/// value. Identifiers that name no setting are passed over.
pub open spec fn settings_values(body: Seq<u8>) -> Seq<(SettingKey, u32)>
    decreases body.len(),
{
    if body.len() < 6 {
        Seq::empty()
    } else {
        let before = settings_values(body.take(body.len() - 6));
        let chunk = body.skip(body.len() - 6);
        let id = be_value(chunk.take(2));
        if 1 <= id <= 6 {
            before.push((setting_with_id(id), be_value(chunk.skip(2)) as u32))
        } else {
            before
        }
    }
}

/// The body that spells the settings `values`.
pub open spec fn settings_body(values: Seq<(SettingKey, u32)>) -> Seq<u8>
    decreases values.len(),
{
    if values.len() == 0 {
        Seq::empty()
    } else {
        settings_body(values.drop_last()) + be_bytes(values.last().0.h2_id(), 2) + be_bytes(
            values.last().1 as int,
            4,
        )
    }
}

pub proof fn lemma_settings_body_len(values: Seq<(SettingKey, u32)>)
    ensures
        settings_body(values).len() == 6 * values.len(),
    decreases values.len(),
{
    if values.len() > 0 {
        lemma_settings_body_len(values.drop_last());
        lemma_be_bytes_len(values.last().0.h2_id(), 2);
        lemma_be_bytes_len(values.last().1 as int, 4);
    }
}

/// Reading the body of a SETTINGS frame gives back the settings that were
/// written.
pub proof fn lemma_settings_values_roundtrip(values: Seq<(SettingKey, u32)>)
    ensures
        settings_values(settings_body(values)) == values,
    decreases values.len(),
{
    if values.len() > 0 {
        let body = settings_body(values);
        let before = settings_body(values.drop_last());
        let id = values.last().0.h2_id();
        let value = values.last().1 as int;
        lemma_settings_body_len(values);
        lemma_settings_body_len(values.drop_last());
        lemma_settings_values_roundtrip(values.drop_last());
        lemma_be_bytes_len(id, 2);
        lemma_be_bytes_len(value, 4);
        reveal_with_fuel(pow256, 5);
        lemma_be_roundtrip(id, 2);
        lemma_be_roundtrip(value, 4);
        assert(body.take(body.len() - 6) =~= before);
        let chunk = body.skip(body.len() - 6);
        assert(chunk.take(2) =~= be_bytes(id, 2));
        assert(chunk.skip(2) =~= be_bytes(value, 4));
        assert(values =~= values.drop_last().push(values.last()));
    } else {
        assert(settings_values(settings_body(values)) =~= values);
    }
}

impl SettingsFrame {
    pub fn new(ack: bool, values: Vec<(SettingKey, u32)>) -> (f: SettingsFrame)
        ensures
            f.ack == ack,
            f.values == values,
    {
        SettingsFrame { ack, values }
    }

    /// The frame that a header and a body give, or what is wrong with them.
    pub open spec fn spec_parse(header: FrameHeader, body: Seq<u8>) -> Result<
        (bool, Seq<(SettingKey, u32)>),
        Fault,
    > {
        if header.stream_id != 0 {
            Err((Level::ConnectionLevel, Code::ProtocolError))
        } else if body.len() % 6 != 0 {
            Err((Level::ConnectionLevel, Code::ProtocolError))
        } else if header.flags & 0x1 != 0 && body.len() > 0 {
            Err((Level::ConnectionLevel, Code::FrameSizeError))
        } else {
            Ok((header.flags & 0x1 != 0, settings_values(body)))
        }
    }

    /// The frame can be written: its body is no longer than a frame header
    /// can say, and as an acknowledgement it is empty.
    pub open spec fn valid(&self) -> bool {
        self.values@.len() * 6 <= 0xFF_FFFF && (self.ack ==> self.values@.len() == 0)
    }

    /// The octets of the frame, header and body.
    pub open spec fn spec_serialize(&self) -> Seq<u8> {
        (FrameHeader {
            body_len: (6 * self.values@.len()) as usize,
            frame_type: 4,
            flags: if self.ack {
                1
            } else {
                0
            },
            stream_id: 0,
        }).spec_serialize() + settings_body(self.values@)
    }

    pub fn parse(header: &FrameHeader, body: Vec<u8>) -> (r: Result<SettingsFrame, Error>)
        ensures
            match SettingsFrame::spec_parse(*header, body@) {
                Ok((ack, values)) => match r {
                    Ok(f) => f.ack == ack && f.values@ == values,
                    Err(_) => false,
                },
                Err(fault) => match r {
                    Ok(_) => false,
                    Err(e) => e.level == fault.0 && e.code == fault.1,
                },
            },
    {
        if header.stream_id != 0 {
            return Err(
                Error::with_details(
                    Level::ConnectionLevel,
                    Code::ProtocolError,
                    "a SETTINGS frame can only be applied to the whole connection.",
                ),
            );
        }
        if body.len() % 6 != 0 {
            return Err(
                Error::with_details(
                    Level::ConnectionLevel,
                    Code::ProtocolError,
                    "body length of a SETTINGS frame must be a multiple of 6 octets.",
                ),
            );
        }
        let ack = header.flags & FLAG_ACK != 0;
        if ack && body.len() > 0 {
            return Err(
                Error::with_details(
                    Level::ConnectionLevel,
                    Code::FrameSizeError,
                    "a SETTINGS frame that acknowledges must be empty.",
                ),
            );
        }
        let mut values: Vec<(SettingKey, u32)> = Vec::new();
        let bytes = body.as_slice();
        let mut at: usize = 0;
        proof {
            assert(bytes@.take(0) =~= Seq::<u8>::empty());
        }
        while at < bytes.len()
            invariant
                at <= bytes.len(),
                at % 6 == 0,
                bytes.len() % 6 == 0,
                values@ == settings_values(bytes@.take(at as int)),
            decreases bytes.len() - at,
        {
            let chunk = slice_subrange(bytes, at, at + 6);
            let (rest, identifier) = parse_uint(chunk, 2);
            let (_, value) = parse_uint(rest, 4);
            proof {
                reveal_with_fuel(pow256, 5);
                let upto = bytes@.take(at + 6);
                assert(upto.take(upto.len() - 6) =~= bytes@.take(at as int));
                assert(upto.skip(upto.len() - 6) =~= chunk@);
                assert(rest@.take(4) =~= chunk@.skip(2));
                lemma_be_value_bound(chunk@.skip(2));
                lemma_be_value_bound(chunk@.take(2));
            }
            if identifier >= 1 && identifier <= 6 {
                values.push((SettingKey::from_h2_id(identifier as usize), value as u32));
            }
            at += 6;
        }
        proof {
            assert(bytes@.take(bytes.len() as int) =~= bytes@);
        }
        Ok(SettingsFrame { ack, values })
    }

    pub fn serialize(&self) -> (buf: Vec<u8>)
        requires
            self.values@.len() * 6 <= usize::MAX,
        ensures
            buf@ == self.spec_serialize(),
    {
        let mut buf: Vec<u8> = Vec::new();
        let h = FrameHeader {
            body_len: 6 * self.values.len(),
            frame_type: TYPE_SETTINGS,
            flags: if self.ack {
                FLAG_ACK
            } else {
                0u8
            },
            stream_id: 0u32,
        };
        h.serialize(&mut buf);
        let ghost head = buf@;
        let mut i: usize = 0;
        proof {
            assert(self.values@.take(0) =~= Seq::empty());
            assert(head + settings_body(self.values@.take(0)) =~= head);
        }
        while i < self.values.len()
            invariant
                i <= self.values.len(),
                buf@ == head + settings_body(self.values@.take(i as int)),
            decreases self.values.len() - i,
        {
            let (k, v) = self.values[i];
            proof {
                let upto = self.values@.take(i + 1);
                assert(upto.drop_last() =~= self.values@.take(i as int));
                assert(upto.last() == (k, v));
            }
            let ghost before = buf@;
            serialize_uint(&mut buf, k.to_h2_id() as u64, 2);
            serialize_uint(&mut buf, v as u64, 4);
            assert(buf@ =~= head + (settings_body(self.values@.take(i as int)) + be_bytes(
                k.h2_id(),
                2,
            ) + be_bytes(v as int, 4)));
            i += 1;
        }
        proof {
            assert(self.values@.take(self.values.len() as int) =~= self.values@);
        }
        buf
    }
}

/// Reading a SETTINGS frame gives back the frame that was written.
pub proof fn lemma_settings_roundtrip(f: SettingsFrame)
    requires
        f.valid(),
    ensures
        SettingsFrame::spec_parse(
            FrameHeader::spec_parse(f.spec_serialize().take(9)),
            f.spec_serialize().skip(9),
        ) == Ok::<(bool, Seq<(SettingKey, u32)>), Fault>((f.ack, f.values@)),
{
    let h = FrameHeader {
        body_len: (6 * f.values@.len()) as usize,
        frame_type: 4,
        flags: if f.ack {
            1
        } else {
            0
        },
        stream_id: 0,
    };
    let body = settings_body(f.values@);
    lemma_frame_header_roundtrip(h, body);
    lemma_settings_body_len(f.values@);
    lemma_settings_values_roundtrip(f.values@);
    assert(f.spec_serialize().skip(9) =~= body);
    assert(1u8 & 0x1 != 0 && 0u8 & 0x1 == 0) by (bit_vector);
}

/// A GOAWAY frame.
#[derive(Debug, PartialEq, Eq)]
pub struct GoAwayFrame {
    pub last_stream_id: u32,
    pub error_code: Code,
    pub debug_info: Vec<u8>,
}

impl GoAwayFrame {
    /// A frame that names no stream, no error and no details.
    pub fn new() -> (f: GoAwayFrame)
        ensures
            f.last_stream_id == 0,
            f.error_code == Code::NoError,
            f.debug_info@ == Seq::<u8>::empty(),
    {
        GoAwayFrame { last_stream_id: 0, error_code: Code::NoError, debug_info: Vec::new() }
    }

    /// The code with the number `id`.
    pub open spec fn code_with_id(id: int) -> Code {
        if id == 0 {
            Code::NoError
        } else if id == 1 {
            Code::ProtocolError
        } else if id == 2 {
            Code::InternalError
        } else if id == 3 {
            Code::FlowControlError
        } else if id == 4 {
            Code::SettingsTimeout
        } else if id == 5 {
            Code::StreamClosed
        } else if id == 6 {
            Code::FrameSizeError
        } else if id == 7 {
            Code::RefusedStream
        } else if id == 8 {
            Code::Cancel
        } else if id == 9 {
            Code::CompressionError
        } else if id == 10 {
            Code::ConnectError
        } else if id == 11 {
            Code::EnhanceYourCalm
        } else if id == 12 {
            Code::InadequateSecurity
        } else if id == 13 {
            Code::Http1Required
        } else {
            Code::Unknown(id as u32)
        }
    }

    /// The frame that a header and a body give, or what is wrong with them.
    pub open spec fn spec_parse(header: FrameHeader, body: Seq<u8>) -> Result<
        (u32, Code, Seq<u8>),
        Fault,
    > {
        if header.stream_id != 0 {
            Err((Level::ConnectionLevel, Code::ProtocolError))
        } else if body.len() < 8 {
            Err((Level::ConnectionLevel, Code::FrameSizeError))
        } else {
            Ok(
                (
                    low31(be_value(body.take(4))) as u32,
                    GoAwayFrame::code_with_id(be_value(body.subrange(4, 8))),
                    body.skip(8),
                ),
            )
        }
    }

    /// The frame can be written: its body is no longer than a frame header
    /// can say, its stream id fits 31 bits, and its code is a code with a
    /// name or a number without one.
    pub open spec fn valid(&self) -> bool {
        &&& self.debug_info@.len() + 8 <= 0xFF_FFFF
        &&& self.last_stream_id < 0x8000_0000
        &&& self.error_code.canonical()
    }

    /// The octets of the frame, header and body.
    pub open spec fn spec_serialize(&self) -> Seq<u8> {
        (FrameHeader {
            body_len: (8 + self.debug_info@.len()) as usize,
            frame_type: 7,
            flags: 0,
            stream_id: 0,
        }).spec_serialize() + be_bytes(low31(self.last_stream_id as int), 4) + be_bytes(
            self.error_code.h2_id(),
            4,
        ) + self.debug_info@
    }

    pub fn parse(header: &FrameHeader, body: Vec<u8>) -> (r: Result<GoAwayFrame, Error>)
        ensures
            match GoAwayFrame::spec_parse(*header, body@) {
                Ok((last, code, info)) => match r {
                    Ok(f) => f.last_stream_id == last && f.error_code == code && f.debug_info@
                        == info,
                    Err(_) => false,
                },
                Err(fault) => match r {
                    Ok(_) => false,
                    Err(e) => e.level == fault.0 && e.code == fault.1,
                },
            },
    {
        if header.stream_id != 0 {
            return Err(
                Error::with_details(
                    Level::ConnectionLevel,
                    Code::ProtocolError,
                    "a GOAWAY frame can only be applied to the whole connection.",
                ),
            );
        }
        if body.len() < 8 {
            return Err(
                Error::with_details(
                    Level::ConnectionLevel,
                    Code::FrameSizeError,
                    "a GOAWAY frame must name a stream and an error.",
                ),
            );
        }
        let (buf, last_stream_id) = parse_uint(body.as_slice(), 4);
        let (buf, ec) = parse_uint(buf, 4);
        proof {
            reveal_with_fuel(pow256, 5);
            lemma_be_value_bound(body@.take(4));
            lemma_be_value_bound(body@.subrange(4, 8));
            assert(body@.skip(4).take(4) =~= body@.subrange(4, 8));
            assert(body@.skip(4).skip(4) =~= body@.skip(8));
        }
        Ok(
            GoAwayFrame {
                last_stream_id: (last_stream_id % 0x8000_0000) as u32,
                error_code: Code::from_wire(ec as u32),
                debug_info: slice_to_vec(buf),
            },
        )
    }

    pub fn serialize(&self) -> (buf: Vec<u8>)
        requires
            self.debug_info@.len() + 8 <= usize::MAX,
        ensures
            buf@ == self.spec_serialize(),
    {
        let mut buf: Vec<u8> = Vec::new();
        let h = FrameHeader {
            body_len: 8 + self.debug_info.len(),
            frame_type: TYPE_GOAWAY,
            flags: 0,
            stream_id: 0,
        };
        h.serialize(&mut buf);
        serialize_uint(&mut buf, (self.last_stream_id % 0x8000_0000) as u64, 4);
        serialize_uint(&mut buf, self.error_code.to_h2_id() as u64, 4);
        let ghost before = buf@;
        buf.extend_from_slice(self.debug_info.as_slice());
        assert(buf@ =~= before + self.debug_info@);
        assert(buf@ =~= self.spec_serialize());
        buf
    }
}

/// Reading a GOAWAY frame gives back the frame that was written.
pub proof fn lemma_goaway_roundtrip(f: GoAwayFrame)
    requires
        f.valid(),
    ensures
        GoAwayFrame::spec_parse(
            FrameHeader::spec_parse(f.spec_serialize().take(9)),
            f.spec_serialize().skip(9),
        ) == Ok::<(u32, Code, Seq<u8>), Fault>((f.last_stream_id, f.error_code, f.debug_info@)),
{
    let h = FrameHeader {
        body_len: (8 + f.debug_info@.len()) as usize,
        frame_type: 7,
        flags: 0,
        stream_id: 0,
    };
    let id_bytes = be_bytes(f.last_stream_id as int, 4);
    let code_bytes = be_bytes(f.error_code.h2_id(), 4);
    let body = id_bytes + code_bytes + f.debug_info@;
    lemma_frame_header_roundtrip(h, body);
    reveal_with_fuel(pow256, 5);
    lemma_be_bytes_len(f.last_stream_id as int, 4);
    lemma_be_bytes_len(f.error_code.h2_id(), 4);
    lemma_be_roundtrip(f.last_stream_id as int, 4);
    lemma_be_roundtrip(f.error_code.h2_id(), 4);
    assert(f.spec_serialize() =~= h.spec_serialize() + body);
    assert(f.spec_serialize().skip(9) =~= body);
    assert(body.take(4) =~= id_bytes);
    assert(body.subrange(4, 8) =~= code_bytes);
    assert(body.skip(8) =~= f.debug_info@);
}

/// A HEADERS frame as it came in, its header block decoded.
#[derive(Debug, PartialEq, Eq)]
pub struct ReceivedHeadersFrame {
    pub stream_id: u32,
    pub end_stream: bool,
    pub end_headers: bool,
    pub header_block: Vec<DecoderField>,
    pub padding: Option<Vec<u8>>,
    pub priority: Option<PriorityInHeadersFrame>,
}

/// What a HEADERS frame holds.
pub struct HeadersView {
    pub stream_id: u32,
    pub end_stream: bool,
    pub end_headers: bool,
    pub header_block: Seq<FieldView>,
    pub padding: Option<Seq<u8>>,
    pub priority: Option<PriorityInHeadersFrame>,
}

impl View for ReceivedHeadersFrame {
    type V = HeadersView;

    open spec fn view(&self) -> HeadersView {
        HeadersView {
            stream_id: self.stream_id,
            end_stream: self.end_stream,
            end_headers: self.end_headers,
            header_block: self.header_block@.map_values(|f: HeaderField| f@),
            padding: match self.padding {
                Some(p) => Some(p@),
                None => None,
            },
            priority: self.priority,
        }
    }
}

/// The number of octets at the start of the body of a HEADERS frame with
/// the flags `flags` that are not header block: one for the length of the
/// padding, five for the priority.
pub open spec fn headers_fixed_len(flags: u8) -> int {
    (if flags & 0x8 != 0 {
        1int
    } else {
        0int
    }) + (if flags & 0x20 != 0 {
        5int
    } else {
        0int
    })
}

impl ReceivedHeadersFrame {
    /// The frame that a header and a body give under the dynamic table
    /// `table`, or what is wrong with them, and the table afterwards.
    ///
    /// The body holds the length of the padding where the frame is padded,
    /// the priority where it has one, the header block and the padding.
    pub open spec fn spec_parse(table: TableView, max: int, header: FrameHeader, body: Seq<u8>) -> (
        Result<HeadersView, Fault>,
        TableView,
    ) {
        let padded = header.flags & 0x8 != 0;
        let prioritized = header.flags & 0x20 != 0;
        let fixed = headers_fixed_len(header.flags);
        if header.stream_id == 0 {
            (Err((Level::ConnectionLevel, Code::ProtocolError)), table)
        } else if body.len() < fixed {
            (Err((Level::ConnectionLevel, Code::FrameSizeError)), table)
        } else {
            let pad_len = if padded {
                body[0] as int
            } else {
                0
            };
            let rest = body.skip(fixed);
            if pad_len > rest.len() {
                (Err((Level::ConnectionLevel, Code::ProtocolError)), table)
            } else {
                let block = block_decoding(table, max, rest.take(rest.len() - pad_len));
                (
                    match block.0 {
                        Err(e) => Err((Level::ConnectionLevel, e.spec_code())),
                        Ok(fields) => Ok(
                            HeadersView {
                                stream_id: header.stream_id,
                                end_stream: header.flags & 0x1 != 0,
                                end_headers: header.flags & 0x4 != 0,
                                header_block: fields,
                                padding: if padded {
                                    Some(rest.skip(rest.len() - pad_len))
                                } else {
                                    None
                                },
                                priority: if prioritized {
                                    Some(
                                        PriorityInHeadersFrame::spec_parse(
                                            body.subrange(fixed - 5, fixed),
                                        ),
                                    )
                                } else {
                                    None
                                },
                            },
                        ),
                    },
                    block.1,
                )
            }
        }
    }

    pub fn parse(decoder: &mut Decoder, header: &FrameHeader, body: Vec<u8>) -> (r: Result<
        ReceivedHeadersFrame,
        Error,
    >)
        requires
            old(decoder).wf(),
        ensures
            final(decoder).wf(),
            final(decoder).max_capacity() == old(decoder).max_capacity(),
            final(decoder).table() == ReceivedHeadersFrame::spec_parse(
                old(decoder).table(),
                old(decoder).max_capacity(),
                *header,
                body@,
            ).1,
            match ReceivedHeadersFrame::spec_parse(
                old(decoder).table(),
                old(decoder).max_capacity(),
                *header,
                body@,
            ).0 {
                Ok(frame) => match r {
                    Ok(f) => f@ == frame,
                    Err(_) => false,
                },
                Err(fault) => match r {
                    Ok(_) => false,
                    Err(e) => e.level == fault.0 && e.code == fault.1,
                },
            },
    {
        if header.stream_id == 0 {
            return Err(
                Error::with_details(
                    Level::ConnectionLevel,
                    Code::ProtocolError,
                    "ReceivedHeadersFrame associates with stream 0.",
                ),
            );
        }
        let end_stream = (header.flags & FLAG_END_STREAM) != 0;
        let end_headers = (header.flags & FLAG_END_HEADERS) != 0;
        let padded = (header.flags & FLAG_PADDED) != 0;
        let prioritized = (header.flags & FLAG_PRIORITY) != 0;
        let fixed: usize = (if padded {
            1usize
        } else {
            0usize
        }) + (if prioritized {
            5usize
        } else {
            0usize
        });
        let bytes = body.as_slice();
        if bytes.len() < fixed {
            return Err(
                Error::with_details(
                    Level::ConnectionLevel,
                    Code::FrameSizeError,
                    "Too short for what the flags announce.",
                ),
            );
        }
        let pad_len: usize = if padded {
            bytes[0] as usize
        } else {
            0
        };
        let priority = if prioritized {
            Some(PriorityInHeadersFrame::parse(slice_subrange(bytes, fixed - 5, fixed)))
        } else {
            None
        };
        let rest = slice_subrange(bytes, fixed, bytes.len());
        if pad_len > rest.len() {
            return Err(
                Error::with_details(
                    Level::ConnectionLevel,
                    Code::ProtocolError,
                    "Too long padding.",
                ),
            );
        }
        let head = slice_subrange(rest, 0, rest.len() - pad_len);
        let tail = slice_subrange(rest, rest.len() - pad_len, rest.len());
        proof {
            assert(rest@ =~= body@.skip(fixed as int));
            assert(head@ =~= rest@.take(rest@.len() - pad_len));
            assert(tail@ =~= rest@.skip(rest@.len() - pad_len));
        }
        match decoder.parse_header_block(head) {
            Ok(header_block) => Ok(
                ReceivedHeadersFrame {
                    stream_id: header.stream_id,
                    end_stream,
                    end_headers,
                    header_block,
                    padding: if padded {
                        Some(slice_to_vec(tail))
                    } else {
                        None
                    },
                    priority,
                },
            ),
            Err(err) => Err(
                Error::with_details(Level::ConnectionLevel, err.code(), err.message()),
            ),
        }
    }
}

/// A HEADERS frame to be sent.
#[derive(Debug)]
pub struct SendHeadersFrame {
    pub stream_id: u32,
    pub end_stream: bool,
    pub end_headers: bool,
    pub headers: Vec<EncoderField>,
    pub padding: Option<Vec<u8>>,
    pub priority: Option<PriorityInHeadersFrame>,
}

/// The flags of a HEADERS frame.
pub open spec fn headers_flags(end_stream: bool, end_headers: bool, padded: bool, prioritized: bool) -> u8 {
    ((if end_stream {
        0x1int
    } else {
        0int
    }) + (if end_headers {
        0x4int
    } else {
        0int
    }) + (if padded {
        0x8int
    } else {
        0int
    }) + (if prioritized {
        0x20int
    } else {
        0int
    })) as u8
}

/// Each flag of a HEADERS frame can be read off the flags.
pub proof fn lemma_headers_flags(end_stream: bool, end_headers: bool, padded: bool, prioritized: bool)
    ensures
        (headers_flags(end_stream, end_headers, padded, prioritized) & 0x1 != 0) == end_stream,
        (headers_flags(end_stream, end_headers, padded, prioritized) & 0x4 != 0) == end_headers,
        (headers_flags(end_stream, end_headers, padded, prioritized) & 0x8 != 0) == padded,
        (headers_flags(end_stream, end_headers, padded, prioritized) & 0x20 != 0) == prioritized,
{
    let a: u8 = if end_stream { 1 } else { 0 };
    let b: u8 = if end_headers { 1 } else { 0 };
    let c: u8 = if padded { 1 } else { 0 };
    let d: u8 = if prioritized { 1 } else { 0 };
    let f: u8 = (a + 4 * b + 8 * c + 32 * d) as u8;
    assert(f == headers_flags(end_stream, end_headers, padded, prioritized));
    assert(((f & 0x1 != 0) == (a == 1)) && ((f & 0x4 != 0) == (b == 1)) && ((f & 0x8 != 0) == (
    c == 1)) && ((f & 0x20 != 0) == (d == 1))) by (bit_vector)
        requires
            a <= 1,
            b <= 1,
            c <= 1,
            d <= 1,
            f == a + 4 * b + 8 * c + 32 * d,
    ;
}

impl SendHeadersFrame {
    /// The frame that the builder describes. The builder has been given a
    /// stream id and at least one header field.
    pub fn new(builder: SendHeadersFrameBuilder) -> (f: SendHeadersFrame)
        requires
            builder.stream_id.is_some(),
            builder.headers@.len() > 0,
        ensures
            f.stream_id == builder.stream_id.unwrap(),
            f.end_stream == builder.end_stream,
            f.end_headers == builder.end_headers,
            f.headers == builder.headers,
            f.padding == builder.padding,
            f.priority == builder.priority,
    {
        SendHeadersFrame {
            stream_id: builder.stream_id.unwrap(),
            end_stream: builder.end_stream,
            end_headers: builder.end_headers,
            headers: builder.headers,
            padding: builder.padding,
            priority: builder.priority,
        }
    }

    /// The body of the frame around the header block `block`.
    pub open spec fn spec_body(&self, block: Seq<u8>) -> Seq<u8> {
        (match self.padding {
            Some(p) => seq![p@.len() as u8],
            None => Seq::empty(),
        }) + (match self.priority {
            Some(p) => p.spec_serialize(),
            None => Seq::empty(),
        }) + block + (match self.padding {
            Some(p) => p@,
            None => Seq::empty(),
        })
    }

    /// The header of the frame for a body of `body_len` octets.
    pub open spec fn spec_header(&self, body_len: int) -> FrameHeader {
        FrameHeader {
            body_len: body_len as usize,
            frame_type: 1,
            flags: headers_flags(
                self.end_stream,
                self.end_headers,
                self.padding.is_some(),
                self.priority.is_some(),
            ),
            stream_id: self.stream_id,
        }
    }

    /// The padding is no longer than its length octet can say.
    pub open spec fn padding_fits(&self) -> bool {
        match self.padding {
            Some(p) => p@.len() <= 255,
            None => true,
        }
    }

    /// The octets of the frame, header and body, around the header block
    /// `block`, where the frame can be written: where the padding and the
    /// body are no longer than their lengths can say.
    pub open spec fn spec_serialize(&self, block: Seq<u8>) -> Option<Seq<u8>> {
        let body = self.spec_body(block);
        if self.padding_fits() && body.len() <= 0xFF_FFFF {
            Some(self.spec_header(body.len() as int).spec_serialize() + body)
        } else {
            None
        }
    }

    /// Encodes the header fields with `encoder` and returns the octets of
    /// the frame. Where the frame cannot be written, the fields have gone
    /// through the encoder all the same, and the error is a frame size error
    /// of the stream.
    #[verifier::rlimit(40)]
    pub fn serialize(&self, encoder: &mut Encoder) -> (r: Result<Vec<u8>, Error>)
        requires
            old(encoder).wf(),
        ensures
            final(encoder).wf(),
            final(encoder).pending().is_none(),
            final(encoder).table() == block_encoding(
                old(encoder).table(),
                old(encoder).pending(),
                field_specs(self.headers@),
            ).1,
            match self.spec_serialize(
                block_encoding(
                    old(encoder).table(),
                    old(encoder).pending(),
                    field_specs(self.headers@),
                ).0,
            ) {
                Some(bytes) => match r {
                    Ok(buf) => buf@ == bytes,
                    Err(_) => false,
                },
                None => match r {
                    Ok(_) => false,
                    Err(e) => e.level == Level::StreamLevel && e.code == Code::FrameSizeError,
                },
            },
    {
        let mut header_buf: Vec<u8> = Vec::new();
        encoder.encode_header_block(&mut header_buf, &self.headers);
        let ghost block = header_buf@;
        assert(block =~= block_encoding(
            old(encoder).table(),
            old(encoder).pending(),
            field_specs(self.headers@),
        ).0);
        let mut flags: u8 = 0;
        let mut extra: usize = 0;
        proof {
            lemma_headers_flags(
                self.end_stream,
                self.end_headers,
                self.padding.is_some(),
                self.priority.is_some(),
            );
        }
        if self.end_stream {
            flags = flags + FLAG_END_STREAM;
        }
        if self.end_headers {
            flags = flags + FLAG_END_HEADERS;
        }
        match &self.padding {
            Some(p) => {
                if p.len() > 255 {
                    return Err(
                        Error::with_details(
                            Level::StreamLevel,
                            Code::FrameSizeError,
                            "Too long padding.",
                        ),
                    );
                }
                flags = flags + FLAG_PADDED;
                extra = extra + p.len() + 1;
            },
            None => {},
        }
        if self.priority.is_some() {
            flags = flags + FLAG_PRIORITY;
            extra = extra + 5;
        }
        proof {
            match self.priority {
                Some(p) => {
                    lemma_priority_len(p);
                },
                None => {},
            }
        }
        if header_buf.len() > MAX_BODY_LEN - extra {
            return Err(
                Error::with_details(
                    Level::StreamLevel,
                    Code::FrameSizeError,
                    "Too long header block.",
                ),
            );
        }
        let header = FrameHeader {
            body_len: header_buf.len() + extra,
            frame_type: TYPE_HEADERS,
            flags,
            stream_id: self.stream_id,
        };
        let mut main_buf: Vec<u8> = Vec::new();
        header.serialize(&mut main_buf);
        match &self.padding {
            Some(p) => {
                main_buf.push(p.len() as u8);
            },
            None => {},
        }
        match &self.priority {
            Some(p) => {
                p.serialize(&mut main_buf);
            },
            None => {},
        }
        main_buf.append(&mut header_buf);
        match &self.padding {
            Some(p) => {
                let ghost before = main_buf@;
                main_buf.extend_from_slice(p.as_slice());
                assert(main_buf@ =~= before + p@);
            },
            None => {},
        }
        assert(main_buf@ =~= header.spec_serialize() + self.spec_body(block));
        Ok(main_buf)
    }
}

/// A priority takes five octets.
pub proof fn lemma_priority_len(p: PriorityInHeadersFrame)
    ensures
        p.spec_serialize().len() == 5,
{
    lemma_be_bytes_len(
        low31(p.dependency_stream as int) + if p.exclusive {
            0x8000_0000int
        } else {
            0int
        },
        4,
    );
}

/// Puts a HEADERS frame together piece by piece.
#[derive(Debug)]
pub struct SendHeadersFrameBuilder {
    pub stream_id: Option<u32>,
    pub end_stream: bool,
    pub end_headers: bool,
    pub headers: Vec<EncoderField>,
    pub padding: Option<Vec<u8>>,
    pub priority: Option<PriorityInHeadersFrame>,
}

impl SendHeadersFrameBuilder {
    pub fn new() -> (b: SendHeadersFrameBuilder)
        ensures
            b.stream_id.is_none(),
            !b.end_stream,
            !b.end_headers,
            b.headers@.len() == 0,
            b.padding.is_none(),
            b.priority.is_none(),
    {
        SendHeadersFrameBuilder {
            stream_id: None,
            end_stream: false,
            end_headers: false,
            headers: Vec::new(),
            padding: None,
            priority: None,
        }
    }

    pub fn set_stream_id(&mut self, stream_id: u32) -> (r: &mut Self)
        ensures
            *r == (SendHeadersFrameBuilder { stream_id: Some(stream_id), ..*old(self) }),
            *final(self) == *final(r),
    {
        self.stream_id = Some(stream_id);
        self
    }

    pub fn set_end_stream(&mut self) -> (r: &mut Self)
        ensures
            *r == (SendHeadersFrameBuilder { end_stream: true, ..*old(self) }),
            *final(self) == *final(r),
    {
        self.end_stream = true;
        self
    }

    pub fn set_end_headers(&mut self) -> (r: &mut Self)
        ensures
            *r == (SendHeadersFrameBuilder { end_headers: true, ..*old(self) }),
            *final(self) == *final(r),
    {
        self.end_headers = true;
        self
    }

    pub fn append_header_field(&mut self, field: EncoderField) -> (r: &mut Self)
        ensures
            r.headers@ == old(self).headers@.push(field),
            r.stream_id == old(self).stream_id,
            r.end_stream == old(self).end_stream,
            r.end_headers == old(self).end_headers,
            r.padding == old(self).padding,
            r.priority == old(self).priority,
            *final(self) == *final(r),
    {
        self.headers.push(field);
        self
    }

    pub fn set_padding(&mut self, padding: Vec<u8>) -> (r: &mut Self)
        ensures
            *r == (SendHeadersFrameBuilder { padding: Some(padding), ..*old(self) }),
            *final(self) == *final(r),
    {
        self.padding = Some(padding);
        self
    }

    pub fn set_priority(&mut self, priority: PriorityInHeadersFrame) -> (r: &mut Self)
        ensures
            *r == (SendHeadersFrameBuilder { priority: Some(priority), ..*old(self) }),
            *final(self) == *final(r),
    {
        self.priority = Some(priority);
        self
    }
}

/// Reading a HEADERS frame gives back the frame that was written: the
/// stream, the flags, the padding and the priority as they were, and header
/// fields with the names and values that went into the encoder. The dynamic
/// table of the decoder ends as that of the encoder does.
pub proof fn lemma_headers_roundtrip(
    table: TableView,
    pending: Option<int>,
    max: int,
    f: SendHeadersFrame,
)
    requires
        table.valid(),
        encodable(field_specs(f.headers@)),
        match pending {
            Some(cap) => 0 <= cap <= max && cap <= usize::MAX,
            None => true,
        },
        0 < f.stream_id < 0x8000_0000,
        match f.priority {
            Some(p) => p.dependency_stream < 0x8000_0000,
            None => true,
        },
        f.spec_serialize(block_encoding(table, pending, field_specs(f.headers@)).0).is_some(),
    ensures
        ({
            let block = block_encoding(table, pending, field_specs(f.headers@));
            let wire = f.spec_serialize(block.0).unwrap();
            ReceivedHeadersFrame::spec_parse(
                table,
                max,
                FrameHeader::spec_parse(wire.take(9)),
                wire.skip(9),
            ) == (
                Ok::<HeadersView, Fault>(
                    HeadersView {
                        stream_id: f.stream_id,
                        end_stream: f.end_stream,
                        end_headers: f.end_headers,
                        header_block: decoded_views(
                            match pending {
                                Some(cap) => table.resize(cap),
                                None => table,
                            },
                            field_specs(f.headers@),
                        ),
                        padding: match f.padding {
                            Some(p) => Some(p@),
                            None => None,
                        },
                        priority: f.priority,
                    },
                ),
                block.1,
            )
        }),
{
    let specs = field_specs(f.headers@);
    let block = block_encoding(table, pending, specs);
    let body = f.spec_body(block.0);
    let header = f.spec_header(body.len() as int);
    let wire = header.spec_serialize() + body;
    lemma_frame_header_roundtrip(header, body);
    lemma_block_roundtrip(table, pending, max, specs);
    assert(wire.skip(9) =~= body);
    lemma_headers_body(f, block.0);
}

/// The body of a HEADERS frame comes apart into what it was made of: after
/// the octets that the flags announce stand the header block and the
/// padding, and the priority and the length of the padding are read back as
/// they were.
pub proof fn lemma_headers_body(f: SendHeadersFrame, block: Seq<u8>)
    requires
        f.padding_fits(),
        match f.priority {
            Some(p) => p.dependency_stream < 0x8000_0000,
            None => true,
        },
    ensures
        ({
            let body = f.spec_body(block);
            let flags = f.spec_header(body.len() as int).flags;
            let fixed = headers_fixed_len(flags);
            let padding: Seq<u8> = match f.padding {
                Some(p) => p@,
                None => Seq::empty(),
            };
            let rest = body.skip(fixed);
            &&& (flags & 0x1 != 0) == f.end_stream
            &&& (flags & 0x4 != 0) == f.end_headers
            &&& (flags & 0x8 != 0) == f.padding.is_some()
            &&& (flags & 0x20 != 0) == f.priority.is_some()
            &&& fixed <= body.len()
            &&& rest.len() == block.len() + padding.len()
            &&& rest.take(rest.len() - padding.len()) == block
            &&& rest.skip(rest.len() - padding.len()) == padding
            &&& f.padding.is_some() ==> body[0] == padding.len()
            &&& match f.priority {
                Some(p) => PriorityInHeadersFrame::spec_parse(body.subrange(fixed - 5, fixed)) == p,
                None => true,
            }
        }),
{
    let body = f.spec_body(block);
    lemma_headers_flags(f.end_stream, f.end_headers, f.padding.is_some(), f.priority.is_some());
    let pad_part: Seq<u8> = match f.padding {
        Some(p) => seq![p@.len() as u8],
        None => Seq::empty(),
    };
    let prio_part: Seq<u8> = match f.priority {
        Some(p) => p.spec_serialize(),
        None => Seq::empty(),
    };
    let padding: Seq<u8> = match f.padding {
        Some(p) => p@,
        None => Seq::empty(),
    };
    match f.priority {
        Some(p) => {
            lemma_priority_len(p);
            lemma_priority_fields_roundtrip(p);
        },
        None => {},
    }
    let fixed = (pad_part.len() + prio_part.len()) as int;
    assert(body =~= pad_part + prio_part + block + padding);
    let rest = body.skip(fixed);
    assert(rest =~= block + padding);
    assert(rest.take(rest.len() - padding.len()) =~= block);
    assert(rest.skip(rest.len() - padding.len()) =~= padding);
    if f.priority.is_some() {
        assert(body.subrange(fixed - 5, fixed) =~= prio_part);
    }
    if f.padding.is_some() {
        assert(body[0] == pad_part[0]);
    }
}

/// A frame as it came in.
#[derive(Debug, PartialEq, Eq)]
pub enum Frame {
    Headers(ReceivedHeadersFrame),
    Priority(PriorityFrame),
    Settings(SettingsFrame),
    GoAway(GoAwayFrame),
}

/// What a frame holds.
pub enum FrameView {
    Headers(HeadersView),
    Priority(PriorityFrame),
    /// Whether the frame acknowledges, and its settings.
    Settings((bool, Seq<(SettingKey, u32)>)),
    /// The last stream, the error code and the details.
    GoAway((u32, Code, Seq<u8>)),
}

impl View for Frame {
    type V = FrameView;

    open spec fn view(&self) -> FrameView {
        match self {
            Frame::Headers(f) => FrameView::Headers(f@),
            Frame::Priority(f) => FrameView::Priority(*f),
            Frame::Settings(f) => FrameView::Settings((f.ack, f.values@)),
            Frame::GoAway(f) => FrameView::GoAway((f.last_stream_id, f.error_code, f.debug_info@)),
        }
    }
}

impl Frame {
    /// The frame that a header and a body give under the dynamic table
    /// `table`, or what is wrong with them, and the table afterwards. A
    /// frame of a type other than HEADERS, PRIORITY, SETTINGS and GOAWAY is
    /// a protocol error of the connection.
    pub open spec fn spec_parse(table: TableView, max: int, header: FrameHeader, body: Seq<u8>) -> (
        Result<FrameView, Fault>,
        TableView,
    ) {
        if header.frame_type == 1 {
            let parsed = ReceivedHeadersFrame::spec_parse(table, max, header, body);
            (
                match parsed.0 {
                    Ok(f) => Ok(FrameView::Headers(f)),
                    Err(fault) => Err(fault),
                },
                parsed.1,
            )
        } else if header.frame_type == 2 {
            (
                match PriorityFrame::spec_parse(header, body) {
                    Ok(f) => Ok(FrameView::Priority(f)),
                    Err(fault) => Err(fault),
                },
                table,
            )
        } else if header.frame_type == 4 {
            (
                match SettingsFrame::spec_parse(header, body) {
                    Ok(f) => Ok(FrameView::Settings(f)),
                    Err(fault) => Err(fault),
                },
                table,
            )
        } else if header.frame_type == 7 {
            (
                match GoAwayFrame::spec_parse(header, body) {
                    Ok(f) => Ok(FrameView::GoAway(f)),
                    Err(fault) => Err(fault),
                },
                table,
            )
        } else {
            (Err((Level::ConnectionLevel, Code::ProtocolError)), table)
        }
    }

    /// Reads the frame that `header` announces from `body`. The header block
    /// of a HEADERS frame goes through `decoder`.
    pub fn parse(decoder: &mut Decoder, header: &FrameHeader, body: Vec<u8>) -> (r: Result<
        Frame,
        Error,
    >)
        requires
            old(decoder).wf(),
        ensures
            final(decoder).wf(),
            final(decoder).max_capacity() == old(decoder).max_capacity(),
            final(decoder).table() == Frame::spec_parse(
                old(decoder).table(),
                old(decoder).max_capacity(),
                *header,
                body@,
            ).1,
            match Frame::spec_parse(
                old(decoder).table(),
                old(decoder).max_capacity(),
                *header,
                body@,
            ).0 {
                Ok(frame) => match r {
                    Ok(f) => f@ == frame,
                    Err(_) => false,
                },
                Err(fault) => match r {
                    Ok(_) => false,
                    Err(e) => e.level == fault.0 && e.code == fault.1,
                },
            },
    {
        if header.frame_type == TYPE_HEADERS {
            match ReceivedHeadersFrame::parse(decoder, header, body) {
                Ok(f) => Ok(Frame::Headers(f)),
                Err(e) => Err(e),
            }
        } else if header.frame_type == TYPE_PRIORITY {
            match PriorityFrame::parse(header, body) {
                Ok(f) => Ok(Frame::Priority(f)),
                Err(e) => Err(e),
            }
        } else if header.frame_type == TYPE_SETTINGS {
            match SettingsFrame::parse(header, body) {
                Ok(f) => Ok(Frame::Settings(f)),
                Err(e) => Err(e),
            }
        } else if header.frame_type == TYPE_GOAWAY {
            match GoAwayFrame::parse(header, body) {
                Ok(f) => Ok(Frame::GoAway(f)),
                Err(e) => Err(e),
            }
        } else {
            Err(
                Error::with_details(
                    Level::ConnectionLevel,
                    Code::ProtocolError,
                    "unknown frame type",
                ),
            )
        }
    }

    /// The frame can be written back: it is not a HEADERS frame, whose
    /// header block is gone, and its body is of a length that can be counted.
    pub open spec fn writable(&self) -> bool {
        match self {
            Frame::Headers(_) => false,
            Frame::Priority(_) => true,
            Frame::Settings(f) => f.values@.len() * 6 <= usize::MAX,
            Frame::GoAway(f) => f.debug_info@.len() + 8 <= usize::MAX,
        }
    }

    /// The octets of the frame, header and body.
    pub fn serialize(&self) -> (buf: Vec<u8>)
        requires
            self.writable(),
        ensures
            match self {
                Frame::Headers(_) => false,
                Frame::Priority(f) => buf@ == f.spec_serialize(),
                Frame::Settings(f) => buf@ == f.spec_serialize(),
                Frame::GoAway(f) => buf@ == f.spec_serialize(),
            },
    {
        match self {
            Frame::Priority(f) => f.serialize(),
            Frame::Settings(f) => f.serialize(),
            Frame::GoAway(f) => f.serialize(),
            Frame::Headers(_) => Vec::new(),
        }
    }
}

/// A frame to be sent.
#[derive(Debug)]
pub enum SendFrame {
    Headers(SendHeadersFrame),
    Priority(PriorityFrame),
    Settings(SettingsFrame),
    GoAway(GoAwayFrame),
}

impl SendFrame {
    /// The octets of the frame, header and body, where the frame can be
    /// written. The header fields of a HEADERS frame go through `encoder`.
    pub fn serialize(&self, encoder: &mut Encoder) -> (r: Result<Vec<u8>, Error>)
        requires
            old(encoder).wf(),
        ensures
            final(encoder).wf(),
            match self {
                SendFrame::Headers(f) => final(encoder).pending().is_none() && final(encoder).table() == block_encoding(
                    old(encoder).table(),
                    old(encoder).pending(),
                    field_specs(f.headers@),
                ).1 && match f.spec_serialize(
                    block_encoding(
                        old(encoder).table(),
                        old(encoder).pending(),
                        field_specs(f.headers@),
                    ).0,
                ) {
                    Some(bytes) => match r {
                        Ok(buf) => buf@ == bytes,
                        Err(_) => false,
                    },
                    None => match r {
                        Ok(_) => false,
                        Err(e) => e.level == Level::StreamLevel && e.code == Code::FrameSizeError,
                    },
                },
                SendFrame::Priority(f) => final(encoder).table() == old(encoder).table() && final(encoder).pending() == old(encoder).pending() && match r {
                    Ok(buf) => buf@ == f.spec_serialize(),
                    Err(_) => false,
                },
                SendFrame::Settings(f) => final(encoder).table() == old(encoder).table() && final(encoder).pending() == old(encoder).pending() && match r {
                    Ok(buf) => buf@ == f.spec_serialize() && f.values@.len() * 6 <= 0xFF_FFFF,
                    Err(e) => f.values@.len() * 6 > 0xFF_FFFF && e.level == Level::StreamLevel
                        && e.code == Code::FrameSizeError,
                },
                SendFrame::GoAway(f) => final(encoder).table() == old(encoder).table() && final(encoder).pending() == old(encoder).pending() && match r {
                    Ok(buf) => buf@ == f.spec_serialize() && f.debug_info@.len() + 8 <= 0xFF_FFFF,
                    Err(e) => f.debug_info@.len() + 8 > 0xFF_FFFF && e.level == Level::StreamLevel
                        && e.code == Code::FrameSizeError,
                },
            },
    {
        match self {
            SendFrame::Headers(f) => f.serialize(encoder),
            SendFrame::Priority(f) => Ok(f.serialize()),
            SendFrame::Settings(f) => {
                if f.values.len() > MAX_BODY_LEN / 6 {
                    Err(
                        Error::with_details(
                            Level::StreamLevel,
                            Code::FrameSizeError,
                            "Too many settings.",
                        ),
                    )
                } else {
                    Ok(f.serialize())
                }
            },
            SendFrame::GoAway(f) => {
                if f.debug_info.len() > MAX_BODY_LEN - 8 {
                    Err(
                        Error::with_details(
                            Level::StreamLevel,
                            Code::FrameSizeError,
                            "Too long debug information.",
                        ),
                    )
                } else {
                    Ok(f.serialize())
                }
            },
        }
    }
}

} // verus!
