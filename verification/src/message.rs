//! The wire-protocol codec: typed messages, their builder, and the
//! deterministic mapping between a message and its byte-level encoding.
//!
//! Wire format, little-endian:
//! four magic header bytes, one type-code byte, a four-byte field count,
//! then for each field a four-byte length followed by that many data bytes.

use crate::errors::MessageError;
use vstd::prelude::*;
use vstd::bytes::{spec_u32_to_le_bytes, spec_u32_from_le_bytes, u32_to_le_bytes, u32_from_le_bytes, lemma_auto_spec_u32_to_from_le_bytes};
use vstd::slice::{slice_index_get, slice_subrange, slice_to_vec};

verus! {

broadcast use vstd::seq_lib::group_seq_lib_default, vstd::seq::group_seq_axioms;

/// The four magic bytes that begin every message on the wire.
pub open spec fn magic() -> Seq<u8> {
    seq![0x23u8, 0x3cu8, 0x21u8, 0x3eu8]
}

/// The tag of a protocol message. Unknown codes on the wire are a decode
/// error, never a panic.
#[derive(Debug, Clone, Copy, PartialEq, Eq, Structural)]
pub enum MessageType {
    Empty,
    Ping,
    Pong,
    Okay,
    Error,
    Disconnect,
    Register,
    Login,
}

impl MessageType {
    /// The one-byte code that stands for this type on the wire.
    pub open spec fn code(self) -> u8 {
        match self {
            MessageType::Empty => 0x00,
            MessageType::Ping => 0x3c,
            MessageType::Pong => 0x3e,
            MessageType::Okay => 0x06,
            MessageType::Error => 0x3f,
            MessageType::Disconnect => 0x1b,
            MessageType::Register => 0x52,
            MessageType::Login => 0x4c,
        }
    }

    /// The type that a one-byte code stands for, if the code is known.
    pub open spec fn spec_from_code(code: u8) -> Option<MessageType> {
        if code == 0x00 {
            Some(MessageType::Empty)
        } else if code == 0x3c {
            Some(MessageType::Ping)
        } else if code == 0x3e {
            Some(MessageType::Pong)
        } else if code == 0x06 {
            Some(MessageType::Okay)
        } else if code == 0x3f {
            Some(MessageType::Error)
        } else if code == 0x1b {
            Some(MessageType::Disconnect)
        } else if code == 0x52 {
            Some(MessageType::Register)
        } else if code == 0x4c {
            Some(MessageType::Login)
        } else {
            None
        }
    }

    /// Map a wire code to a message type; `None` for a code outside the
    /// known set.
    pub fn from_code(code: u8) -> (r: Option<MessageType>)
        ensures
            r == MessageType::spec_from_code(code),
    {
        match code {
            0x00 => Some(MessageType::Empty),
            0x3c => Some(MessageType::Ping),
            0x3e => Some(MessageType::Pong),
            0x06 => Some(MessageType::Okay),
            0x3f => Some(MessageType::Error),
            0x1b => Some(MessageType::Disconnect),
            0x52 => Some(MessageType::Register),
            0x4c => Some(MessageType::Login),
            _ => None,
        }
    }

    /// The wire code of this message type.
    pub fn to_code(&self) -> (r: u8)
        ensures
            r == self.code(),
    {
        match self {
            MessageType::Empty => 0x00,
            MessageType::Ping => 0x3c,
            MessageType::Pong => 0x3e,
            MessageType::Okay => 0x06,
            MessageType::Error => 0x3f,
            MessageType::Disconnect => 0x1b,
            MessageType::Register => 0x52,
            MessageType::Login => 0x4c,
        }
    }

    /// Reading back the code of a type yields the type.
    pub proof fn lemma_code_round_trip(self)
        ensures
            MessageType::spec_from_code(self.code()) == Some(self),
    {
    }
}

/// Copy a byte vector element by element.
pub(crate) fn copy_bytes(src: &Vec<u8>) -> (r: Vec<u8>)
    ensures
        r@ == src@,
{
    let mut r: Vec<u8> = Vec::new();
    let mut i: usize = 0;
    while i < src.len()
        invariant
            i <= src@.len(),
            r@ == src@.take(i as int),
        decreases src@.len() - i,
    {
        r.push(src[i]);
        proof {
            assert(r@ =~= src@.take(i + 1));
        }
        i = i + 1;
    }
    proof {
        assert(src@.take(src@.len() as int) =~= src@);
    }
    r
}

/// One length-prefixed byte-string payload within a message.
#[derive(Debug)]
struct MessageField {
    length: u32,
    data: Vec<u8>,
}

impl MessageField {
    spec fn wf(self) -> bool {
        self.length == self.data@.len()
    }

    fn new(data: Vec<u8>) -> (r: MessageField)
        requires
            data@.len() <= u32::MAX,
        ensures
            r.wf(),
            r.data@ == data@,
    {
        MessageField { length: data.len() as u32, data }
    }
}

/// The declared field count and the ordered fields of a message.
#[derive(Debug)]
struct MessageBody {
    count: u32,
    fields: Vec<MessageField>,
}

/// The byte-string payloads of a sequence of fields, in order.
spec fn fields_data(fields: Seq<MessageField>) -> Seq<Seq<u8>> {
    fields.map(|i: int, f: MessageField| f.data@)
}

impl MessageBody {
    spec fn wf(self) -> bool {
        &&& self.count == self.fields@.len()
        &&& forall|i: int| 0 <= i < self.fields@.len() ==> (#[trigger] self.fields@[i]).wf()
    }

    fn add_field(&mut self, field: MessageField)
        requires
            old(self).wf(),
            field.wf(),
            old(self).fields@.len() < u32::MAX,
        ensures
            final(self).wf(),
            fields_data(final(self).fields@) == fields_data(old(self).fields@).push(field.data@),
    {
        self.count = self.count + 1;
        self.fields.push(field);
        proof {
            assert(fields_data(self.fields@) =~= fields_data(old(self).fields@).push(field.data@));
        }
    }

    fn default() -> (r: MessageBody)
        ensures
            r.wf(),
            fields_data(r.fields@) == Seq::<Seq<u8>>::empty(),
    {
        let r = MessageBody { count: 0, fields: Vec::new() };
        proof {
            assert(fields_data(r.fields@) =~= Seq::<Seq<u8>>::empty());
        }
        r
    }

    /// Copy the body field by field.
    fn duplicate(&self) -> (r: MessageBody)
        requires
            self.wf(),
        ensures
            r.wf(),
            fields_data(r.fields@) == fields_data(self.fields@),
    {
        let mut fields: Vec<MessageField> = Vec::new();
        let mut i: usize = 0;
        while i < self.fields.len()
            invariant
                self.wf(),
                i <= self.fields@.len(),
                fields@.len() == i,
                forall|j: int| 0 <= j < i ==> (#[trigger] fields@[j]).wf(),
                forall|j: int| 0 <= j < i ==> (#[trigger] fields@[j]).data@ == self.fields@[j].data@,
            decreases self.fields@.len() - i,
        {
            let f = &self.fields[i];
            fields.push(MessageField { length: f.length, data: copy_bytes(&f.data) });
            i = i + 1;
        }
        let r = MessageBody { count: self.count, fields };
        proof {
            assert(fields_data(r.fields@) =~= fields_data(self.fields@));
        }
        r
    }
}

/// A message that can be sent or received over the protocol: a type tag and
/// an ordered sequence of byte-string fields.
#[derive(Debug)]
pub struct Message {
    mtype: MessageType,
    body: MessageBody,
}

/// A builder that assembles a message from a type and zero or more fields.
pub struct MessageBuilder {
    mtype: MessageType,
    body: MessageBody,
}

impl Message {
    /// The type tag of this message.
    pub closed spec fn spec_mtype(self) -> MessageType {
        self.mtype
    }

    /// The ordered byte-string fields of this message.
    pub closed spec fn spec_fields(self) -> Seq<Seq<u8>> {
        fields_data(self.body.fields@)
    }

    /// The declared field count agrees with the fields held, every field's
    /// declared length agrees with its data, and both fit the wire's
    /// four-byte integers.
    pub closed spec fn wf(self) -> bool {
        self.body.wf()
    }

    /// Well-formedness bounds the fields: the count and each field's length
    /// fit a four-byte integer.
    pub proof fn lemma_wf_bounds(self)
        requires
            self.wf(),
        ensures
            self.spec_fields().len() <= u32::MAX,
            forall|i: int| 0 <= i < self.spec_fields().len()
                ==> (#[trigger] self.spec_fields()[i]).len() <= u32::MAX,
    {
        assert forall|i: int| 0 <= i < self.spec_fields().len()
            implies (#[trigger] self.spec_fields()[i]).len() <= u32::MAX by {
            assert(self.body.fields@[i].wf());
        }
    }

    /// The type tag of this message.
    pub fn mtype(&self) -> (r: MessageType)
        ensures
            r == self.spec_mtype(),
    {
        self.mtype
    }

    /// The number of fields of this message.
    pub fn field_count(&self) -> (r: u32)
        requires
            self.wf(),
        ensures
            r == self.spec_fields().len(),
    {
        self.body.count
    }

    /// The field payloads, cloned, in order.
    pub fn data(&self) -> (r: Vec<Vec<u8>>)
        ensures
            r@.map(|i: int, d: Vec<u8>| d@) == self.spec_fields(),
    {
        let mut out: Vec<Vec<u8>> = Vec::new();
        let mut i: usize = 0;
        while i < self.body.fields.len()
            invariant
                i <= self.body.fields@.len(),
                out@.len() == i,
                forall|j: int| 0 <= j < i ==> (#[trigger] out@[j])@ == self.spec_fields()[j],
            decreases self.body.fields@.len() - i,
        {
            out.push(copy_bytes(&self.body.fields[i].data));
            i = i + 1;
        }
        proof {
            assert(out@.map(|i: int, d: Vec<u8>| d@) =~= self.spec_fields());
        }
        out
    }

    /// The field payloads, borrowed, in order.
    pub fn data_ref(&self) -> (r: Vec<&[u8]>)
        ensures
            r@.map(|i: int, d: &[u8]| d@) == self.spec_fields(),
    {
        let mut out: Vec<&[u8]> = Vec::new();
        let mut i: usize = 0;
        while i < self.body.fields.len()
            invariant
                i <= self.body.fields@.len(),
                out@.len() == i,
                forall|j: int| 0 <= j < i ==> (#[trigger] out@[j])@ == self.spec_fields()[j],
            decreases self.body.fields@.len() - i,
        {
            out.push(self.body.fields[i].data.as_slice());
            i = i + 1;
        }
        proof {
            assert(out@.map(|i: int, d: &[u8]| d@) =~= self.spec_fields());
        }
        out
    }
}

impl MessageBuilder {
    /// The type tag set so far.
    pub closed spec fn spec_mtype(self) -> MessageType {
        self.mtype
    }

    /// The fields added so far.
    pub closed spec fn spec_fields(self) -> Seq<Seq<u8>> {
        fields_data(self.body.fields@)
    }

    /// The builder's internal count agrees with its fields.
    pub closed spec fn wf(self) -> bool {
        self.body.wf()
    }

    /// A fresh builder: type `Empty`, no fields.
    pub fn new() -> (r: MessageBuilder)
        ensures
            r.wf(),
            r.spec_mtype() == MessageType::Empty,
            r.spec_fields() == Seq::<Seq<u8>>::empty(),
    {
        MessageBuilder { mtype: MessageType::Empty, body: MessageBody::default() }
    }

    /// Set the message type, keeping the fields.
    pub fn with_type(self, mtype: MessageType) -> (r: MessageBuilder)
        ensures
            r.wf() == self.wf(),
            r.spec_mtype() == mtype,
            r.spec_fields() == self.spec_fields(),
    {
        MessageBuilder { mtype, body: self.body }
    }

    /// Append one field holding the given bytes.
    pub fn with_field(self, data: Vec<u8>) -> (r: MessageBuilder)
        requires
            self.wf(),
            data@.len() <= u32::MAX,
            self.spec_fields().len() < u32::MAX,
        ensures
            r.wf(),
            r.spec_mtype() == self.spec_mtype(),
            r.spec_fields() == self.spec_fields().push(data@),
    {
        let mut body = self.body;
        body.add_field(MessageField::new(data));
        MessageBuilder { mtype: self.mtype, body }
    }

    /// Append one field per entry of `fields`, in order.
    pub fn with_fields(self, fields: Vec<Vec<u8>>) -> (r: MessageBuilder)
        requires
            self.wf(),
            forall|i: int| 0 <= i < fields@.len() ==> (#[trigger] fields@[i])@.len() <= u32::MAX,
            self.spec_fields().len() + fields@.len() <= u32::MAX,
        ensures
            r.wf(),
            r.spec_mtype() == self.spec_mtype(),
            r.spec_fields() == self.spec_fields() + fields@.map(|i: int, d: Vec<u8>| d@),
    {
        let ghost orig = self;
        let mut body = self.body;
        let mut i: usize = 0;
        while i < fields.len()
            invariant
                i <= fields@.len(),
                body.wf(),
                forall|j: int| 0 <= j < fields@.len() ==> (#[trigger] fields@[j])@.len() <= u32::MAX,
                orig.spec_fields().len() + fields@.len() <= u32::MAX,
                fields_data(body.fields@) == orig.spec_fields() + fields@.map(|k: int, d: Vec<u8>| d@).take(i as int),
            decreases fields@.len() - i,
        {
            let data = copy_bytes(&fields[i]);
            proof {
                assert(fields_data(body.fields@).len() == orig.spec_fields().len() + i);
            }
            body.add_field(MessageField::new(data));
            proof {
                assert(fields_data(body.fields@) =~= orig.spec_fields() + fields@.map(|k: int, d: Vec<u8>| d@).take(i + 1));
            }
            i = i + 1;
        }
        proof {
            assert(fields@.map(|k: int, d: Vec<u8>| d@).take(fields@.len() as int) =~= fields@.map(
                |k: int, d: Vec<u8>| d@,
            ));
        }
        MessageBuilder { mtype: self.mtype, body }
    }

    /// Build the message assembled so far; the builder may be reused.
    pub fn build(&self) -> (r: Message)
        requires
            self.wf(),
        ensures
            r.wf(),
            r.spec_mtype() == self.spec_mtype(),
            r.spec_fields() == self.spec_fields(),
    {
        Message { mtype: self.mtype, body: self.body.duplicate() }
    }
}

/// The encoding of a sequence of fields: for each field its four-byte
/// little-endian length, then its data.
pub open spec fn spec_encode_fields(fs: Seq<Seq<u8>>) -> Seq<u8>
    decreases fs.len(),
{
    if fs.len() == 0 {
        Seq::<u8>::empty()
    } else {
        spec_u32_to_le_bytes(fs[0].len() as u32) + fs[0] + spec_encode_fields(fs.skip(1))
    }
}

/// The encoding of a whole message: magic header, type code, four-byte
/// little-endian field count, then the encoded fields.
pub open spec fn spec_encode(t: MessageType, fs: Seq<Seq<u8>>) -> Seq<u8> {
    magic() + seq![t.code()] + spec_u32_to_le_bytes(fs.len() as u32) + spec_encode_fields(fs)
}

/// Appending a field to a sequence appends its encoding.
proof fn lemma_encode_fields_push(fs: Seq<Seq<u8>>, f: Seq<u8>)
    ensures
        spec_encode_fields(fs.push(f)) == spec_encode_fields(fs) + spec_u32_to_le_bytes(
            f.len() as u32,
        ) + f,
    decreases fs.len(),
{
    let lf = spec_u32_to_le_bytes(f.len() as u32);
    let p = fs.push(f);
    if fs.len() == 0 {
        assert(p[0] == f);
        assert(p.skip(1) =~= Seq::<Seq<u8>>::empty());
        assert(spec_encode_fields(p) == spec_u32_to_le_bytes(p[0].len() as u32) + p[0]
            + spec_encode_fields(p.skip(1)));
        assert(spec_encode_fields(p) =~= spec_encode_fields(fs) + lf + f);
    } else {
        assert(p[0] == fs[0]);
        assert(p.skip(1) =~= fs.skip(1).push(f));
        lemma_encode_fields_push(fs.skip(1), f);
        assert(spec_encode_fields(p) == spec_u32_to_le_bytes(p[0].len() as u32) + p[0]
            + spec_encode_fields(p.skip(1)));
        assert(spec_encode_fields(fs) == spec_u32_to_le_bytes(fs[0].len() as u32) + fs[0]
            + spec_encode_fields(fs.skip(1)));
        assert(spec_encode_fields(p) =~= spec_encode_fields(fs) + lf + f);
    }
}

impl Message {
    /// Encode this message deterministically into bytes.
    pub fn encode(&self) -> (r: Vec<u8>)
        requires
            self.wf(),
        ensures
            r@ == spec_encode(self.spec_mtype(), self.spec_fields()),
    {
        let mut buf: Vec<u8> = Vec::new();
        buf.push(0x23u8);
        buf.push(0x3cu8);
        buf.push(0x21u8);
        buf.push(0x3eu8);
        buf.push(self.mtype.to_code());
        let mut cnt_bytes = u32_to_le_bytes(self.body.count);
        buf.append(&mut cnt_bytes);
        let ghost prefix = magic() + seq![self.spec_mtype().code()] + spec_u32_to_le_bytes(
            self.spec_fields().len() as u32,
        );
        proof {
            assert(buf@ =~= prefix);
        }
        let mut i: usize = 0;
        while i < self.body.fields.len()
            invariant
                self.wf(),
                i <= self.body.fields@.len(),
                buf@ == prefix + spec_encode_fields(self.spec_fields().take(i as int)),
            decreases self.body.fields@.len() - i,
        {
            let f = &self.body.fields[i];
            let ghost start = buf@;
            let mut len_bytes = u32_to_le_bytes(f.length);
            buf.append(&mut len_bytes);
            let mut j: usize = 0;
            while j < f.data.len()
                invariant
                    buf@ == start + spec_u32_to_le_bytes(f.length) + f.data@.take(j as int),
                    j <= f.data@.len(),
                decreases f.data@.len() - j,
            {
                buf.push(f.data[j]);
                proof {
                    assert(buf@ =~= start + spec_u32_to_le_bytes(f.length) + f.data@.take(j + 1));
                }
                j = j + 1;
            }
            proof {
                assert(f.data@.take(f.data@.len() as int) =~= f.data@);
                assert(self.body.fields@[i as int].wf());
                assert(f.data@ == self.spec_fields()[i as int]);
                lemma_encode_fields_push(
                    self.spec_fields().take(i as int),
                    self.spec_fields()[i as int],
                );
                assert(self.spec_fields().take(i + 1) =~= self.spec_fields().take(i as int).push(
                    self.spec_fields()[i as int],
                ));
                assert(buf@ =~= prefix + spec_encode_fields(self.spec_fields().take(i + 1)));
            }
            i = i + 1;
        }
        proof {
            assert(self.spec_fields().take(self.spec_fields().len() as int) =~= self.spec_fields());
        }
        buf
    }
}

impl Message {
    /// Whether the bytes at hand begin with the magic header: the
    /// readiness probe taken before committing to a full decode. Fewer
    /// than four bytes mean "no header yet", not an error.
    pub fn peek_for_header(bytes: &[u8]) -> (r: bool)
        ensures
            r == (bytes@.len() >= 4 && bytes@.subrange(0, 4) == magic()),
    {
        if bytes.len() < 4 {
            return false;
        }
        let r = *slice_index_get(bytes, 0) == 0x23 && *slice_index_get(bytes, 1) == 0x3c
            && *slice_index_get(bytes, 2) == 0x21 && *slice_index_get(bytes, 3) == 0x3e;
        proof {
            if r {
                assert(bytes@.subrange(0, 4) =~= magic());
            } else {
                if bytes@.subrange(0, 4) == magic() {
                    assert(bytes@.subrange(0, 4)[0] == bytes@[0]);
                    assert(bytes@.subrange(0, 4)[1] == bytes@[1]);
                    assert(bytes@.subrange(0, 4)[2] == bytes@[2]);
                    assert(bytes@.subrange(0, 4)[3] == bytes@[3]);
                    assert(false);
                }
            }
        }
        r
    }
}

/// The outcome of reading one message from the front of a byte sequence.
pub enum Decoded {
    /// A full message was read: its type, its fields, and the number of
    /// bytes it occupied.
    Msg { mtype: MessageType, fields: Seq<Seq<u8>>, used: int },
    /// The first four bytes did not match the magic header.
    BadHeader { header: Seq<u8> },
    /// The type code is outside the known set.
    BadType { code: u8 },
    /// The bytes end before the message does.
    Short,
}

/// Read `count` length-prefixed fields from the front of `bytes`: the
/// fields and the number of bytes they occupied, or `None` if the bytes
/// end too early.
pub open spec fn spec_decode_fields(bytes: Seq<u8>, count: int) -> Option<(Seq<Seq<u8>>, int)>
    decreases count,
{
    if count <= 0 {
        Some((Seq::<Seq<u8>>::empty(), 0))
    } else if bytes.len() < 4 {
        None
    } else {
        let flen = spec_u32_from_le_bytes(bytes.subrange(0, 4)) as int;
        if bytes.len() < 4 + flen {
            None
        } else {
            match spec_decode_fields(bytes.skip(4 + flen), count - 1) {
                None => None,
                Some(rest) => Some(
                    (seq![bytes.subrange(4, 4 + flen)] + rest.0, 4 + flen + rest.1),
                ),
            }
        }
    }
}

/// Read one message from the front of `bytes`.
pub open spec fn spec_decode(bytes: Seq<u8>) -> Decoded {
    if bytes.len() < 4 {
        Decoded::Short
    } else if bytes.subrange(0, 4) != magic() {
        Decoded::BadHeader { header: bytes.subrange(0, 4) }
    } else if bytes.len() < 5 {
        Decoded::Short
    } else {
        match MessageType::spec_from_code(bytes[4]) {
            None => Decoded::BadType { code: bytes[4] },
            Some(mtype) => if bytes.len() < 9 {
                Decoded::Short
            } else {
                let count = spec_u32_from_le_bytes(bytes.subrange(5, 9)) as int;
                match spec_decode_fields(bytes.skip(9), count) {
                    None => Decoded::Short,
                    Some(rest) => Decoded::Msg { mtype, fields: rest.0, used: 9 + rest.1 },
                }
            },
        }
    }
}

impl Message {
    /// Decode one message from the front of `bytes`.
    ///
    /// On success the message and the number of bytes it occupied are
    /// returned. A short input yields `ReadError`, a wrong header yields
    /// `InvalidMessage` carrying the four offending bytes, and an unknown
    /// type code yields `UnknownType`; no input makes this panic.
    pub fn decode(bytes: &[u8]) -> (r: Result<(Message, usize), MessageError>)
        ensures
            match r {
                Ok(p) => {
                    &&& p.0.wf()
                    &&& 0 < p.1 <= bytes@.len()
                    &&& spec_decode(bytes@) == (Decoded::Msg {
                        mtype: p.0.spec_mtype(),
                        fields: p.0.spec_fields(),
                        used: p.1 as int,
                    })
                },
                Err(e) => match e {
                    MessageError::ReadError => spec_decode(bytes@) == Decoded::Short,
                    MessageError::InvalidMessage(h) => spec_decode(bytes@) == (Decoded::BadHeader {
                        header: h@,
                    }),
                    MessageError::UnknownType(c) => spec_decode(bytes@) == (Decoded::BadType {
                        code: c,
                    }),
                    _ => false,
                },
            },
    {
        if bytes.len() < 4 {
            return Err(MessageError::ReadError);
        }
        let h0 = *slice_index_get(bytes, 0);
        let h1 = *slice_index_get(bytes, 1);
        let h2 = *slice_index_get(bytes, 2);
        let h3 = *slice_index_get(bytes, 3);
        if !(h0 == 0x23 && h1 == 0x3c && h2 == 0x21 && h3 == 0x3e) {
            let mut header: Vec<u8> = Vec::new();
            header.push(h0);
            header.push(h1);
            header.push(h2);
            header.push(h3);
            proof {
                assert(header@ =~= bytes@.subrange(0, 4));
                assert(bytes@.subrange(0, 4) != magic());
            }
            return Err(MessageError::InvalidMessage(header));
        }
        proof {
            assert(bytes@.subrange(0, 4) =~= magic());
        }
        if bytes.len() < 5 {
            return Err(MessageError::ReadError);
        }
        let code = *slice_index_get(bytes, 4);
        let mtype = match MessageType::from_code(code) {
            Some(mtype) => mtype,
            None => {
                return Err(MessageError::UnknownType(code));
            },
        };
        if bytes.len() < 9 {
            return Err(MessageError::ReadError);
        }
        let count = u32_from_le_bytes(slice_subrange(bytes, 5, 9));
        let ghost full = spec_decode_fields(bytes@.skip(9), count as int);
        proof {
            assert(spec_decode(bytes@) == (match full {
                None => Decoded::Short,
                Some(rest) => Decoded::Msg { mtype, fields: rest.0, used: 9 + rest.1 },
            }));
        }
        let mut fields: Vec<MessageField> = Vec::new();
        let mut pos: usize = 9;
        let mut k: u32 = 0;
        proof {
            match full {
                Some(rest) => {
                    assert(fields_data(fields@) + rest.0 =~= rest.0);
                },
                None => {},
            }
        }
        while k < count
            invariant
                9 <= pos <= bytes@.len(),
                k <= count,
                fields@.len() == k,
                forall|j: int| 0 <= j < fields@.len() ==> (#[trigger] fields@[j]).wf(),
                full == spec_decode_fields(bytes@.skip(9), count as int),
                spec_decode(bytes@) == (match full {
                    None => Decoded::Short,
                    Some(rest) => Decoded::Msg { mtype, fields: rest.0, used: 9 + rest.1 },
                }),
                match spec_decode_fields(bytes@.skip(pos as int), count - k) {
                    None => full is None,
                    Some(rest) => full == Some(
                        (fields_data(fields@) + rest.0, pos - 9 + rest.1),
                    ),
                },
            decreases count - k,
        {
            let ghost cur = bytes@.skip(pos as int);
            if bytes.len() - pos < 4 {
                return Err(MessageError::ReadError);
            }
            let flen = u32_from_le_bytes(slice_subrange(bytes, pos, pos + 4));
            proof {
                assert(bytes@.subrange(pos as int, pos + 4) =~= cur.subrange(0, 4));
            }
            let avail = bytes.len() - pos - 4;
            if (flen as usize) > avail {
                proof {
                    assert(cur.len() < 4 + flen);
                }
                return Err(MessageError::ReadError);
            }
            let data = slice_to_vec(slice_subrange(bytes, pos + 4, pos + 4 + flen as usize));
            proof {
                assert(data@ =~= cur.subrange(4, 4 + flen as int));
            }
            let ghost prev_fields = fields_data(fields@);
            fields.push(MessageField { length: flen, data });
            proof {
                assert(fields_data(fields@) =~= prev_fields.push(cur.subrange(4, 4 + flen as int)));
                assert(bytes@.skip(pos + 4 + flen as int) =~= cur.skip(4 + flen as int));
                match spec_decode_fields(bytes@.skip(pos + 4 + flen as int), count - k - 1) {
                    None => {
                        assert(spec_decode_fields(cur, count - k) is None);
                    },
                    Some(rest2) => {
                        assert(spec_decode_fields(cur, count - k) == Some(
                            (seq![cur.subrange(4, 4 + flen as int)] + rest2.0,
                            4 + flen as int + rest2.1),
                        ));
                        assert(prev_fields + (seq![cur.subrange(4, 4 + flen as int)] + rest2.0)
                            =~= fields_data(fields@) + rest2.0);
                    },
                }
            }
            pos = pos + 4 + flen as usize;
            k = k + 1;
        }
        proof {
            assert(spec_decode_fields(bytes@.skip(pos as int), 0) == Some(
                (Seq::<Seq<u8>>::empty(), 0int),
            ));
            match full {
                Some(rest) => {
                    assert(fields_data(fields@) + Seq::<Seq<u8>>::empty() =~= fields_data(
                        fields@,
                    ));
                },
                None => {},
            }
        }
        let message = Message { mtype, body: MessageBody { count, fields } };
        Ok((message, pos))
    }
}

/// Parsing the encoding of a field sequence yields the sequence back and
/// consumes every byte.
proof fn lemma_decode_fields_of_encode(fs: Seq<Seq<u8>>)
    requires
        forall|i: int| 0 <= i < fs.len() ==> (#[trigger] fs[i]).len() <= u32::MAX,
    ensures
        spec_decode_fields(spec_encode_fields(fs), fs.len() as int) == Some(
            (fs, spec_encode_fields(fs).len() as int),
        ),
    decreases fs.len(),
{
    lemma_auto_spec_u32_to_from_le_bytes();
    let enc = spec_encode_fields(fs);
    if fs.len() == 0 {
        assert(fs =~= Seq::<Seq<u8>>::empty());
    } else {
        let flen = fs[0].len() as int;
        let head = spec_u32_to_le_bytes(fs[0].len() as u32);
        let rest_enc = spec_encode_fields(fs.skip(1));
        assert(head.len() == 4);
        assert(enc == head + fs[0] + rest_enc);
        assert(enc.subrange(0, 4) =~= head);
        assert(spec_u32_from_le_bytes(enc.subrange(0, 4)) == fs[0].len() as u32);
        assert(enc.len() == 4 + flen + rest_enc.len());
        assert(enc.skip(4 + flen) =~= rest_enc);
        assert(forall|i: int| 0 <= i < fs.skip(1).len() ==> (#[trigger] fs.skip(1)[i]).len()
            <= u32::MAX);
        lemma_decode_fields_of_encode(fs.skip(1));
        assert(enc.subrange(4, 4 + flen) =~= fs[0]);
        assert(seq![fs[0]] + fs.skip(1) =~= fs);
    }
}

/// Round trip: decoding the encoding of any constructible message yields
/// the message back, whole, having read exactly the encoded bytes.
pub proof fn lemma_round_trip(mtype: MessageType, fields: Seq<Seq<u8>>)
    requires
        fields.len() <= u32::MAX,
        forall|i: int| 0 <= i < fields.len() ==> (#[trigger] fields[i]).len() <= u32::MAX,
    ensures
        spec_decode(spec_encode(mtype, fields)) == (Decoded::Msg {
            mtype,
            fields,
            used: spec_encode(mtype, fields).len() as int,
        }),
{
    lemma_auto_spec_u32_to_from_le_bytes();
    let enc = spec_encode(mtype, fields);
    let cnt = spec_u32_to_le_bytes(fields.len() as u32);
    let fenc = spec_encode_fields(fields);
    assert(cnt.len() == 4);
    assert(enc == magic() + seq![mtype.code()] + cnt + fenc);
    assert(enc.len() == 9 + fenc.len());
    assert(enc.subrange(0, 4) =~= magic());
    assert(enc[4] == mtype.code());
    mtype.lemma_code_round_trip();
    assert(enc.subrange(5, 9) =~= cnt);
    assert(spec_u32_from_le_bytes(enc.subrange(5, 9)) == fields.len() as u32);
    assert(enc.skip(9) =~= fenc);
    lemma_decode_fields_of_encode(fields);
}

/// Header rejection: any input whose first four bytes differ from the
/// magic constant decodes to `BadHeader` carrying those four bytes.
pub proof fn lemma_header_rejection(bytes: Seq<u8>)
    requires
        bytes.len() >= 4,
        bytes.subrange(0, 4) != magic(),
    ensures
        spec_decode(bytes) == (Decoded::BadHeader { header: bytes.subrange(0, 4) }),
{
}

/// Unknown type code: a valid header followed by a code outside the known
/// set decodes to `BadType` carrying that code.
pub proof fn lemma_unknown_type(bytes: Seq<u8>)
    requires
        bytes.len() >= 5,
        bytes.subrange(0, 4) == magic(),
        MessageType::spec_from_code(bytes[4]) is None,
    ensures
        spec_decode(bytes) == (Decoded::BadType { code: bytes[4] }),
{
}

/// Truncating an encoded field sequence anywhere before its end makes
/// field parsing fail.
proof fn lemma_truncate_fields(fs: Seq<Seq<u8>>, k: int)
    requires
        forall|i: int| 0 <= i < fs.len() ==> (#[trigger] fs[i]).len() <= u32::MAX,
        0 <= k < spec_encode_fields(fs).len(),
    ensures
        spec_decode_fields(spec_encode_fields(fs).take(k), fs.len() as int) is None,
    decreases fs.len(),
{
    lemma_auto_spec_u32_to_from_le_bytes();
    let enc = spec_encode_fields(fs);
    assert(fs.len() > 0);
    let flen = fs[0].len() as int;
    let head = spec_u32_to_le_bytes(fs[0].len() as u32);
    let rest_enc = spec_encode_fields(fs.skip(1));
    assert(head.len() == 4);
    assert(enc == head + fs[0] + rest_enc);
    assert(enc.len() == 4 + flen + rest_enc.len());
    let t = enc.take(k);
    assert(t.len() == k);
    if k < 4 {
    } else {
        assert(t.subrange(0, 4) =~= head);
        assert(spec_u32_from_le_bytes(t.subrange(0, 4)) == fs[0].len() as u32);
        if k < 4 + flen {
        } else {
            assert(t.skip(4 + flen) =~= rest_enc.take(k - 4 - flen));
            assert(forall|i: int| 0 <= i < fs.skip(1).len() ==> (#[trigger] fs.skip(1)[i]).len()
                <= u32::MAX);
            lemma_truncate_fields(fs.skip(1), k - 4 - flen);
        }
    }
}

/// Truncation: cutting the encoding of any constructible message at any
/// byte boundary before its end makes decoding report a short input,
/// never a successful decode.
pub proof fn lemma_truncation(mtype: MessageType, fields: Seq<Seq<u8>>, k: int)
    requires
        fields.len() <= u32::MAX,
        forall|i: int| 0 <= i < fields.len() ==> (#[trigger] fields[i]).len() <= u32::MAX,
        0 <= k < spec_encode(mtype, fields).len(),
    ensures
        spec_decode(spec_encode(mtype, fields).take(k)) == Decoded::Short,
{
    lemma_auto_spec_u32_to_from_le_bytes();
    let enc = spec_encode(mtype, fields);
    let cnt = spec_u32_to_le_bytes(fields.len() as u32);
    let fenc = spec_encode_fields(fields);
    assert(cnt.len() == 4);
    assert(enc == magic() + seq![mtype.code()] + cnt + fenc);
    assert(enc.len() == 9 + fenc.len());
    let t = enc.take(k);
    assert(t.len() == k);
    if k < 4 {
    } else {
        assert(t.subrange(0, 4) =~= magic());
        if k < 5 {
        } else {
            assert(t[4] == mtype.code());
            mtype.lemma_code_round_trip();
            if k < 9 {
            } else {
                assert(t.subrange(5, 9) =~= cnt);
                assert(spec_u32_from_le_bytes(t.subrange(5, 9)) == fields.len() as u32);
                assert(t.skip(9) =~= fenc.take(k - 9));
                assert(k - 9 < fenc.len());
                lemma_truncate_fields(fields, k - 9);
            }
        }
    }
}

} // verus!
