//! The PPPoE header that wraps every frame, and the payloads it can carry.

use std::borrow::Cow;
use vstd::prelude::*;
use vstd::slice::{slice_subrange, slice_to_vec};

verus! {

/// Number of bytes in the fixed PPPoE header.
pub const HEADER_LEN: usize = 6;

/// Largest Ethernet payload, header included.
pub const MAX_FRAME_LEN: usize = 1500;

/// The value of two bytes read as a big-endian number.
pub open spec fn be16(hi: u8, lo: u8) -> u16 {
    (hi as int * 256 + lo as int) as u16
}

/// The two bytes of `v`, most significant first.
pub open spec fn be16_bytes(v: u16) -> Seq<u8> {
    seq![(v / 256) as u8, (v % 256) as u8]
}

/// Reading the bytes of a number gives the number back.
pub proof fn lemma_be16_of_bytes(v: u16)
    ensures
        be16_bytes(v).len() == 2,
        be16(be16_bytes(v)[0], be16_bytes(v)[1]) == v,
{
}

/// Writing the number that two bytes spell gives the two bytes back.
pub proof fn lemma_bytes_of_be16(hi: u8, lo: u8)
    ensures
        be16_bytes(be16(hi, lo)) == seq![hi, lo],
{
    assert(be16_bytes(be16(hi, lo)) =~= seq![hi, lo]);
}

/// Reads a big-endian number from two bytes.
pub fn read_be16(hi: u8, lo: u8) -> (v: u16)
    ensures
        v == be16(hi, lo),
{
    let h: u16 = hi as u16;
    let l: u16 = lo as u16;
    h * 256 + l
}

/// Appends the two bytes of `v`, most significant first.
pub fn write_be16(buf: &mut Vec<u8>, v: u16)
    ensures
        final(buf)@ == old(buf)@ + be16_bytes(v),
{
    buf.push((v / 256) as u8);
    buf.push((v % 256) as u8);
    assert(buf@ =~= old(buf)@ + be16_bytes(v));
}

/// Appends `bytes` to `buf`.
pub fn write_bytes(buf: &mut Vec<u8>, bytes: &[u8])
    ensures
        final(buf)@ == old(buf)@ + bytes@,
{
    let mut i: usize = 0;
    while i < bytes.len()
        invariant
            i <= bytes.len(),
            buf@ == old(buf)@ + bytes@.take(i as int),
        decreases bytes.len() - i,
    {
        buf.push(bytes[i]);
        i += 1;
        assert(buf@ =~= old(buf)@ + bytes@.take(i as int));
    }
    assert(bytes@.take(i as int) =~= bytes@);
}

/// What a frame holds, with the payload as `P` has it.
pub ghost struct Frame<P> {
    pub code: u8,
    pub session_id: u16,
    pub payload: P,
}

impl<T> Frame<T> {
    /// The same frame with the payload as its mathematical value.
    pub open spec fn model<'a>(self) -> Frame<<T as Payload<'a>>::Model> where T: Payload<'a> {
        Frame { code: self.code, session_id: self.session_id, payload: self.payload.model() }
    }
}

/// The six header bytes of a frame whose payload takes `len` bytes.
pub open spec fn encode_header(code: u8, session_id: u16, len: u16) -> Seq<u8> {
    seq![0x11u8, code] + be16_bytes(session_id) + be16_bytes(len)
}

/// Whether a frame is small enough to be written.
pub open spec fn frame_fits<'a, T: Payload<'a>>(f: Frame<T::Model>) -> bool {
    HEADER_LEN + T::encode(f.payload).len() <= MAX_FRAME_LEN
}

/// The bytes of a frame: the header, with the length of the payload in its
/// last two bytes, and then the payload.
pub open spec fn encode_frame<'a, T: Payload<'a>>(f: Frame<T::Model>) -> Seq<u8> {
    let body = T::encode(f.payload);
    encode_header(f.code, f.session_id, body.len() as u16) + body
}

/// The length that the header of `data` declares for the payload.
pub open spec fn declared_len(data: Seq<u8>) -> int
    recommends
        data.len() >= HEADER_LEN,
{
    be16(data[4], data[5]) as int
}

/// The frame that `data` begins with, if it begins with one: a header of
/// version 1 and type 1, and a payload of the declared length that `T` can
/// read. Bytes behind the declared length are not looked at.
pub open spec fn decode_frame<'a, T: Payload<'a>>(data: Seq<u8>) -> Option<Frame<T::Model>> {
    if data.len() < HEADER_LEN || data[0] != 0x11 || data.len() - HEADER_LEN < declared_len(data) {
        None
    } else {
        match T::decode(data.subrange(HEADER_LEN as int, HEADER_LEN + declared_len(data))) {
            Some(payload) => Some(
                Frame { code: data[1], session_id: be16(data[2], data[3]), payload },
            ),
            None => None,
        }
    }
}

/// Round trip: a frame that fits, written and read again, is the same frame.
pub proof fn lemma_frame_round_trip<'a, T: Payload<'a>>(f: Frame<T::Model>)
    requires
        frame_fits::<T>(f),
    ensures
        decode_frame::<T>(encode_frame::<T>(f)) == Some(f),
{
    let body = T::encode(f.payload);
    let data = encode_frame::<T>(f);
    T::lemma_fitting_is_encodable(f.payload);
    T::lemma_decode_encode(f.payload);
    lemma_be16_of_bytes(f.session_id);
    lemma_be16_of_bytes(body.len() as u16);
    assert(data.subrange(HEADER_LEN as int, HEADER_LEN + declared_len(data)) =~= body);
}

/// The length that an accepted frame declares is the number of payload bytes
/// that were read, and the header with those bytes is the frame written anew.
pub proof fn lemma_declared_length_exact<'a, T: Payload<'a>>(data: Seq<u8>)
    requires
        decode_frame::<T>(data) is Some,
    ensures
        HEADER_LEN + declared_len(data) <= data.len(),
        declared_len(data) == T::encode(decode_frame::<T>(data)->Some_0.payload).len(),
        encode_frame::<T>(decode_frame::<T>(data)->Some_0) == data.subrange(
            0,
            HEADER_LEN + declared_len(data),
        ),
{
    let body = data.subrange(HEADER_LEN as int, HEADER_LEN + declared_len(data));
    let f = decode_frame::<T>(data)->Some_0;
    T::lemma_encode_decode(body);
    lemma_bytes_of_be16(data[2], data[3]);
    lemma_bytes_of_be16(data[4], data[5]);
    assert(encode_frame::<T>(f) =~= data.subrange(0, HEADER_LEN + declared_len(data)));
}

/// A frame that declares more payload than it has is rejected, whatever it holds.
pub proof fn lemma_overlong_length_rejected<'a, T: Payload<'a>>(data: Seq<u8>)
    requires
        data.len() < HEADER_LEN || declared_len(data) > data.len() - HEADER_LEN,
    ensures
        decode_frame::<T>(data) is None,
{
}

/// Ethernet payload for a PPPoE packet: the header fields and what follows them.
pub struct EthernetPayload<T> {
    code: u8,
    session_id: u16,
    payload: T,
}

impl<T> View for EthernetPayload<T> {
    type V = Frame<T>;

    closed spec fn view(&self) -> Frame<T> {
        Frame { code: self.code, session_id: self.session_id, payload: self.payload }
    }
}

impl<T> EthernetPayload<T> {
    /// A frame with the given code, session id and payload.
    pub fn new(code: u8, session_id: u16, payload: T) -> (r: Self)
        ensures
            r@ == (Frame { code, session_id, payload }),
    {
        Self { code, session_id, payload }
    }

    /// Reads the frame that `data` begins with.
    pub fn deserialize<'a>(data: &'a [u8]) -> (r: Option<Self>) where T: Payload<'a>
        ensures
            match r {
                Some(p) => decode_frame::<T>(data@) == Some(p@.model()),
                None => decode_frame::<T>(data@) is None,
            },
    {
        // Check minimum Ethernet payload length.
        if data.len() < HEADER_LEN {
            return None;
        }
        // Check version and type.
        let first: u8 = data[0];
        let ver: u8 = first & 0xf;
        let ty: u8 = first >> 4;
        assert((first & 0xf == 1 && first >> 4 == 1) <==> first == 0x11) by (bit_vector);
        if ver != 1 || ty != 1 {
            return None;
        }
        // Read CODE, SESSION_ID, LENGTH and payload.
        let code: u8 = data[1];
        let session_id: u16 = read_be16(data[2], data[3]);
        let length: usize = read_be16(data[4], data[5]) as usize;
        if data.len() - HEADER_LEN < length {
            return None;
        }
        let body = slice_subrange(data, HEADER_LEN, HEADER_LEN + length);
        match T::deserialize(body) {
            Some(payload) => Some(Self { code, session_id, payload }),
            None => None,
        }
    }

    /// The message code.
    pub fn code(&self) -> (r: u8)
        ensures
            r == self@.code,
    {
        self.code
    }

    /// The session id: zero until a session is established.
    pub fn session_id(&self) -> (r: u16)
        ensures
            r == self@.session_id,
    {
        self.session_id
    }

    /// The payload.
    pub fn payload(&self) -> (r: &T)
        ensures
            *r == self@.payload,
    {
        &self.payload
    }

    /// The payload, to be changed in place; code and session id stay.
    pub fn payload_mut(&mut self) -> (r: &mut T)
        ensures
            *r == old(self)@.payload,
            final(self)@ == (Frame {
                code: old(self)@.code,
                session_id: old(self)@.session_id,
                payload: *final(r),
            }),
    {
        &mut self.payload
    }

    /// Whether this frame is small enough to be written.
    pub fn fits<'a>(&self) -> (r: bool) where T: Payload<'a>
        ensures
            r == frame_fits::<T>(self@.model()),
    {
        self.payload.fits_in(MAX_FRAME_LEN - HEADER_LEN)
    }

    /// The bytes of this frame.
    pub fn serialize<'a>(&self) -> (buf: Vec<u8>) where T: Payload<'a>
        requires
            frame_fits::<T>(self@.model()),
        ensures
            buf@ == encode_frame::<T>(self@.model()),
    {
        let mut buf: Vec<u8> = Vec::new();
        // Write VER, TYPE and CODE.
        buf.push(0x11);
        buf.push(self.code);
        // Write SESSION_ID and a placeholder for LENGTH.
        write_be16(&mut buf, self.session_id);
        write_be16(&mut buf, 0);
        proof {
            T::lemma_fitting_is_encodable(self.payload.model());
        }
        self.payload.serialize(&mut buf);
        // Write LENGTH.
        let len: u16 = (buf.len() - HEADER_LEN) as u16;
        buf.set(4, (len / 256) as u8);
        buf.set(5, (len % 256) as u8);
        assert(buf@ =~= encode_frame::<T>(self@.model()));
        buf
    }
}

/// A payload that a PPPoE frame can carry: something that can be read from and
/// written as a run of bytes.
pub trait Payload<'a>: Sized {
    /// What a payload stands for in contracts.
    type Model;

    /// The mathematical value of this payload.
    spec fn model(&self) -> Self::Model;

    /// Whether a value can be written at all.
    spec fn encodable(m: Self::Model) -> bool;

    /// The bytes that a value is written as.
    spec fn encode(m: Self::Model) -> Seq<u8>;

    /// The value that a run of bytes spells, if it spells one.
    spec fn decode(data: Seq<u8>) -> Option<Self::Model>;

    /// Reading what was written gives the value back.
    proof fn lemma_decode_encode(m: Self::Model)
        requires
            Self::encodable(m),
        ensures
            Self::decode(Self::encode(m)) == Some(m),
    ;

    /// What was read can be written, and gives the same bytes again.
    proof fn lemma_encode_decode(data: Seq<u8>)
        requires
            Self::decode(data) is Some,
        ensures
            Self::encodable(Self::decode(data)->Some_0),
            Self::encode(Self::decode(data)->Some_0) == data,
    ;

    /// A value whose bytes fit into one frame can be written.
    proof fn lemma_fitting_is_encodable(m: Self::Model)
        requires
            Self::encode(m).len() <= MAX_FRAME_LEN - HEADER_LEN,
        ensures
            Self::encodable(m),
    ;

    /// Whether the bytes of this payload are at most `limit`.
    fn fits_in(&self, limit: usize) -> (r: bool)
        ensures
            r == (Self::encode(self.model()).len() <= limit),
    ;

    /// Reads a payload that takes up the whole of `data`.
    fn deserialize(data: &'a [u8]) -> (r: Option<Self>)
        ensures
            match r {
                Some(p) => Self::decode(data@) == Some(p.model()),
                None => Self::decode(data@) is None,
            },
    ;

    /// Appends the bytes of this payload to `buf`.
    fn serialize(&self, buf: &mut Vec<u8>)
        requires
            Self::encodable(self.model()),
        ensures
            final(buf)@ == old(buf)@ + Self::encode(self.model()),
    ;
}

/// The bytes that `v` holds, borrowed or owned.
pub fn cow_bytes<'b>(v: &'b Cow<'_, [u8]>) -> (r: &'b [u8])
    ensures
        r@ == v@,
{
    match v {
        Cow::Borrowed(b) => *b,
        Cow::Owned(o) => o.as_slice(),
    }
}

/// A copy of `v` that lives as long as what `v` borrows; borrowed bytes stay
/// borrowed.
pub fn cow_clone<'a>(v: &Cow<'a, [u8]>) -> (r: Cow<'a, [u8]>)
    ensures
        r@ == v@,
{
    match v {
        Cow::Borrowed(b) => Cow::Borrowed(*b),
        Cow::Owned(o) => Cow::Owned(slice_to_vec(o.as_slice())),
    }
}

/// An opaque payload, as a session-stage frame carries it: the bytes themselves.
impl<'a> Payload<'a> for Cow<'a, [u8]> {
    type Model = Seq<u8>;

    open spec fn model(&self) -> Seq<u8> {
        self@
    }

    open spec fn encodable(m: Seq<u8>) -> bool {
        true
    }

    open spec fn encode(m: Seq<u8>) -> Seq<u8> {
        m
    }

    open spec fn decode(data: Seq<u8>) -> Option<Seq<u8>> {
        Some(data)
    }

    proof fn lemma_decode_encode(m: Seq<u8>) {
    }

    proof fn lemma_encode_decode(data: Seq<u8>) {
    }

    proof fn lemma_fitting_is_encodable(m: Seq<u8>) {
    }

    fn fits_in(&self, limit: usize) -> (r: bool) {
        cow_bytes(self).len() <= limit
    }

    fn deserialize(data: &'a [u8]) -> (r: Option<Self>) {
        Some(Cow::Borrowed(data))
    }

    fn serialize(&self, buf: &mut Vec<u8>) {
        write_bytes(buf, cow_bytes(self));
    }
}

} // verus!
