//! Type-tagged message envelopes.
//!
//! An [`Envelope`] carries one message of an arbitrary message type as a pair
//! of a type tag and the message's encoded bytes. Any type that implements
//! [`Message`] can flow through the runtime; the tag identifies the payload's
//! type, and equality of tags must imply equality of the concrete type (each
//! implementation picks its own tag; the runtime reserves tags below `0x100`
//! for its own message types).
//!
//! Payloads whose encoding fits two machine words are stored inline in a
//! fixed buffer instead of on the heap. The choice is invisible to
//! [`Envelope::unpack`]: both representations present the same byte string.

use vstd::bytes::*;
use vstd::prelude::*;
use vstd::slice::slice_to_vec;
use vstd::utf8::*;

verus! {

/// One message type that can ride in an envelope.
///
/// A type describes itself by a tag, an encoding of its abstract value
/// (its view) into bytes, and a decoding that inverts the encoding. The
/// inversion is a proof obligation on every implementation, so an envelope
/// packed at a type always unpacks at that type to the packed value.
pub trait Message: Sized + View {
    /// The tag that identifies this payload type. Distinct message types
    /// must pick distinct tags.
    spec fn tag_spec() -> u64;

    /// The encoding of one abstract value as bytes.
    spec fn enc_spec(v: Self::V) -> Seq<u8>;

    /// The decoding of bytes back to an abstract value. Byte strings that no
    /// value of this type encodes to may decode to `None`.
    spec fn dec_spec(b: Seq<u8>) -> Option<Self::V>;

    /// Decoding inverts encoding.
    proof fn lemma_round_trip(v: Self::V)
        ensures
            Self::dec_spec(Self::enc_spec(v)) == Some(v),
    ;

    /// The tag, as a runtime value.
    fn tag() -> (t: u64)
        ensures
            t == Self::tag_spec(),
    ;

    /// Encode one value.
    fn encode(self) -> (r: Vec<u8>)
        ensures
            r@ == Self::enc_spec(self@),
    ;

    /// Decode bytes; `None` exactly where the spec-level decoding fails.
    fn decode(data: &[u8]) -> (r: Option<Self>)
        ensures
            match r {
                Some(v) => Self::dec_spec(data@) == Some(v@),
                None => Self::dec_spec(data@) is None,
            },
    ;
}

/// Payload encodings of at most this many bytes are stored inline in the
/// envelope, two machine words' worth; longer ones go to the heap.
pub const INLINE_CAPACITY: usize = 16;

/// Whether a payload encoding of `len` bytes is stored inline.
pub fn is_inline(len: usize) -> (b: bool)
    ensures
        b == (len <= INLINE_CAPACITY),
{
    len <= INLINE_CAPACITY
}

#[derive(Debug)]
enum Payload {
    Inline { len: usize, buf: [u8; 16] },
    Heap(Vec<u8>),
}

/// A type-tagged container carrying one encoded message.
#[derive(Debug)]
pub struct Envelope {
    tag: u64,
    data: Payload,
}

impl Envelope {
    /// The tag of the packed payload's type.
    pub closed spec fn tag_of(self) -> u64 {
        self.tag
    }

    /// The packed payload's encoded bytes.
    pub closed spec fn bytes(self) -> Seq<u8> {
        match self.data {
            Payload::Inline { len, buf } => buf@.take(len as int),
            Payload::Heap(v) => v@,
        }
    }

    /// An inline payload fits the inline buffer.
    pub closed spec fn wf(self) -> bool {
        match self.data {
            Payload::Inline { len, buf } => len <= 16,
            Payload::Heap(v) => true,
        }
    }

    /// The tag of the packed payload's type, as a runtime value.
    pub fn type_tag(&self) -> (t: u64)
        ensures
            t == self.tag_of(),
    {
        self.tag
    }

    /// Pack one value: the envelope records the tag of the value's type and
    /// owns the value's encoding.
    pub fn pack<T: Message>(value: T) -> (e: Envelope)
        ensures
            e.wf(),
            e.tag_of() == T::tag_spec(),
            e.bytes() == T::enc_spec(value@),
    {
        let tag = T::tag();
        let bytes = value.encode();
        if is_inline(bytes.len()) {
            let len = bytes.len();
            let mut buf = [0u8; 16];
            let mut i: usize = 0;
            while i < len
                invariant
                    i <= len,
                    len <= 16,
                    len == bytes@.len(),
                    buf@.len() == 16,
                    forall|j: int| 0 <= j < i ==> buf@[j] == bytes@[j],
                decreases len - i,
            {
                buf[i] = bytes[i];
                i = i + 1;
            }
            proof {
                assert(buf@.take(len as int) =~= bytes@);
            }
            Envelope { tag, data: Payload::Inline { len, buf } }
        } else {
            Envelope { tag, data: Payload::Heap(bytes) }
        }
    }

    /// Unpack the payload at type `T`: yields the packed value when the
    /// envelope's tag is `T`'s tag, and gives the envelope back unconsumed
    /// when the tag belongs to another type (or the bytes do not decode,
    /// which cannot happen to an envelope packed at `T`).
    pub fn unpack<T: Message>(self) -> (r: Result<T, Envelope>)
        requires
            self.wf(),
        ensures
            match r {
                Result::Ok(v) => self.tag_of() == T::tag_spec() && T::dec_spec(self.bytes())
                    == Some(v@),
                Result::Err(e) => e == self && (self.tag_of() != T::tag_spec() || T::dec_spec(
                    self.bytes(),
                ) is None),
            },
    {
        if self.tag != T::tag() {
            return Result::Err(self);
        }
        let decoded = match &self.data {
            Payload::Inline { len, buf } => {
                let s = buf.as_slice();
                T::decode(slice_range(s, 0, *len))
            },
            Payload::Heap(v) => T::decode(v.as_slice()),
        };
        match decoded {
            Some(v) => Result::Ok(v),
            None => Result::Err(self),
        }
    }
}

/// The wire form of an envelope: the tag in eight little-endian bytes, the
/// payload length in four, then the payload itself.
pub open spec fn spec_frame(tag: u64, bytes: Seq<u8>) -> Seq<u8> {
    spec_u64_to_le_bytes(tag) + spec_u32_to_le_bytes(bytes.len() as u32) + bytes
}

impl Envelope {
    /// How many bytes the packed payload's encoding holds.
    pub fn payload_len(&self) -> (n: usize)
        requires
            self.wf(),
        ensures
            n == self.bytes().len(),
    {
        match &self.data {
            Payload::Inline { len, buf } => *len,
            Payload::Heap(v) => v.len(),
        }
    }

    /// A copy of the packed payload's encoding.
    fn payload_to_vec(&self) -> (r: Vec<u8>)
        requires
            self.wf(),
        ensures
            r@ == self.bytes(),
    {
        match &self.data {
            Payload::Inline { len, buf } => {
                let s = buf.as_slice();
                slice_to_vec(slice_range(s, 0, *len))
            },
            Payload::Heap(v) => slice_to_vec(v.as_slice()),
        }
    }

    /// Encode the envelope for the wire: tag, payload length, payload.
    pub fn encode_frame(&self) -> (r: Vec<u8>)
        requires
            self.wf(),
            self.bytes().len() <= 0xFFFF_FFFF,
        ensures
            r@ == spec_frame(self.tag_of(), self.bytes()),
    {
        let mut r = u64_to_le_bytes(self.tag);
        let mut len_bytes = u32_to_le_bytes(self.payload_len() as u32);
        let mut payload = self.payload_to_vec();
        r.append(&mut len_bytes);
        r.append(&mut payload);
        r
    }

    /// Decode one frame from the front of `data`: the envelope it carries and
    /// how many bytes it spanned; `None` when `data` is too short for the
    /// header or for the payload length the header announces.
    pub fn decode_frame(data: &[u8]) -> (r: Option<(Envelope, usize)>)
        ensures
            match r {
                Some((e, n)) => {
                    &&& data@.len() >= 12
                    &&& e.wf()
                    &&& e.tag_of() == spec_u64_from_le_bytes(data@.subrange(0, 8))
                    &&& n == 12 + spec_u32_from_le_bytes(data@.subrange(8, 12))
                    &&& n <= data@.len()
                    &&& e.bytes() == data@.subrange(12, n as int)
                },
                None => data@.len() < 12 || data@.len() < 12 + spec_u32_from_le_bytes(
                    data@.subrange(8, 12),
                ),
            },
    {
        if data.len() < 12 {
            return None;
        }
        let tag = u64_from_le_bytes(slice_range(data, 0, 8));
        let len = u32_from_le_bytes(slice_range(data, 8, 12)) as usize;
        if data.len() - 12 < len {
            return None;
        }
        let payload = slice_to_vec(slice_range(data, 12, 12 + len));
        Some((Envelope { tag, data: Payload::Heap(payload) }, 12 + len))
    }
}

/// The decimal digits of `n`, most significant first.
pub open spec fn spec_digits(n: u64) -> Seq<char>
    decreases n,
{
    if n < 10 {
        seq![digit_char(n as int)]
    } else {
        spec_digits((n / 10) as u64) + seq![digit_char((n % 10) as int)]
    }
}

/// The character for one decimal digit.
pub open spec fn digit_char(d: int) -> char {
    if d == 0 {
        '0'
    } else if d == 1 {
        '1'
    } else if d == 2 {
        '2'
    } else if d == 3 {
        '3'
    } else if d == 4 {
        '4'
    } else if d == 5 {
        '5'
    } else if d == 6 {
        '6'
    } else if d == 7 {
        '7'
    } else if d == 8 {
        '8'
    } else {
        '9'
    }
}

/// One decimal digit as text.
fn digit_str(d: u64) -> (r: &'static str)
    requires
        d < 10,
    ensures
        r@ == seq![digit_char(d as int)],
{
    proof {
        reveal_strlit("0");
        reveal_strlit("1");
        reveal_strlit("2");
        reveal_strlit("3");
        reveal_strlit("4");
        reveal_strlit("5");
        reveal_strlit("6");
        reveal_strlit("7");
        reveal_strlit("8");
        reveal_strlit("9");
    }
    if d == 0 {
        "0"
    } else if d == 1 {
        "1"
    } else if d == 2 {
        "2"
    } else if d == 3 {
        "3"
    } else if d == 4 {
        "4"
    } else if d == 5 {
        "5"
    } else if d == 6 {
        "6"
    } else if d == 7 {
        "7"
    } else if d == 8 {
        "8"
    } else {
        "9"
    }
}

/// Append `n`'s decimal digits to `s`.
fn push_digits(s: &mut String, n: u64)
    ensures
        final(s)@ == old(s)@ + spec_digits(n),
    decreases n,
{
    if n >= 10 {
        push_digits(s, n / 10);
    }
    s.append(digit_str(n % 10));
}

impl Envelope {
    /// A human-readable account of the envelope: the payload type's tag and
    /// the encoding's length, in decimal.
    pub fn describe(&self) -> (r: String)
        requires
            self.wf(),
        ensures
            r@ == "envelope tag="@ + spec_digits(self.tag_of()) + " len="@ + spec_digits(
                self.bytes().len() as u64,
            ),
    {
        let mut r = String::new();
        r.append("envelope tag=");
        push_digits(&mut r, self.tag);
        r.append(" len=");
        push_digits(&mut r, self.payload_len() as u64);
        r
    }
}

/// Framing round trip: an encoded frame, however many bytes follow it,
/// decodes to the tag and payload it was encoded from, spanning exactly the
/// frame's own bytes.
pub proof fn lemma_frame_round_trip(tag: u64, bytes: Seq<u8>, rest: Seq<u8>)
    requires
        bytes.len() <= 0xFFFF_FFFF,
    ensures
        ({
            let data = spec_frame(tag, bytes) + rest;
            &&& data.len() == 12 + bytes.len() + rest.len()
            &&& spec_u64_from_le_bytes(data.subrange(0, 8)) == tag
            &&& spec_u32_from_le_bytes(data.subrange(8, 12)) == bytes.len()
            &&& data.subrange(12, 12 + bytes.len() as int) == bytes
        }),
{
    lemma_auto_spec_u64_to_from_le_bytes();
    lemma_auto_spec_u32_to_from_le_bytes();
    let data = spec_frame(tag, bytes) + rest;
    assert(data.subrange(0, 8) =~= spec_u64_to_le_bytes(tag));
    assert(data.subrange(8, 12) =~= spec_u32_to_le_bytes(bytes.len() as u32));
    assert(data.subrange(12, 12 + bytes.len() as int) =~= bytes);
}

/// The prefix `s[from..to]` of a byte slice.
fn slice_range<'a>(s: &'a [u8], from: usize, to: usize) -> (r: &'a [u8])
    requires
        from <= to <= s@.len(),
    ensures
        r@ == s@.subrange(from as int, to as int),
{
    &s[from..to]
}

impl Message for u32 {
    open spec fn tag_spec() -> u64 {
        0x10
    }

    open spec fn enc_spec(v: u32) -> Seq<u8> {
        spec_u32_to_le_bytes(v)
    }

    open spec fn dec_spec(b: Seq<u8>) -> Option<u32> {
        if b.len() == 4 {
            Some(spec_u32_from_le_bytes(b))
        } else {
            None
        }
    }

    proof fn lemma_round_trip(v: u32) {
        lemma_auto_spec_u32_to_from_le_bytes();
    }

    fn tag() -> u64 {
        0x10
    }

    fn encode(self) -> Vec<u8> {
        u32_to_le_bytes(self)
    }

    fn decode(data: &[u8]) -> Option<u32> {
        if data.len() == 4 {
            Some(u32_from_le_bytes(data))
        } else {
            None
        }
    }
}

impl Message for u64 {
    open spec fn tag_spec() -> u64 {
        0x11
    }

    open spec fn enc_spec(v: u64) -> Seq<u8> {
        spec_u64_to_le_bytes(v)
    }

    open spec fn dec_spec(b: Seq<u8>) -> Option<u64> {
        if b.len() == 8 {
            Some(spec_u64_from_le_bytes(b))
        } else {
            None
        }
    }

    proof fn lemma_round_trip(v: u64) {
        lemma_auto_spec_u64_to_from_le_bytes();
    }

    fn tag() -> u64 {
        0x11
    }

    fn encode(self) -> Vec<u8> {
        u64_to_le_bytes(self)
    }

    fn decode(data: &[u8]) -> Option<u64> {
        if data.len() == 8 {
            Some(u64_from_le_bytes(data))
        } else {
            None
        }
    }
}

/// Relies on `String::from_utf8`: it accepts exactly the byte strings that
/// are valid UTF-8 and decodes them to the character sequence they encode.
#[verifier::external_body]
fn string_from_utf8(bytes: Vec<u8>) -> (r: Option<String>)
    ensures
        r is Some <==> valid_utf8(bytes@),
        r matches Some(s) ==> s@ == decode_utf8(bytes@),
{
    String::from_utf8(bytes).ok()
}

impl Message for String {
    open spec fn tag_spec() -> u64 {
        0x12
    }

    open spec fn enc_spec(v: Seq<char>) -> Seq<u8> {
        encode_utf8(v)
    }

    open spec fn dec_spec(b: Seq<u8>) -> Option<Seq<char>> {
        if valid_utf8(b) {
            Some(decode_utf8(b))
        } else {
            None
        }
    }

    proof fn lemma_round_trip(v: Seq<char>) {
        encode_utf8_valid_utf8(v);
        encode_utf8_decode_utf8(v);
    }

    fn tag() -> u64 {
        0x12
    }

    fn encode(self) -> Vec<u8> {
        slice_to_vec(self.as_str().as_bytes())
    }

    fn decode(data: &[u8]) -> Option<String> {
        string_from_utf8(slice_to_vec(data))
    }
}

/// Packing a value of type `T` and unpacking at `T` yields the value back:
/// at the specification level, `T`'s decoding inverts its encoding, so
/// `unpack`'s contract forces the packed value out again. Unpacking at a
/// type whose tag differs fails by `unpack`'s contract alone.
pub proof fn lemma_pack_unpack<T: Message>(v: T::V)
    ensures
        T::dec_spec(T::enc_spec(v)) == Some(v),
{
    T::lemma_round_trip(v);
}

} // verus!
