//! OSC messages: an address, one type tag and a payload, with 4-byte aligned framing.

use vstd::prelude::*;
use vstd::utf8::*;
use crate::text::{lemma_encode_without_nul, no_nul};
use crate::bytes::{copy_range, find_zero, has_terminator, lemma_terminator_unique, terminates_at, terminator};

verus! {

/// `v` rounded up to the nearest multiple of `q`.
pub open spec fn round_up(v: int, q: int) -> int {
    if v % q == 0 {
        v
    } else {
        v + q - v % q
    }
}

/// Rounds `*value` up to the smallest multiple of `quant` that is not below it.
pub fn quantize(value: &mut usize, quant: usize)
    requires
        quant > 0,
        round_up(*old(value) as int, quant as int) <= usize::MAX,
    ensures
        *final(value) == round_up(*old(value) as int, quant as int),
        *final(value) % quant == 0,
        *old(value) <= *final(value) < *old(value) + quant,
{
    let r = *value % quant;
    if r != 0 {
        *value = *value + (quant - r);
    }
    proof {
        let v = *old(value) as int;
        let q = quant as int;
        assert(round_up(v, q) % q == 0) by (nonlinear_arith)
            requires q > 0, round_up(v, q) == if v % q == 0 { v } else { v + q - v % q };
    }
}

/// Why a buffer is not an OSC message.
#[derive(Clone, Copy, Debug, PartialEq, Eq, Structural)]
pub enum OscError {
    /// A field runs past the end of the buffer (no zero after the address, or no full tag block).
    TruncatedMessage,
    /// The address bytes are not well-formed UTF-8.
    MalformedAddress,
    /// The address does not start with `/`.
    InvalidAddress,
    /// The byte where the type-tag block starts is not a comma.
    MissingTypeTag,
}

/// One OSC message: an address, a single type tag and the bytes that follow the tag block.
pub struct OscMessage {
    pub address: String,
    pub type_tag: char,
    pub data: Vec<u8>,
}

impl View for OscMessage {
    type V = (Seq<char>, char, Seq<u8>);

    open spec fn view(&self) -> Self::V {
        (self.address@, self.type_tag, self.data@)
    }
}

/// The byte `,` that opens a type-tag block.
pub const COMMA: u8 = 0x2C;

/// The byte `/` that every address starts with.
pub const SLASH: u8 = 0x2F;

/// What parsing `b` as an OSC message gives, as (address, type tag, payload).
///
/// The address runs up to the first zero byte and must be UTF-8 text starting with `/` (for
/// UTF-8 text, exactly when its first byte is `/`). The tag block starts at the first multiple
/// of 4 after that zero byte: a comma, the tag byte and two reserved bytes. The payload is
/// everything after the tag block.
pub open spec fn parse_spec(b: Seq<u8>) -> Result<(Seq<char>, char, Seq<u8>), OscError> {
    if !has_terminator(b) {
        Err(OscError::TruncatedMessage)
    } else {
        let z = terminator(b);
        let a = b.subrange(0, z);
        if !valid_utf8(a) {
            Err(OscError::MalformedAddress)
        } else if z == 0 || b[0] != SLASH {
            Err(OscError::InvalidAddress)
        } else {
            let c = round_up(z + 1, 4);
            if c >= b.len() {
                Err(OscError::TruncatedMessage)
            } else if b[c] != COMMA {
                Err(OscError::MissingTypeTag)
            } else if c + 4 > b.len() {
                Err(OscError::TruncatedMessage)
            } else {
                Ok((decode_utf8(a), b[c + 1] as char, b.subrange(c + 4, b.len() as int)))
            }
        }
    }
}

/// `usize::MAX + 1` is a multiple of 4 on every target.
proof fn lemma_usize_max_mod_4()
    ensures
        (usize::MAX as int) % 4 == 3,
{
    assert(usize::MAX == 0xffff_ffff || usize::MAX == 0xffff_ffff_ffff_ffff);
}

impl OscMessage {
    /// Parses one OSC message from `data`.
    pub fn new(data: &Vec<u8>) -> (r: Result<OscMessage, OscError>)
        ensures
            match r {
                Ok(m) => parse_spec(data@) == Ok::<_, OscError>(m@),
                Err(e) => parse_spec(data@) == Err::<(Seq<char>, char, Seq<u8>), _>(e),
            },
    {
        let n = data.len();
        let i = find_zero(data, 0);
        assert(data@.subrange(0, n as int) =~= data@);
        if i == n {
            return Err(OscError::TruncatedMessage);
        }
        let address = match crate::text::utf8_string(copy_range(data, 0, i)) {
            Some(s) => s,
            None => {
                return Err(OscError::MalformedAddress);
            },
        };
        if i == 0 || data[0] != SLASH {
            return Err(OscError::InvalidAddress);
        }
        let start = i + 1;
        if start > usize::MAX - 3 {
            proof {
                lemma_usize_max_mod_4();
                assert(round_up(start as int, 4) == usize::MAX + 1);
            }
            return Err(OscError::TruncatedMessage);
        }
        assert(round_up(start as int, 4) <= start + 3) by (nonlinear_arith)
            requires
                round_up(start as int, 4) == if start % 4 == 0 {
                    start as int
                } else {
                    start + 4 - start % 4
                },
        ;
        let mut c = start;
        quantize(&mut c, 4);
        if c >= n {
            return Err(OscError::TruncatedMessage);
        }
        if data[c] != COMMA {
            return Err(OscError::MissingTypeTag);
        }
        if n - c < 4 {
            return Err(OscError::TruncatedMessage);
        }
        let type_tag = data[c + 1] as char;
        let payload = copy_range(data, c + 4, n);
        Ok(OscMessage { address, type_tag, data: payload })
    }
}


/// The wire bytes of a message seen as (address, type tag, payload): the UTF-8 address, a zero
/// byte, zero padding up to a multiple of 4, a comma, the tag byte, two zero bytes, the payload.
pub open spec fn serialize_spec(m: (Seq<char>, char, Seq<u8>)) -> Seq<u8> {
    let a = encode_utf8(m.0).push(0u8);
    let pad = Seq::new((round_up(a.len() as int, 4) - a.len()) as nat, |i: int| 0u8);
    a + pad + seq![COMMA, (m.1 as u32) as u8, 0u8, 0u8] + m.2
}

/// A message that survives a trip through its wire form: an address that starts with `/` and
/// holds no NUL character, and a tag that fits in one byte.
pub open spec fn well_formed(m: (Seq<char>, char, Seq<u8>)) -> bool {
    &&& m.0.len() > 0
    &&& m.0[0] == '/'
    &&& no_nul(m.0)
    &&& (m.1 as u32) <= 0xFF
}

impl OscMessage {
    pub open spec fn wf(&self) -> bool {
        well_formed(self@)
    }

    /// The wire form of this message.
    pub fn serialize(&self) -> (r: Vec<u8>)
        requires
            (self.type_tag as u32) <= 0xFF,
        ensures
            r@ == serialize_spec(self@),
    {
        let bytes = self.address.as_str().as_bytes();
        let mut out: Vec<u8> = Vec::new();
        let mut k: usize = 0;
        while k < bytes.len()
            invariant
                k <= bytes@.len(),
                bytes@ == encode_utf8(self.address@),
                out@ == bytes@.subrange(0, k as int),
            decreases bytes@.len() - k,
        {
            out.push(bytes[k]);
            k = k + 1;
        }
        out.push(0u8);
        let ghost a = out@;
        assert(a == encode_utf8(self.address@).push(0u8));
        while out.len() % 4 != 0
            invariant
                a.len() <= out@.len() <= round_up(a.len() as int, 4),
                out@ == a + Seq::new((out@.len() - a.len()) as nat, |i: int| 0u8),
            decreases round_up(a.len() as int, 4) - out@.len(),
        {
            out.push(0u8);
            assert(out@ =~= a + Seq::new((out@.len() - a.len()) as nat, |i: int| 0u8));
        }
        assert(out@.len() == round_up(a.len() as int, 4)) by (nonlinear_arith)
            requires
                a.len() <= out@.len() <= round_up(a.len() as int, 4),
                out@.len() % 4 == 0,
                round_up(a.len() as int, 4) == if a.len() % 4 == 0 {
                    a.len() as int
                } else {
                    a.len() + 4 - a.len() % 4
                },
        ;
        out.push(COMMA);
        out.push(self.type_tag as u32 as u8);
        out.push(0u8);
        out.push(0u8);
        let ghost head = out@;
        let mut k: usize = 0;
        while k < self.data.len()
            invariant
                k <= self.data@.len(),
                out@ == head + self.data@.subrange(0, k as int),
            decreases self.data@.len() - k,
        {
            out.push(self.data[k]);
            k = k + 1;
        }
        assert(out@ =~= serialize_spec(self@));
        out
    }
}


/// Serializing a well-formed message and parsing the bytes gives the message back.
pub proof fn lemma_osc_round_trip(m: OscMessage)
    requires
        m.wf(),
    ensures
        parse_spec(serialize_spec(m@)) == Ok::<_, OscError>(m@),
{
    broadcast use vstd::utf8::encode_utf8_valid_utf8, vstd::utf8::encode_utf8_decode_utf8;

    let v = m@;
    let e = encode_utf8(v.0);
    let a = e.push(0u8);
    let b = serialize_spec(v);
    let c = round_up(a.len() as int, 4);
    let pad = Seq::new((c - a.len()) as nat, |i: int| 0u8);
    lemma_encode_without_nul(v.0);
    assert(c >= a.len()) by (nonlinear_arith)
        requires c == round_up(a.len() as int, 4);
    assert(b.len() == c + 4 + v.2.len());
    assert forall|j: int| 0 <= j < e.len() implies b[j] != 0 by {
        assert(b[j] == e[j]);
    }
    assert(b[e.len() as int] == 0);
    assert(terminates_at(b, e.len() as int));
    assert(terminator(b) == e.len()) by {
        let z = terminator(b);
        if z < e.len() {
            assert(b[z] != 0);
        } else if z > e.len() {
            assert(b[e.len() as int] != 0);
        }
    }
    assert(b.subrange(0, e.len() as int) =~= e);
    assert(e[0] == SLASH) by {
        assert(e == encode_scalar(v.0[0] as u32) + encode_utf8(v.0.drop_first()));
        assert(('/' as u32) == 0x2F);
        assert(leading_byte_width_1(0x2F) == 0x2F) by (bit_vector);
    }
    assert(b[0] == e[0]);
    assert(b[c] == COMMA);
    assert(b[c + 1] == (v.1 as u32) as u8);
    assert(b.subrange(c + 4, b.len() as int) =~= v.2);
    let t = v.1 as u32;
    char_u32_cast(v.1, t);
    assert(((t as u8) as char) == v.1) by {
        assert((t as u8) as u32 == t);
    }
}


/// A buffer with no zero byte has no terminated address and is refused as truncated.
pub proof fn lemma_osc_no_terminator(b: Seq<u8>)
    requires
        forall|i: int| 0 <= i < b.len() ==> b[i] != 0,
    ensures
        parse_spec(b) == Err::<(Seq<char>, char, Seq<u8>), _>(OscError::TruncatedMessage),
{
    if has_terminator(b) {
        let z = terminator(b);
        assert(b[z] == 0);
    }
}

/// A terminated, well-formed UTF-8 address whose text does not start with `/` is refused with
/// `InvalidAddress`.
pub proof fn lemma_osc_address_without_slash(b: Seq<u8>)
    requires
        has_terminator(b),
        valid_utf8(b.subrange(0, terminator(b))),
        !(decode_utf8(b.subrange(0, terminator(b))).len() > 0 && decode_utf8(
            b.subrange(0, terminator(b)),
        )[0] == '/'),
    ensures
        parse_spec(b) == Err::<(Seq<char>, char, Seq<u8>), _>(OscError::InvalidAddress),
{
    let z = terminator(b);
    let a = b.subrange(0, z);
    if z > 0 && b[0] == SLASH {
        assert(a[0] == SLASH);
        assert(is_leading_byte_width_1(SLASH)) by (bit_vector);
        assert(codepoint_width_1(SLASH) == 0x2F) by (bit_vector);
        assert(decode_utf8(a)[0] == (0x2Fu32 as char));
        assert(('/' as u32) == 0x2F);
        char_u32_cast('/', 0x2F);
    }
}

} // verus!
