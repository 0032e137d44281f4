//! The protobuf wire format: varints, field keys and field values.
//!
//! The primitives are `prost`'s own (`prost::encoding`); each is reached
//! through a trusted wrapper whose contract states what it does.
use vstd::prelude::*;
use vstd::utf8::{valid_utf8, decode_utf8};
use prost::encoding::{DecodeContext, WireType};

verus! {

/// Protobuf decoding failure, as `prost` reports it.
#[verifier::external_type_specification]
#[verifier::external_body]
pub struct ExDecodeError(prost::DecodeError);

/// Wire type codes.
pub const WIRE_VARINT: u8 = 0;

pub const WIRE_LEN: u8 = 2;

pub const WIRE_FIXED32: u8 = 5;

/// LEB128 decoding of the start of `s`, reading at most `budget` bytes: the
/// value and the number of bytes read.  The last of ten bytes may only be 0
/// or 1, so that the value fits in 64 bits.
pub open spec fn varint_decode(s: Seq<u8>, budget: nat) -> Option<(int, nat)>
    decreases budget,
{
    if budget == 0 || s.len() == 0 {
        None
    } else if s[0] < 0x80 {
        if budget == 1 && s[0] >= 2 {
            None
        } else {
            Some((s[0] as int, 1))
        }
    } else {
        match varint_decode(s.drop_first(), (budget - 1) as nat) {
            Some((v, n)) => Some(((s[0] - 0x80) + 128 * v, n + 1)),
            None => None,
        }
    }
}

/// A protobuf varint at the start of `s` (at most 10 bytes).
pub open spec fn varint(s: Seq<u8>) -> Option<(int, nat)> {
    varint_decode(s, 10)
}

/// The LEB128 encoding of `v`.
pub open spec fn varint_bytes(v: nat) -> Seq<u8>
    decreases v,
{
    if v < 128 {
        seq![v as u8]
    } else {
        seq![(v % 128 + 128) as u8] + varint_bytes(v / 128)
    }
}

/// The suffix of `s` that is `rest` bytes long.
pub open spec fn tail(s: Seq<u8>, rest: nat) -> Seq<u8> {
    s.subrange(s.len() - rest, s.len() as int)
}

/// A field key at the start of `s`: tag, wire type and the length of what
/// follows it.
pub open spec fn key_decode(s: Seq<u8>) -> Option<(u32, u8, nat)> {
    match varint(s) {
        Some((k, n)) => if k > 0xffff_ffff || k % 8 > 5 || k / 8 < 1 {
            None
        } else {
            Some(((k / 8) as u32, (k % 8) as u8, (s.len() - n) as nat))
        },
        None => None,
    }
}

/// A varint-typed field value at the start of `s`, and the length of what
/// follows it.
pub open spec fn varint_field(wire: u8, s: Seq<u8>) -> Option<(u64, nat)> {
    if wire != WIRE_VARINT {
        None
    } else {
        match varint(s) {
            Some((v, n)) => Some((v as u64, (s.len() - n) as nat)),
            None => None,
        }
    }
}

/// A length-delimited field value at the start of `s`, and the length of
/// what follows it.
pub open spec fn bytes_field(wire: u8, s: Seq<u8>) -> Option<(Seq<u8>, nat)> {
    if wire != WIRE_LEN {
        None
    } else {
        match varint(s) {
            Some((len, n)) => if len > s.len() - n {
                None
            } else {
                Some((s.subrange(n as int, n + len), (s.len() - n - len) as nat))
            },
            None => None,
        }
    }
}

/// A string field value at the start of `s` (UTF-8 checked), and the length
/// of what follows it.
pub open spec fn string_field(wire: u8, s: Seq<u8>) -> Option<(Seq<char>, nat)> {
    match bytes_field(wire, s) {
        Some((b, rest)) => if valid_utf8(b) {
            Some((decode_utf8(b), rest))
        } else {
            None
        },
        None => None,
    }
}

/// A 32-bit fixed-width field value at the start of `s` (four bytes, little
/// endian), and the length of what follows it.
pub open spec fn fixed32_field(wire: u8, s: Seq<u8>) -> Option<(u32, nat)> {
    if wire != WIRE_FIXED32 || s.len() < 4 {
        None
    } else {
        Some((crate::mac::packet::u32_from_le(s[0], s[1], s[2], s[3]), (s.len() - 4) as nat))
    }
}

/// What is left of `s` after `prost::encoding::skip_field` skips a group
/// (wire type 3) with tag `tag`, up to its end tag.
pub uninterp spec fn skip_field_rest(wire: u8, tag: u32, s: Seq<u8>) -> Option<nat>;

/// What is left of `s` after skipping one field value of a wire type other
/// than a group start: a varint, 8 bytes, a length-delimited value or 4
/// bytes; an end-group marker or an unknown wire type cannot be skipped.
pub open spec fn skip_plain_rest(wire: u8, s: Seq<u8>) -> Option<nat> {
    if wire == 0 {
        match varint(s) {
            Some((_, n)) => Some((s.len() - n) as nat),
            None => None,
        }
    } else if wire == 1 {
        if s.len() >= 8 { Some((s.len() - 8) as nat) } else { None }
    } else if wire == 2 {
        match bytes_field(wire, s) {
            Some((_, rest)) => Some(rest),
            None => None,
        }
    } else if wire == 5 {
        if s.len() >= 4 { Some((s.len() - 4) as nat) } else { None }
    } else {
        None
    }
}

/// What is left of `s` after skipping one field of wire type `wire` and tag
/// `tag`.
pub open spec fn skip_field_len(wire: u8, tag: u32, s: Seq<u8>) -> Option<nat> {
    if wire == 3 {
        skip_field_rest(wire, tag, s)
    } else {
        skip_plain_rest(wire, s)
    }
}

/// Appends the LEB128 encoding of `value`.
///
/// Calls `prost::encoding::encode_varint`, which writes seven bits per byte,
/// low bits first, with the high bit set on every byte but the last.
#[verifier::external_body]
pub(crate) fn pb_encode_varint(value: u64, buf: &mut Vec<u8>)
    ensures
        final(buf)@ == old(buf)@ + varint_bytes(value as nat),
{
    prost::encoding::encode_varint(value, buf);
}

/// Reads a field key; returns the tag, the wire type code and the number of
/// bytes left after the key.
///
/// Calls `prost::encoding::decode_key`: a varint that must fit in 32 bits,
/// whose low three bits are a wire type (0 to 5) and whose upper bits are a
/// tag of at least 1.
#[verifier::external_body]
pub(crate) fn pb_decode_key(buf: &[u8]) -> (r: Result<(u32, u8, usize), prost::DecodeError>)
    ensures
        r matches Ok((tag, wire, rest)) ==> key_decode(buf@) == Some((tag, wire, rest as nat)),
        r is Err ==> key_decode(buf@) is None,
{
    let mut b = buf;
    let (tag, wire) = prost::encoding::decode_key(&mut b)?;
    Ok((tag, wire as u8, b.len()))
}

/// Reads a varint-typed field value of wire type `wire`; returns it with the
/// number of bytes left after it.
///
/// Calls `prost::encoding::uint64::merge`: the wire type must be varint, and
/// the value is one varint.
#[verifier::external_body]
pub(crate) fn pb_merge_varint(wire: u8, buf: &[u8]) -> (r: Result<(u64, usize), prost::DecodeError>)
    ensures
        r matches Ok((v, rest)) ==> varint_field(wire, buf@) == Some((v, rest as nat)),
        r is Err ==> varint_field(wire, buf@) is None,
{
    let mut b = buf;
    let mut value: u64 = 0;
    let wt = WireType::try_from(u64::from(wire))?;
    prost::encoding::uint64::merge(wt, &mut value, &mut b, DecodeContext::default())?;
    Ok((value, b.len()))
}

/// Reads a length-delimited field value of wire type `wire`; returns its
/// bytes with the number of bytes left after it.
///
/// Calls `prost::encoding::bytes::merge`: the wire type must be
/// length-delimited; a varint length follows, and then that many bytes,
/// which must all be there.
#[verifier::external_body]
pub(crate) fn pb_merge_bytes(wire: u8, buf: &[u8]) -> (r: Result<(Vec<u8>, usize), prost::DecodeError>)
    ensures
        r matches Ok((v, rest)) ==> bytes_field(wire, buf@) == Some((v@, rest as nat)),
        r is Err ==> bytes_field(wire, buf@) is None,
{
    let mut b = buf;
    let mut value: Vec<u8> = Vec::new();
    let wt = WireType::try_from(u64::from(wire))?;
    prost::encoding::bytes::merge(wt, &mut value, &mut b, DecodeContext::default())?;
    Ok((value, b.len()))
}

/// Reads a string field value of wire type `wire`; returns it with the
/// number of bytes left after it.
///
/// Calls `prost::encoding::string::merge`: as for bytes, and the bytes must
/// be valid UTF-8.
#[verifier::external_body]
pub(crate) fn pb_merge_string(wire: u8, buf: &[u8]) -> (r: Result<(String, usize), prost::DecodeError>)
    ensures
        r matches Ok((v, rest)) ==> string_field(wire, buf@) == Some((v@, rest as nat)),
        r is Err ==> string_field(wire, buf@) is None,
{
    let mut b = buf;
    let mut value = String::new();
    let wt = WireType::try_from(u64::from(wire))?;
    prost::encoding::string::merge(wt, &mut value, &mut b, DecodeContext::default())?;
    Ok((value, b.len()))
}

/// Reads a `fixed32` field value of wire type `wire`; returns it with the
/// number of bytes left after it.
///
/// Calls `prost::encoding::fixed32::merge`: the wire type must be 32-bit,
/// and four bytes must follow, read little endian.  A `float` field has the
/// same wire form (its four bytes are read the same way), so its value is
/// read, and dropped, through this too.
#[verifier::external_body]
pub(crate) fn pb_merge_fixed32(wire: u8, buf: &[u8]) -> (r: Result<(u32, usize), prost::DecodeError>)
    ensures
        r matches Ok((v, rest)) ==> fixed32_field(wire, buf@) == Some((v, rest as nat)),
        r is Err ==> fixed32_field(wire, buf@) is None,
{
    let mut b = buf;
    let mut value: u32 = 0;
    let wt = WireType::try_from(u64::from(wire))?;
    prost::encoding::fixed32::merge(wt, &mut value, &mut b, DecodeContext::default())?;
    Ok((value, b.len()))
}

/// Skips one field of an unknown tag; returns the number of bytes left.
///
/// Calls `prost::encoding::skip_field` with the default decode context
/// (whose recursion limit is not reached at the top level).  A varint, a
/// 64-bit, a length-delimited or a 32-bit value is skipped as stated by
/// `skip_plain_rest`; an end-group marker is an error.  For a group, the
/// result is named, not stated: `skip_field_rest`; only that it never grows
/// the buffer is claimed.
#[verifier::external_body]
pub(crate) fn pb_skip_field(wire: u8, tag: u32, buf: &[u8]) -> (r: Result<usize, prost::DecodeError>)
    ensures
        wire == 3 ==> (r matches Ok(rest) ==> skip_field_rest(wire, tag, buf@) == Some(rest as nat)),
        wire == 3 ==> (r is Err ==> skip_field_rest(wire, tag, buf@) is None),
        wire != 3 ==> (r matches Ok(rest) ==> skip_plain_rest(wire, buf@) == Some(rest as nat)),
        wire != 3 ==> (r is Err ==> skip_plain_rest(wire, buf@) is None),
        r matches Ok(rest) ==> rest <= buf@.len(),
{
    let mut b = buf;
    let wt = WireType::try_from(u64::from(wire))?;
    prost::encoding::skip_field(wt, tag, &mut b, DecodeContext::default())?;
    Ok(b.len())
}

/// The largest varint value that `budget` bytes can carry, plus one.
pub open spec fn varint_cap(budget: nat) -> nat
    decreases budget,
{
    if budget <= 1 {
        2
    } else {
        128 * varint_cap((budget - 1) as nat)
    }
}

proof fn lemma_varint_cap_10()
    ensures
        varint_cap(10) == 0x1_0000_0000_0000_0000,
{
    reveal_with_fuel(varint_cap, 11);
}

proof fn lemma_varint_bytes_budget(v: nat, budget: nat, x: Seq<u8>)
    requires
        budget >= 1,
        v < varint_cap(budget),
    ensures
        varint_decode(varint_bytes(v) + x, budget) == Some((v as int, varint_bytes(v).len())),
        varint_bytes(v).len() >= 1,
    decreases v,
{
    let s = varint_bytes(v) + x;
    if v < 128 {
        assert(s[0] == v as u8);
        if budget == 1 {
            assert(varint_cap(1) == 2);
        }
    } else {
        if budget == 1 {
            assert(varint_cap(1) == 2);
        }
        assert(budget >= 2);
        let c = varint_cap((budget - 1) as nat);
        assert(varint_cap(budget) == 128 * c);
        assert(v / 128 < c) by (nonlinear_arith)
            requires
                v < 128 * c,
        ;
        lemma_varint_bytes_budget(v / 128, (budget - 1) as nat, x);
        assert(s.drop_first() =~= varint_bytes(v / 128) + x);
        assert(s[0] == (v % 128 + 128) as u8);
        assert((v % 128 + 128) as u8 >= 0x80);
        assert(((v % 128 + 128) as u8) - 0x80 + 128 * (v / 128) == v);
    }
}

/// Decoding the varint encoding of any 64-bit value gives the value back and
/// consumes exactly its bytes.
pub proof fn lemma_varint_round_trip(v: u64, x: Seq<u8>)
    ensures
        varint(varint_bytes(v as nat) + x) == Some((v as int, varint_bytes(v as nat).len())),
        1 <= varint_bytes(v as nat).len() <= 10,
{
    lemma_varint_cap_10();
    lemma_varint_bytes_budget(v as nat, 10, x);
    lemma_varint_len(v as nat, 10);
}

proof fn lemma_varint_len(v: nat, budget: nat)
    requires
        budget >= 1,
        v < varint_cap(budget),
    ensures
        varint_bytes(v).len() <= budget,
    decreases v,
{
    if v >= 128 {
        if budget == 1 {
            assert(varint_cap(1) == 2);
        }
        let c = varint_cap((budget - 1) as nat);
        assert(v / 128 < c) by (nonlinear_arith)
            requires
                v < 128 * c,
        ;
        lemma_varint_len(v / 128, (budget - 1) as nat);
    }
}

/// The key of field `tag` with wire type `wire`.
pub open spec fn key_bytes(tag: nat, wire: nat) -> Seq<u8> {
    varint_bytes(tag * 8 + wire)
}

/// A field key for tags 1 to 15 decodes back to its tag and wire type.
pub proof fn lemma_key_round_trip(tag: u32, wire: u8, x: Seq<u8>)
    requires
        1 <= tag <= 15,
        wire <= 5,
    ensures
        key_decode(key_bytes(tag as nat, wire as nat) + x) == Some((tag, wire, x.len())),
{
    let k = (tag * 8 + wire) as u64;
    lemma_varint_round_trip(k, x);
    assert(k < 128);
    assert(varint_bytes(k as nat).len() == 1);
}

} // verus!
