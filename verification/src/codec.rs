//! The record codec: a stable binary format for message records, bounded to
//! a fixed maximum serialized size.
//!
//! A record is laid out as a format-version byte, its id (eight
//! little-endian bytes), its three text fields, and its timestamp (eight
//! little-endian bytes); a text field is its character count (eight
//! little-endian bytes) followed by one four-byte little-endian code point
//! per character. Decoding accepts exactly the byte strings this encoding
//! produces, and a future layout can be told apart by its version byte.

use vstd::prelude::*;
use vstd::bytes::*;
use vstd::slice::slice_subrange;
use crate::types::CoffeeMessage;
use crate::types::CoffeeMessageView;

verus! {

/// Relies on char::from_u32: returns the character with the given code point
/// exactly when the code point is a Unicode scalar value, and None otherwise.
pub assume_specification[ char::from_u32 ](v: u32) -> (r: Option<char>)
    ensures
        r == (if vstd::utf8::is_scalar(v) {
            Some(v as char)
        } else {
            None::<char>
        }),
;

/// Relies on String::push: appends exactly the given character.
pub assume_specification[ String::push ](s: &mut String, ch: char)
    ensures
        final(s)@ == old(s)@.push(ch),
;

/// One character, as the four little-endian bytes of its code point.
pub open spec fn enc_char(c: char) -> Seq<u8> {
    spec_u32_to_le_bytes(c as u32)
}

/// A character sequence, one `enc_char` after another.
pub open spec fn enc_chars(s: Seq<char>) -> Seq<u8>
    decreases s.len(),
{
    if s.len() == 0 {
        Seq::empty()
    } else {
        enc_char(s[0]) + enc_chars(s.skip(1))
    }
}

/// A text field: character count as eight little-endian bytes, then the
/// characters.
pub open spec fn enc_text(s: Seq<char>) -> Seq<u8> {
    spec_u64_to_le_bytes(s.len() as u64) + enc_chars(s)
}

/// The version byte that opens every record this layout produces.
pub const RECORD_FORMAT_VERSION: u8 = 1;

/// A whole record: the format version, the id, the three text fields, then
/// the timestamp.
pub open spec fn enc_record(v: CoffeeMessageView) -> Seq<u8> {
    seq![RECORD_FORMAT_VERSION] + spec_u64_to_le_bytes(v.id) + enc_text(v.name) + enc_text(
        v.message,
    ) + enc_text(v.receiver) + spec_u64_to_le_bytes(v.timestamp)
}

/// The length of `enc_record(v)` in closed form: each character takes four
/// bytes, the version byte one, and each of the two integers and three
/// length prefixes takes eight.
pub open spec fn encoded_len(v: CoffeeMessageView) -> int {
    41 + 4 * (v.name.len() + v.message.len() + v.receiver.len()) as int
}

/// Maximum serialized size of one record, in bytes; calibrated so that the
/// three text fields can together hold about a thousand characters, which a
/// legitimate record never approaches.
pub const MAX_RECORD_BYTES: usize = 4096;

/// Whether a record is small enough for the store.
pub open spec fn record_fits(v: CoffeeMessageView) -> bool {
    encoded_len(v) <= MAX_RECORD_BYTES as int
}

/// Decode `n` characters from the front of `b`; the undecoded remainder
/// follows the characters in the result.
pub open spec fn dec_chars(b: Seq<u8>, n: nat) -> Option<(Seq<char>, Seq<u8>)>
    decreases n,
{
    if n == 0 {
        Some((Seq::empty(), b))
    } else if b.len() < 4 {
        None
    } else {
        let v = spec_u32_from_le_bytes(b.take(4));
        if vstd::utf8::is_scalar(v) {
            match dec_chars(b.skip(4), (n - 1) as nat) {
                Some(sr) => Some((seq![v as char] + sr.0, sr.1)),
                None => None,
            }
        } else {
            None
        }
    }
}

/// Decode one eight-byte little-endian integer from the front of `b`.
pub open spec fn dec_u64(b: Seq<u8>) -> Option<(u64, Seq<u8>)> {
    if b.len() < 8 {
        None
    } else {
        Some((spec_u64_from_le_bytes(b.take(8)), b.skip(8)))
    }
}

/// Decode one length-prefixed text field from the front of `b`.
pub open spec fn dec_text(b: Seq<u8>) -> Option<(Seq<char>, Seq<u8>)> {
    match dec_u64(b) {
        Some(nr) => dec_chars(nr.1, nr.0 as nat),
        None => None,
    }
}

/// Decode a whole record; succeeds exactly when `b` is one encoded record
/// of the current format version and nothing more.
pub open spec fn dec_record(b: Seq<u8>) -> Option<CoffeeMessageView> {
    if b.len() < 1 || b[0] != RECORD_FORMAT_VERSION {
        None
    } else {
        dec_record_body(b.skip(1))
    }
}

/// Decode everything of a record after the version byte.
pub open spec fn dec_record_body(b: Seq<u8>) -> Option<CoffeeMessageView> {
    match dec_u64(b) {
        None => None,
        Some(idr) => match dec_text(idr.1) {
            None => None,
            Some(namer) => match dec_text(namer.1) {
                None => None,
                Some(messager) => match dec_text(messager.1) {
                    None => None,
                    Some(receiverr) => match dec_u64(receiverr.1) {
                        None => None,
                        Some(tsr) => if tsr.1.len() == 0 {
                            Some(
                                CoffeeMessageView {
                                    id: idr.0,
                                    name: namer.0,
                                    message: messager.0,
                                    receiver: receiverr.0,
                                    timestamp: tsr.0,
                                },
                            )
                        } else {
                            None
                        },
                    },
                },
            },
        },
    }
}

pub proof fn lemma_enc_chars_len(s: Seq<char>)
    ensures
        enc_chars(s).len() == 4 * s.len(),
    decreases s.len(),
{
    lemma_auto_spec_u32_to_from_le_bytes();
    if s.len() > 0 {
        lemma_enc_chars_len(s.skip(1));
    }
}

/// The closed-form length of a whole encoded record.
pub proof fn lemma_enc_record_len(v: CoffeeMessageView)
    ensures
        enc_record(v).len() == encoded_len(v),
{
    lemma_auto_spec_u64_to_from_le_bytes();
    lemma_enc_chars_len(v.name);
    lemma_enc_chars_len(v.message);
    lemma_enc_chars_len(v.receiver);
}

/// Splitting one encoding off the front of a byte string decodes the
/// characters that were encoded and leaves the rest.
pub proof fn lemma_dec_enc_chars(s: Seq<char>, rest: Seq<u8>)
    ensures
        dec_chars(enc_chars(s) + rest, s.len()) == Some((s, rest)),
    decreases s.len(),
{
    lemma_auto_spec_u32_to_from_le_bytes();
    if s.len() == 0 {
        assert(enc_chars(s) + rest =~= rest);
    } else {
        let b = enc_chars(s) + rest;
        assert(b.take(4) =~= enc_char(s[0]));
        let v = spec_u32_from_le_bytes(b.take(4));
        assert(v == s[0] as u32);
        vstd::utf8::char_is_scalar(s[0]);
        vstd::utf8::char_u32_cast(s[0], v);
        assert(b.skip(4) =~= enc_chars(s.skip(1)) + rest);
        lemma_dec_enc_chars(s.skip(1), rest);
        assert(seq![v as char] + s.skip(1) =~= s);
    }
}

pub proof fn lemma_dec_enc_text(s: Seq<char>, rest: Seq<u8>)
    requires
        s.len() <= u64::MAX,
    ensures
        dec_text(enc_text(s) + rest) == Some((s, rest)),
{
    lemma_auto_spec_u64_to_from_le_bytes();
    let b = enc_text(s) + rest;
    assert(b.take(8) =~= spec_u64_to_le_bytes(s.len() as u64));
    assert(b.skip(8) =~= enc_chars(s) + rest);
    lemma_dec_enc_chars(s, rest);
}

/// Round trip: decoding an encoded record yields the record back.
pub proof fn lemma_dec_enc_record(v: CoffeeMessageView)
    requires
        v.name.len() <= u64::MAX,
        v.message.len() <= u64::MAX,
        v.receiver.len() <= u64::MAX,
    ensures
        dec_record(enc_record(v)) == Some(v),
{
    lemma_auto_spec_u64_to_from_le_bytes();
    let rest3 = spec_u64_to_le_bytes(v.timestamp);
    let rest2 = enc_text(v.receiver) + rest3;
    let rest1 = enc_text(v.message) + rest2;
    let rest0 = enc_text(v.name) + rest1;
    let b = enc_record(v);
    assert(b[0] == RECORD_FORMAT_VERSION);
    let body = b.skip(1);
    assert(body =~= spec_u64_to_le_bytes(v.id) + rest0);
    assert(body.take(8) =~= spec_u64_to_le_bytes(v.id));
    assert(body.skip(8) =~= rest0);
    lemma_dec_enc_text(v.name, rest1);
    lemma_dec_enc_text(v.message, rest2);
    lemma_dec_enc_text(v.receiver, rest3);
    assert(rest3.take(8) =~= rest3);
    assert(rest3.skip(8) =~= Seq::<u8>::empty());
}

/// Append the eight little-endian bytes of `x` to `out`.
fn push_u64(out: &mut Vec<u8>, x: u64)
    ensures
        final(out)@ == old(out)@ + spec_u64_to_le_bytes(x),
{
    let mut bs = u64_to_le_bytes(x);
    out.append(&mut bs);
}

/// Append the four little-endian bytes of `x` to `out`.
fn push_u32(out: &mut Vec<u8>, x: u32)
    ensures
        final(out)@ == old(out)@ + spec_u32_to_le_bytes(x),
{
    let mut bs = u32_to_le_bytes(x);
    out.append(&mut bs);
}

proof fn lemma_enc_chars_singleton(c: char)
    ensures
        enc_chars(seq![c]) == enc_char(c),
{
    assert(seq![c].skip(1) =~= Seq::<char>::empty());
    assert(enc_chars(Seq::<char>::empty()) == Seq::<u8>::empty());
    assert(enc_chars(seq![c]) =~= enc_char(c));
}

proof fn lemma_enc_chars_concat(a: Seq<char>, b: Seq<char>)
    ensures
        enc_chars(a + b) == enc_chars(a) + enc_chars(b),
    decreases a.len(),
{
    if a.len() == 0 {
        assert(a + b =~= b);
        assert(enc_chars(a) + enc_chars(b) =~= enc_chars(b));
    } else {
        assert((a + b).skip(1) =~= a.skip(1) + b);
        lemma_enc_chars_concat(a.skip(1), b);
        assert(enc_char((a + b)[0]) + (enc_chars(a.skip(1)) + enc_chars(b)) =~= enc_chars(a)
            + enc_chars(b));
    }
}

/// Append one encoded text field to `out`.
fn push_text(out: &mut Vec<u8>, s: &String)
    ensures
        final(out)@ == old(out)@ + enc_text(s@),
{
    let n = s.as_str().unicode_len();
    push_u64(out, n as u64);
    let mut i: usize = 0;
    while i < n
        invariant
            i <= n,
            n == s@.len(),
            out@ == old(out)@ + spec_u64_to_le_bytes(s@.len() as u64) + enc_chars(s@.take(i as int)),
        decreases n - i,
    {
        let c = s.as_str().get_char(i);
        push_u32(out, c as u32);
        proof {
            assert(s@.take(i + 1) =~= s@.take(i as int) + seq![s@[i as int]]);
            lemma_enc_chars_concat(s@.take(i as int), seq![s@[i as int]]);
            lemma_enc_chars_singleton(s@[i as int]);
        }
        i = i + 1;
    }
    proof {
        assert(s@.take(n as int) =~= s@);
    }
}

/// Encode a record into its stable binary form.
pub fn encode_record(m: &CoffeeMessage) -> (r: Vec<u8>)
    ensures
        r@ == enc_record(m@),
{
    let mut out: Vec<u8> = Vec::new();
    out.push(RECORD_FORMAT_VERSION);
    push_u64(&mut out, m.id);
    push_text(&mut out, &m.name);
    push_text(&mut out, &m.message);
    push_text(&mut out, &m.receiver);
    push_u64(&mut out, m.timestamp);
    proof {
        assert(out@ =~= enc_record(m@));
    }
    out
}

/// Whether the record fits the configured size bound for stored records.
pub fn check_record_fits(m: &CoffeeMessage) -> (b: bool)
    ensures
        b == record_fits(m@),
{
    let bytes = encode_record(m);
    proof {
        lemma_enc_record_len(m@);
    }
    bytes.len() <= MAX_RECORD_BYTES
}

/// Read the eight-byte little-endian integer at `pos`.
fn read_u64(b: &Vec<u8>, pos: usize) -> (r: u64)
    requires
        pos + 8 <= b@.len(),
    ensures
        r == spec_u64_from_le_bytes(b@.subrange(pos as int, pos as int + 8)),
{
    let _n = b.len();
    u64_from_le_bytes(slice_subrange(b.as_slice(), pos, pos + 8))
}

/// Read the four-byte little-endian integer at `pos`.
fn read_u32(b: &Vec<u8>, pos: usize) -> (r: u32)
    requires
        pos + 4 <= b@.len(),
    ensures
        r == spec_u32_from_le_bytes(b@.subrange(pos as int, pos as int + 4)),
{
    let _n = b.len();
    u32_from_le_bytes(slice_subrange(b.as_slice(), pos, pos + 4))
}

/// Read one length-prefixed text field starting at `*pos`, advancing `*pos`
/// past it.
fn read_text(b: &Vec<u8>, pos: &mut usize) -> (r: Option<String>)
    requires
        *old(pos) <= b@.len(),
    ensures
        match r {
            Some(s) => {
                &&& *final(pos) <= b@.len()
                &&& dec_text(b@.skip(*old(pos) as int)) == Some(
                    (s@, b@.skip(*final(pos) as int)),
                )
            },
            None => dec_text(b@.skip(*old(pos) as int)) is None,
        },
{
    let n_bytes = b.len();
    if n_bytes - *pos < 8 {
        return None;
    }
    let n64 = read_u64(b, *pos);
    proof {
        assert(b@.skip(*old(pos) as int).take(8) =~= b@.subrange(
            *old(pos) as int,
            *old(pos) as int + 8,
        ));
    }
    *pos = *pos + 8;
    let ghost start: int = *pos as int;
    proof {
        assert(b@.skip(start - 8).skip(8) =~= b@.skip(start));
    }
    let mut s = String::new();
    let mut i: u64 = 0;
    while i < n64
        invariant
            i <= n64,
            start <= *pos as int <= b@.len(),
            *pos as int == start + 4 * i,
            dec_text(b@.skip(*old(pos) as int)) == dec_chars(b@.skip(start), n64 as nat),
            dec_chars(b@.skip(start), n64 as nat) == (match dec_chars(
                b@.skip(*pos as int),
                (n64 - i) as nat,
            ) {
                Some(p) => Some((s@ + p.0, p.1)),
                None => None::<(Seq<char>, Seq<u8>)>,
            }),
        decreases n64 - i,
    {
        let n_bytes = b.len();
        if n_bytes - *pos < 4 {
            return None;
        }
        let v = read_u32(b, *pos);
        proof {
            assert(b@.skip(*pos as int).take(4) =~= b@.subrange(*pos as int, *pos as int + 4));
        }
        match char::from_u32(v) {
            None => {
                return None;
            },
            Some(c) => {
                proof {
                    let tail = b@.skip(*pos as int);
                    if dec_chars(tail.skip(4), (n64 - i - 1) as nat) is Some {
                        let p = dec_chars(tail.skip(4), (n64 - i - 1) as nat).unwrap();
                        assert((s@ + (seq![c] + p.0)) =~= (s@.push(c) + p.0));
                    }
                    assert(tail.skip(4) =~= b@.skip(*pos as int + 4));
                }
                s.push(c);
                *pos = *pos + 4;
                i = i + 1;
            },
        }
    }
    proof {
        assert(s@ + Seq::<char>::empty() =~= s@);
    }
    Some(s)
}

/// Decode a record from its stable binary form; `None` exactly when the
/// bytes are not one whole encoded record.
pub fn decode_record(b: &Vec<u8>) -> (r: Option<CoffeeMessage>)
    ensures
        match r {
            Some(m) => dec_record(b@) == Some(m@),
            None => dec_record(b@) is None,
        },
{
    let n_bytes = b.len();
    if n_bytes < 9 {
        return None;
    }
    if b[0] != RECORD_FORMAT_VERSION {
        return None;
    }
    let id = read_u64(b, 1);
    proof {
        assert(b@.skip(1).take(8) =~= b@.subrange(1, 9));
        assert(b@.skip(1).skip(8) =~= b@.skip(9));
    }
    let mut pos: usize = 9;
    let name = match read_text(b, &mut pos) {
        Some(s) => s,
        None => {
            return None;
        },
    };
    let message = match read_text(b, &mut pos) {
        Some(s) => s,
        None => {
            return None;
        },
    };
    let receiver = match read_text(b, &mut pos) {
        Some(s) => s,
        None => {
            return None;
        },
    };
    if n_bytes - pos < 8 {
        return None;
    }
    let timestamp = read_u64(b, pos);
    proof {
        assert(b@.skip(pos as int).take(8) =~= b@.subrange(pos as int, pos as int + 8));
        assert(b@.skip(pos as int).skip(8) =~= b@.skip(pos as int + 8));
    }
    if pos + 8 != n_bytes {
        return None;
    }
    Some(CoffeeMessage { id, name, message, receiver, timestamp })
}

} // verus!
