//! The envelope that every message travels in: a type tag and a payload,
//! each behind its length as eight bytes, least significant first. One
//! transport frame holds one envelope; bytes behind it are ignored.

use vstd::bytes::{
    lemma_auto_spec_u64_to_from_le_bytes, spec_u64_from_le_bytes, spec_u64_to_le_bytes,
    u64_from_le_bytes, u64_to_le_bytes,
};
use vstd::prelude::*;
use vstd::slice::{slice_subrange, slice_to_vec};
use vstd::utf8::{decode_utf8, encode_utf8, valid_utf8};

verus! {

/// An envelope: the tag that names the type of the message, and the
/// message as bytes.
#[derive(Debug)]
pub struct NetworkPacket {
    pub kind: String,
    pub data: Vec<u8>,
}

impl View for NetworkPacket {
    type V = (Seq<char>, Seq<u8>);

    open spec fn view(&self) -> (Seq<char>, Seq<u8>) {
        (self.kind@, self.data@)
    }
}

impl Clone for NetworkPacket {
    fn clone(&self) -> (r: Self)
        ensures
            r@ == self@,
    {
        NetworkPacket { kind: self.kind.clone(), data: self.data.clone() }
    }
}

/// Why bytes are no envelope.
#[derive(Clone, Copy, Debug, PartialEq, Eq, Structural)]
pub enum DecodeError {
    /// The bytes end before a length or before what the length announces.
    UnexpectedEnd,
    /// The tag is not UTF-8.
    InvalidUtf8,
}

/// The bytes, behind their number.
pub open spec fn length_prefixed(payload: Seq<u8>) -> Seq<u8> {
    spec_u64_to_le_bytes(payload.len() as u64) + payload
}

/// The envelope as it is sent.
pub open spec fn envelope_bytes(kind: Seq<char>, data: Seq<u8>) -> Seq<u8> {
    length_prefixed(encode_utf8(kind)) + length_prefixed(data)
}

/// Takes a length and as many bytes as it says from the front: those bytes
/// and what follows them, or nothing where the bytes end too early.
pub open spec fn split_prefixed(bytes: Seq<u8>) -> Option<(Seq<u8>, Seq<u8>)> {
    if bytes.len() < 8 {
        None
    } else {
        let n = spec_u64_from_le_bytes(bytes.subrange(0, 8)) as int;
        if n > bytes.len() - 8 {
            None
        } else {
            Some((bytes.subrange(8, 8 + n), bytes.subrange(8 + n, bytes.len() as int)))
        }
    }
}

/// The envelope that the bytes begin with.
pub open spec fn parse_envelope(bytes: Seq<u8>) -> Result<(Seq<char>, Seq<u8>), DecodeError> {
    match split_prefixed(bytes) {
        None => Err(DecodeError::UnexpectedEnd),
        Some((kind, rest)) => if !valid_utf8(kind) {
            Err(DecodeError::InvalidUtf8)
        } else {
            match split_prefixed(rest) {
                None => Err(DecodeError::UnexpectedEnd),
                Some((data, _)) => Ok((decode_utf8(kind), data)),
            }
        },
    }
}

/// Calls `String::from_utf8` of std. Assumed: it yields the text that the
/// bytes encode, and fails exactly where the bytes are not UTF-8.
#[verifier::external_body]
fn text_from_utf8(bytes: Vec<u8>) -> (r: Option<String>)
    ensures
        r is Some <==> valid_utf8(bytes@),
        r matches Some(s) ==> s@ == decode_utf8(bytes@),
{
    String::from_utf8(bytes).ok()
}

fn push_prefixed(out: &mut Vec<u8>, payload: &[u8])
    ensures
        final(out)@ == old(out)@ + length_prefixed(payload@),
{
    let mut length = u64_to_le_bytes(payload.len() as u64);
    out.append(&mut length);
    let mut copy = slice_to_vec(payload);
    out.append(&mut copy);
    assert(out@ =~= old(out)@ + length_prefixed(payload@));
}

/// Writes an envelope.
pub fn encode_envelope(kind: &str, data: &Vec<u8>) -> (bytes: Vec<u8>)
    ensures
        bytes@ == envelope_bytes(kind@, data@),
{
    let mut bytes: Vec<u8> = Vec::new();
    push_prefixed(&mut bytes, kind.as_bytes());
    push_prefixed(&mut bytes, data.as_slice());
    assert(bytes@ =~= envelope_bytes(kind@, data@));
    bytes
}

fn take_prefixed<'a>(bytes: &'a [u8]) -> (r: Option<(&'a [u8], &'a [u8])>)
    ensures
        match r {
            Some((payload, rest)) => split_prefixed(bytes@) == Some((payload@, rest@)),
            None => split_prefixed(bytes@) is None,
        },
{
    if bytes.len() < 8 {
        return None;
    }
    let n = u64_from_le_bytes(slice_subrange(bytes, 0, 8));
    if n > (bytes.len() - 8) as u64 {
        return None;
    }
    let end = 8 + n as usize;
    Some((slice_subrange(bytes, 8, end), slice_subrange(bytes, end, bytes.len())))
}

/// Reads the envelope that the bytes begin with.
pub fn decode_envelope(bytes: &[u8]) -> (r: Result<NetworkPacket, DecodeError>)
    ensures
        match r {
            Ok(packet) => parse_envelope(bytes@) == Ok::<_, DecodeError>(packet@),
            Err(e) => parse_envelope(bytes@) == Err::<(Seq<char>, Seq<u8>), _>(e),
        },
{
    let (kind_bytes, rest) = match take_prefixed(bytes) {
        Some(parts) => parts,
        None => {
            return Err(DecodeError::UnexpectedEnd);
        },
    };
    let kind = match text_from_utf8(slice_to_vec(kind_bytes)) {
        Some(kind) => kind,
        None => {
            return Err(DecodeError::InvalidUtf8);
        },
    };
    let (data, _) = match take_prefixed(rest) {
        Some(parts) => parts,
        None => {
            return Err(DecodeError::UnexpectedEnd);
        },
    };
    Ok(NetworkPacket { kind, data: slice_to_vec(data) })
}

/// A length and its bytes, read back from the front of anything, are those
/// bytes and what followed.
pub proof fn lemma_split_prefixed(payload: Seq<u8>, rest: Seq<u8>)
    requires
        payload.len() <= u64::MAX,
    ensures
        split_prefixed(length_prefixed(payload) + rest) == Some((payload, rest)),
{
    lemma_auto_spec_u64_to_from_le_bytes();
    let n = payload.len() as u64;
    let bytes = length_prefixed(payload) + rest;
    assert(spec_u64_to_le_bytes(n).len() == 8);
    assert(bytes.subrange(0, 8) =~= spec_u64_to_le_bytes(n));
    assert(bytes.subrange(8, 8 + n) =~= payload);
    assert(bytes.subrange(8 + n, bytes.len() as int) =~= rest);
}

/// What is written as an envelope is read back as the same envelope,
/// whatever follows it.
pub proof fn lemma_envelope_round_trip(kind: Seq<char>, data: Seq<u8>, trailing: Seq<u8>)
    requires
        encode_utf8(kind).len() <= u64::MAX,
        data.len() <= u64::MAX,
    ensures
        parse_envelope(envelope_bytes(kind, data) + trailing) == Ok::<_, DecodeError>((kind, data)),
{
    broadcast use vstd::utf8::encode_utf8_valid_utf8, vstd::utf8::encode_utf8_decode_utf8;

    let tag = encode_utf8(kind);
    let rest = length_prefixed(data) + trailing;
    assert(envelope_bytes(kind, data) + trailing =~= length_prefixed(tag) + rest);
    lemma_split_prefixed(tag, rest);
    lemma_split_prefixed(data, trailing);
    assert(valid_utf8(tag));
    assert(decode_utf8(tag) == kind);
}

} // verus!
