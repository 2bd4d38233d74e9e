//! Text codecs: the capability the reader and writer use to turn name
//! and string-cell bytes into text and back.
//!
//! `TextCodec` mirrors the caller-supplied encoding of the file format:
//! the reader decodes names and string cells under an error-tolerant
//! policy (undecodable bytes are skipped), the writer encodes them
//! under a strict, fail-on-unencodable one; a strict decode is offered
//! beside them. `AsciiCodec` is implemented and verified here;
//! `Windows949Codec` calls the `encoding` crate for the legacy Korean
//! codepage the format is usually stored in.

use crate::shn::ShnError;
use vstd::prelude::*;
use vstd::string::*;
use vstd::utf8::is_ascii_chars;

verus! {

/// A text codec: decodes byte sequences to text and encodes text back.
///
/// Every codec verified in this crate overrides the three spec
/// functions; their bodies here are only defaults, so restrictive that
/// a codec left with them could decode and encode nothing, and they
/// let a caller outside the verifier supply a codec of its own.
pub trait TextCodec {
    /// The text `bytes` decode to under the error-tolerant policy.
    open spec fn decode_lossy_spec(&self, bytes: Seq<u8>) -> Seq<char> {
        Seq::empty()
    }

    /// The text `bytes` decode to under the strict policy, or `None`
    /// when some of the bytes cannot be decoded.
    open spec fn decode_strict_spec(&self, bytes: Seq<u8>) -> Option<Seq<char>> {
        None
    }

    /// The bytes `text` encodes to under the strict policy, or `None`
    /// when some of the text cannot be encoded.
    open spec fn encode_spec(&self, text: Seq<char>) -> Option<Seq<u8>> {
        None
    }

    /// Decodes `bytes`, skipping whatever the codec cannot decode.
    fn decode_lossy(&self, bytes: &[u8]) -> (r: String)
        ensures
            r@ == self.decode_lossy_spec(bytes@),
    ;

    /// Decodes `bytes`; undecodable bytes are an `InvalidEncoding` error.
    fn decode_strict(&self, bytes: &[u8]) -> (r: Result<String, ShnError>)
        ensures
            match r {
                Ok(s) => self.decode_strict_spec(bytes@) == Some(s@),
                Err(e) => {
                    &&& self.decode_strict_spec(bytes@) is None
                    &&& e == ShnError::InvalidEncoding
                },
            },
    ;

    /// Encodes `text`; unencodable text is an `InvalidEncoding` error.
    fn encode(&self, text: &str) -> (r: Result<Vec<u8>, ShnError>)
        ensures
            match r {
                Ok(b) => self.encode_spec(text@) == Some(b@),
                Err(e) => {
                    &&& self.encode_spec(text@) is None
                    &&& e == ShnError::InvalidEncoding
                },
            },
    ;
}

/// Whether every byte is in the ASCII range.
pub open spec fn ascii_bytes(bytes: Seq<u8>) -> bool {
    forall|i: int| 0 <= i < bytes.len() ==> bytes[i] < 0x80
}

/// The characters of a byte sequence read one byte per character.
pub open spec fn chars_of_bytes(bytes: Seq<u8>) -> Seq<char> {
    bytes.map_values(|b: u8| b as char)
}

/// The bytes of a character sequence written one byte per character.
pub open spec fn bytes_of_chars(text: Seq<char>) -> Seq<u8> {
    text.map_values(|c: char| c as u8)
}

/// Error-tolerant ASCII decoding: bytes outside the ASCII range are
/// skipped, the rest decode to the chars of equal code point.
pub open spec fn ascii_lossy(bytes: Seq<u8>) -> Seq<char>
    decreases bytes.len(),
{
    if bytes.len() == 0 {
        Seq::empty()
    } else if bytes.last() < 0x80 {
        ascii_lossy(bytes.drop_last()).push(bytes.last() as char)
    } else {
        ascii_lossy(bytes.drop_last())
    }
}

/// Relies on std's `String::from_utf8`: bytes below 0x80 are single-byte
/// UTF-8 scalars, so an all-ASCII byte vector is valid UTF-8 and decodes
/// to the characters of equal code point, one per byte.
#[verifier::external_body]
fn ascii_string_from_bytes(v: Vec<u8>) -> (r: String)
    requires
        ascii_bytes(v@),
    ensures
        r@ == chars_of_bytes(v@),
{
    match String::from_utf8(v) {
        Ok(s) => s,
        Err(_) => String::new(),
    }
}

/// The verified ASCII codec: decodes and encodes the 128 ASCII
/// characters one byte per character.
#[derive(Clone, Copy, PartialEq, Eq, Structural, Debug)]
pub struct AsciiCodec;

impl TextCodec for AsciiCodec {
    open spec fn decode_lossy_spec(&self, bytes: Seq<u8>) -> Seq<char> {
        ascii_lossy(bytes)
    }

    open spec fn decode_strict_spec(&self, bytes: Seq<u8>) -> Option<Seq<char>> {
        if ascii_bytes(bytes) {
            Some(chars_of_bytes(bytes))
        } else {
            None
        }
    }

    open spec fn encode_spec(&self, text: Seq<char>) -> Option<Seq<u8>> {
        if is_ascii_chars(text) {
            Some(bytes_of_chars(text))
        } else {
            None
        }
    }

    fn decode_lossy(&self, bytes: &[u8]) -> (r: String)
        ensures
            r@ == self.decode_lossy_spec(bytes@),
    {
        let n = bytes.len();
        let mut kept: Vec<u8> = Vec::new();
        let mut i: usize = 0;
        proof {
            assert(bytes@.subrange(0, 0) =~= Seq::<u8>::empty());
        }
        while i < n
            invariant
                i <= n,
                n == bytes@.len(),
                ascii_bytes(kept@),
                chars_of_bytes(kept@) == ascii_lossy(bytes@.subrange(0, i as int)),
            decreases n - i,
        {
            let ghost prefix = bytes@.subrange(0, i as int);
            let ghost next = bytes@.subrange(0, i + 1);
            proof {
                assert(next.drop_last() =~= prefix);
                assert(next.last() == bytes@[i as int]);
            }
            let b = bytes[i];
            if b < 0x80 {
                let ghost old_kept = kept@;
                kept.push(b);
                proof {
                    assert(chars_of_bytes(kept@) =~= chars_of_bytes(old_kept).push(b as char));
                }
            }
            i += 1;
        }
        proof {
            assert(bytes@.subrange(0, n as int) =~= bytes@);
        }
        ascii_string_from_bytes(kept)
    }

    fn decode_strict(&self, bytes: &[u8]) -> (r: Result<String, ShnError>)
        ensures
            match r {
                Ok(s) => self.decode_strict_spec(bytes@) == Some(s@),
                Err(e) => {
                    &&& self.decode_strict_spec(bytes@) is None
                    &&& e == ShnError::InvalidEncoding
                },
            },
    {
        let n = bytes.len();
        let mut i: usize = 0;
        while i < n
            invariant
                i <= n,
                n == bytes@.len(),
                forall|j: int| 0 <= j < i ==> bytes@[j] < 0x80,
            decreases n - i,
        {
            if bytes[i] >= 0x80 {
                return Err(ShnError::InvalidEncoding);
            }
            i += 1;
        }
        let mut v: Vec<u8> = Vec::new();
        let mut k: usize = 0;
        while k < n
            invariant
                k <= n,
                n == bytes@.len(),
                ascii_bytes(bytes@),
                v@ == bytes@.subrange(0, k as int),
            decreases n - k,
        {
            v.push(bytes[k]);
            proof {
                assert(v@ =~= bytes@.subrange(0, k + 1));
            }
            k += 1;
        }
        proof {
            assert(v@ =~= bytes@);
        }
        Ok(ascii_string_from_bytes(v))
    }

    fn encode(&self, text: &str) -> (r: Result<Vec<u8>, ShnError>)
        ensures
            match r {
                Ok(b) => self.encode_spec(text@) == Some(b@),
                Err(e) => {
                    &&& self.encode_spec(text@) is None
                    &&& e == ShnError::InvalidEncoding
                },
            },
    {
        if !text.is_ascii() {
            return Err(ShnError::InvalidEncoding);
        }
        let b = text.as_bytes_vec();
        proof {
            broadcast use vstd::string::is_ascii_spec_bytes;

            assert(b@ =~= bytes_of_chars(text@));
        }
        Ok(b)
    }
}

/// The text the `encoding` crate's windows-949 decoder yields for the
/// given bytes under the `Ignore` trap.
pub uninterp spec fn win949_lossy_of(bytes: Seq<u8>) -> Seq<char>;

/// The text the `encoding` crate's windows-949 decoder yields for the
/// given bytes under the `Strict` trap, or `None` when it fails.
pub uninterp spec fn win949_strict_of(bytes: Seq<u8>) -> Option<Seq<char>>;

/// The bytes the `encoding` crate's windows-949 encoder yields for the
/// given text under the `Strict` trap, or `None` when it fails.
pub uninterp spec fn win949_encoded_of(text: Seq<char>) -> Option<Seq<u8>>;

/// Relies on `encoding::all::WINDOWS_949.decode` with
/// `DecoderTrap::Ignore`: the result depends on the input bytes alone,
/// and with the `Ignore` trap the call always succeeds, since that trap
/// skips undecodable bytes and carries on.
#[verifier::external_body]
fn win949_decode_lossy_raw(bytes: &[u8]) -> (r: String)
    ensures
        r@ == win949_lossy_of(bytes@),
{
    match encoding::Encoding::decode(
        encoding::all::WINDOWS_949,
        bytes,
        encoding::DecoderTrap::Ignore,
    ) {
        Ok(s) => s,
        Err(_) => String::new(),
    }
}

/// Relies on `encoding::all::WINDOWS_949.decode` with
/// `DecoderTrap::Strict`: the result depends on the input bytes alone;
/// the call fails exactly on byte sequences the codepage cannot decode.
#[verifier::external_body]
fn win949_decode_strict_raw(bytes: &[u8]) -> (r: Option<String>)
    ensures
        match r {
            Some(s) => win949_strict_of(bytes@) == Some(s@),
            None => win949_strict_of(bytes@) is None,
        },
{
    match encoding::Encoding::decode(
        encoding::all::WINDOWS_949,
        bytes,
        encoding::DecoderTrap::Strict,
    ) {
        Ok(s) => Some(s),
        Err(_) => None,
    }
}

/// Relies on `encoding::all::WINDOWS_949.encode` with
/// `EncoderTrap::Strict`: the result depends on the input text alone;
/// the call fails exactly on text the codepage cannot encode.
#[verifier::external_body]
fn win949_encode_raw(text: &str) -> (r: Option<Vec<u8>>)
    ensures
        match r {
            Some(b) => win949_encoded_of(text@) == Some(b@),
            None => win949_encoded_of(text@) is None,
        },
{
    match encoding::Encoding::encode(
        encoding::all::WINDOWS_949,
        text,
        encoding::EncoderTrap::Strict,
    ) {
        Ok(b) => Some(b),
        Err(_) => None,
    }
}

/// The windows-949 codec (the codepage SHN tables are usually stored
/// in), backed by the `encoding` crate.
#[derive(Clone, Copy, PartialEq, Eq, Structural, Debug)]
pub struct Windows949Codec;

impl TextCodec for Windows949Codec {
    open spec fn decode_lossy_spec(&self, bytes: Seq<u8>) -> Seq<char> {
        win949_lossy_of(bytes)
    }

    open spec fn decode_strict_spec(&self, bytes: Seq<u8>) -> Option<Seq<char>> {
        win949_strict_of(bytes)
    }

    open spec fn encode_spec(&self, text: Seq<char>) -> Option<Seq<u8>> {
        win949_encoded_of(text)
    }

    fn decode_lossy(&self, bytes: &[u8]) -> (r: String)
        ensures
            r@ == self.decode_lossy_spec(bytes@),
    {
        win949_decode_lossy_raw(bytes)
    }

    fn decode_strict(&self, bytes: &[u8]) -> (r: Result<String, ShnError>)
        ensures
            match r {
                Ok(s) => self.decode_strict_spec(bytes@) == Some(s@),
                Err(e) => {
                    &&& self.decode_strict_spec(bytes@) is None
                    &&& e == ShnError::InvalidEncoding
                },
            },
    {
        match win949_decode_strict_raw(bytes) {
            Some(s) => Ok(s),
            None => Err(ShnError::InvalidEncoding),
        }
    }

    fn encode(&self, text: &str) -> (r: Result<Vec<u8>, ShnError>)
        ensures
            match r {
                Ok(b) => self.encode_spec(text@) == Some(b@),
                Err(e) => {
                    &&& self.encode_spec(text@) is None
                    &&& e == ShnError::InvalidEncoding
                },
            },
    {
        match win949_encode_raw(text) {
            Some(b) => Ok(b),
            None => Err(ShnError::InvalidEncoding),
        }
    }
}

/// A character sequence with its trailing NUL characters removed.
pub open spec fn spec_trim_nuls(s: Seq<char>) -> Seq<char>
    decreases s.len(),
{
    if s.len() > 0 && s.last() == '\0' {
        spec_trim_nuls(s.drop_last())
    } else {
        s
    }
}

/// Removes the trailing NUL characters a NUL-padded field decodes to.
pub fn trim_trailing_nuls(s: &str) -> (r: String)
    ensures
        r@ == spec_trim_nuls(s@),
{
    let n = s.unicode_len();
    let mut end: usize = n;
    proof {
        assert(s@.subrange(0, n as int) =~= s@);
    }
    while end > 0 && s.get_char(end - 1) == '\0'
        invariant
            end <= n,
            n == s@.len(),
            spec_trim_nuls(s@) == spec_trim_nuls(s@.subrange(0, end as int)),
        decreases end,
    {
        proof {
            let cur = s@.subrange(0, end as int);
            assert(cur.last() == s@[end - 1]);
            assert(cur.drop_last() =~= s@.subrange(0, end - 1));
        }
        end -= 1;
    }
    let sub = s.substring_char(0, end);
    proof {
        let cur = s@.subrange(0, end as int);
        if end > 0 {
            assert(cur.last() == s@[end - 1]);
        }
        assert(spec_trim_nuls(cur) == cur);
    }
    String::from_str(sub)
}

/// Law: trimming the text of an all-NUL suffix recovers the text, as
/// long as the text itself does not end in a NUL character.
pub proof fn lemma_trim_nul_padding(t: Seq<char>, pad: nat)
    requires
        t.len() == 0 || t.last() != '\0',
    ensures
        spec_trim_nuls(t + seq_repeat_nul(pad)) == t,
    decreases pad,
{
    if pad == 0 {
        assert(t + seq_repeat_nul(0) =~= t);
    } else {
        let padded = t + seq_repeat_nul(pad);
        assert(padded.last() == '\0');
        assert(padded.drop_last() =~= t + seq_repeat_nul((pad - 1) as nat));
        lemma_trim_nul_padding(t, (pad - 1) as nat);
    }
}

/// A sequence of `n` NUL characters.
pub open spec fn seq_repeat_nul(n: nat) -> Seq<char> {
    Seq::new(n, |i: int| '\0')
}

} // verus!
