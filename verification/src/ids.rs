//! Identifiers: object ids, public keys, authors and timestamps.
//!
//! Object ids are 20-byte git object identifiers written as 40 lowercase hex
//! digits; actors are identified by 32-byte Ed25519 public keys. Parsing and
//! printing go through the radicle crates.

use std::str::FromStr;

use vstd::prelude::*;
use vstd::string::*;
use vstd::utf8::*;

use crate::order::{KeyOrder, lex_order};
use crate::sorted_set::SetKey;

verus! {

#[verifier::external_type_specification]
#[verifier::external_body]
pub struct ExParseObjectId(radicle::cob::object::ParseObjectId);

/// The lowercase hexadecimal digit for `n`, where `0 <= n < 16`.
pub open spec fn hex_digit(n: int) -> char {
    if n < 10 {
        ((n + 48) as u32) as char
    } else {
        ((n + 87) as u32) as char
    }
}

/// `bytes` written as two lowercase hexadecimal digits per byte.
pub open spec fn hex_lower(bytes: Seq<u8>) -> Seq<char> {
    Seq::new(
        2 * bytes.len(),
        |i: int|
            if i % 2 == 0 {
                hex_digit(bytes[i / 2] as int / 16)
            } else {
                hex_digit(bytes[i / 2] as int % 16)
            },
    )
}

/// The value of the hexadecimal digit `c` (either case), if it is one.
pub open spec fn hex_value(c: u8) -> Option<u8> {
    if 48 <= c <= 57 {
        Some((c - 48) as u8)
    } else if 97 <= c <= 102 {
        Some((c - 87) as u8)
    } else if 65 <= c <= 70 {
        Some((c - 55) as u8)
    } else {
        None
    }
}

/// How a byte is read from two characters in base 16: an optional `+` sign
/// followed by hexadecimal digits only.
pub open spec fn radix16_pair(hi: u8, lo: u8) -> Option<u8> {
    if hi == 43 {
        hex_value(lo)
    } else {
        match (hex_value(hi), hex_value(lo)) {
            (Some(h), Some(l)) => Some((h * 16 + l) as u8),
            _ => None,
        }
    }
}

/// The byte read from characters `2 * i` and `2 * i + 1` of `text`.
pub open spec fn pair_at(text: Seq<u8>, i: int) -> Option<u8> {
    radix16_pair(text[2 * i], text[2 * i + 1])
}

/// The object id that `text` (as UTF-8 bytes) spells: exactly 40 bytes, each
/// pair of them one byte in base 16.
pub open spec fn parsed_object_id(text: Seq<u8>) -> Option<Seq<u8>> {
    if text.len() == 40 && forall|i: int| 0 <= i < 20 ==> #[trigger] pair_at(text, i) is Some {
        Some(Seq::new(20, |i: int| pair_at(text, i)->0))
    } else {
        None
    }
}

/// Parsing `text` as an object id cuts it into pairs of bytes, one pair after
/// the other, and stops at the first pair that does not read as a byte; this
/// holds where every cut that it makes falls on a character boundary.
pub open spec fn object_id_text_cuttable(text: Seq<u8>) -> bool {
    text.len() == 40 ==> forall|i: int|
        0 <= i < 20 && (forall|j: int| 0 <= j < i ==> #[trigger] pair_at(text, j) is Some)
            ==> #[trigger] is_char_boundary(text, 2 * i) && is_char_boundary(text, 2 * i + 2)
}

/// The digit of value `d` in the base58-btc alphabet
/// `123456789ABCDEFGHJKLMNPQRSTUVWXYZabcdefghijkmnopqrstuvwxyz`.
pub open spec fn base58_digit(d: nat) -> char
    recommends
        d < 58,
{
    if d < 9 {
        (49 + d) as char
    } else if d < 17 {
        (65 + d - 9) as char
    } else if d < 22 {
        (74 + d - 17) as char
    } else if d < 33 {
        (80 + d - 22) as char
    } else if d < 44 {
        (97 + d - 33) as char
    } else {
        (109 + d - 44) as char
    }
}

/// The number that `bytes` write in base 256, most significant byte first.
pub open spec fn big_endian(bytes: Seq<u8>) -> nat
    decreases bytes.len(),
{
    if bytes.len() == 0 {
        0
    } else {
        (big_endian(bytes.drop_last()) * 256 + bytes.last()) as nat
    }
}

/// The base58-btc digits of `n`, most significant first, without leading
/// zero digits.
pub open spec fn base58(n: nat) -> Seq<char>
    decreases n,
{
    if n < 58 {
        seq![base58_digit(n)]
    } else {
        base58(n / 58).push(base58_digit(n % 58))
    }
}

/// The multicodec prefix of an Ed25519 public key.
pub open spec fn ed25519_multicodec() -> Seq<u8> {
    seq![0xEDu8, 0x01u8]
}

/// The `did:key` text of an Ed25519 public key: `did:key:`, the multibase
/// code `z` of base58-btc, and the base58-btc digits of the key's bytes
/// after the multicodec prefix. The prefix starts with a non-zero byte, so
/// the encoding has no leading `1` digits for zero bytes.
pub open spec fn did_key_text(key: Seq<u8>) -> Seq<char> {
    seq!['d', 'i', 'd', ':', 'k', 'e', 'y', ':', 'z'] + base58(
        big_endian(ed25519_multicodec() + key),
    )
}

/// Calls radicle's `ObjectId::from_str`. Its contract says that the text is
/// accepted exactly when it is 40 bytes long and every pair of bytes reads as
/// one byte in base 16, and that the id holds those bytes.
#[verifier::external_body]
fn radicle_parse_object_id(s: &str) -> (r: Result<Vec<u8>, radicle::cob::object::ParseObjectId>)
    requires
        object_id_text_cuttable(s.spec_bytes()),
    ensures
        r is Ok <==> parsed_object_id(s.spec_bytes()) is Some,
        r matches Ok(b) ==> parsed_object_id(s.spec_bytes()) == Some(b@),
{
    match radicle::cob::ObjectId::from_str(s) {
        Ok(id) => Ok(AsRef::<[u8]>::as_ref(&*id).to_vec()),
        Err(e) => Err(e),
    }
}

/// Calls the `Display` impl of radicle's `ObjectId`, which writes each of the
/// 20 bytes as two lowercase hexadecimal digits.
#[verifier::external_body]
fn radicle_object_id_text(bytes: [u8; 20]) -> (r: String)
    ensures
        r@ == hex_lower(bytes@),
{
    radicle::cob::ObjectId::from(radicle::git::Oid::from_sha1(bytes)).to_string()
}

/// Calls radicle's `Did::encode` on the key, which writes `did:key:` and the
/// multibase base58-btc encoding of the multicodec prefix `ED 01` followed
/// by the key bytes, as [`did_key_text`] states.
#[verifier::external_body]
fn radicle_did_text(bytes: [u8; 32]) -> (r: String)
    ensures
        r@ == did_key_text(bytes@),
{
    radicle::identity::Did::from(radicle::crypto::PublicKey::from_bytes(bytes)).encode()
}

/// Identifier of a collaborative object (a git object id).
#[derive(Clone, Copy, Debug)]
pub struct ObjectId {
    bytes: [u8; 20],
}

/// Identifier for a context.
pub type ContextId = ObjectId;

impl View for ObjectId {
    type V = Seq<u8>;

    closed spec fn view(&self) -> Seq<u8> {
        self.bytes@
    }
}

impl ObjectId {
    /// The id with the given bytes.
    pub fn from_bytes(bytes: [u8; 20]) -> (id: ObjectId)
        ensures
            id@ == bytes@,
    {
        ObjectId { bytes }
    }

    /// The bytes of the id.
    pub fn to_bytes(&self) -> (r: [u8; 20])
        ensures
            r@ == self@,
    {
        self.bytes
    }

    /// An id is 20 bytes long.
    pub proof fn lemma_len(&self)
        ensures
            self@.len() == 20,
    {
    }

    /// Whether two ids are the same.
    pub fn same_as(&self, other: &ObjectId) -> (r: bool)
        ensures
            r == (self@ == other@),
    {
        lex_order(self.bytes.as_slice(), other.bytes.as_slice()) == KeyOrder::Equal
    }

    /// Parses the 40 hexadecimal digits of an id.
    pub fn from_str(s: &str) -> (r: Result<ObjectId, radicle::cob::object::ParseObjectId>)
        requires
            object_id_text_cuttable(s.spec_bytes()),
        ensures
            r is Ok <==> parsed_object_id(s.spec_bytes()) is Some,
            r matches Ok(id) ==> parsed_object_id(s.spec_bytes()) == Some(id@),
    {
        match radicle_parse_object_id(s) {
            Ok(v) => {
                let mut bytes = [0u8; 20];
                let mut i: usize = 0;
                while i < 20
                    invariant
                        0 <= i <= 20,
                        v@.len() == 20,
                        forall|j: int| 0 <= j < i ==> bytes@[j] == v@[j],
                    decreases 20 - i,
                {
                    bytes[i] = v[i];
                    i = i + 1;
                }
                assert(bytes@ =~= v@);
                Ok(ObjectId { bytes })
            },
            Err(e) => Err(e),
        }
    }

    /// The id written as 40 lowercase hexadecimal digits.
    pub fn to_hex(&self) -> (r: String)
        ensures
            r@ == hex_lower(self@),
    {
        radicle_object_id_text(self.bytes)
    }
}

impl SetKey for ObjectId {
    open spec fn key_bytes(v: Seq<u8>) -> Seq<u8> {
        v
    }

    proof fn lemma_key_bytes_injective(a: Seq<u8>, b: Seq<u8>) {
    }

    fn key_slice(&self) -> (r: &[u8]) {
        self.bytes.as_slice()
    }

    fn copy_key(&self) -> (r: ObjectId) {
        *self
    }
}

impl SetKey for String {
    open spec fn key_bytes(v: Seq<char>) -> Seq<u8> {
        encode_utf8(v)
    }

    proof fn lemma_key_bytes_injective(a: Seq<char>, b: Seq<char>) {
        encode_utf8_decode_utf8(a);
        encode_utf8_decode_utf8(b);
    }

    fn key_slice(&self) -> (r: &[u8]) {
        self.as_str().as_bytes()
    }

    fn copy_key(&self) -> (r: String) {
        self.clone()
    }
}

/// An Ed25519 public key; actors and delegates are identified by it.
#[derive(Clone, Copy, Debug)]
pub struct PublicKey {
    bytes: [u8; 32],
}

/// The key of an actor that signs operations.
pub type ActorId = PublicKey;

impl View for PublicKey {
    type V = Seq<u8>;

    closed spec fn view(&self) -> Seq<u8> {
        self.bytes@
    }
}

impl PublicKey {
    /// The key with the given bytes.
    pub fn from_bytes(bytes: [u8; 32]) -> (k: PublicKey)
        ensures
            k@ == bytes@,
    {
        PublicKey { bytes }
    }

    /// The bytes of the key.
    pub fn to_bytes(&self) -> (r: [u8; 32])
        ensures
            r@ == self@,
    {
        self.bytes
    }

    /// Whether two keys are the same.
    pub fn same_as(&self, other: &PublicKey) -> (r: bool)
        ensures
            r == (self@ == other@),
    {
        lex_order(self.bytes.as_slice(), other.bytes.as_slice()) == KeyOrder::Equal
    }

    /// The key as a `did:key` identifier.
    pub fn to_did(&self) -> (r: String)
        ensures
            r@ == did_key_text(self@),
    {
        radicle_did_text(self.bytes)
    }
}

/// The identity that ran a session.
#[derive(Clone, Copy, Debug)]
pub struct Author {
    pub id: PublicKey,
}

impl Author {
    /// The author with the given key.
    pub fn new(id: PublicKey) -> (a: Author)
        ensures
            a.id == id,
    {
        Author { id }
    }

    /// The author's key.
    pub fn id(&self) -> (r: &PublicKey)
        ensures
            *r == self.id,
    {
        &self.id
    }
}

/// A point in time, in milliseconds since the Unix epoch.
#[derive(Clone, Copy, Debug)]
pub struct Timestamp {
    millis: u64,
}

impl View for Timestamp {
    type V = u64;

    closed spec fn view(&self) -> u64 {
        self.millis
    }
}

impl Timestamp {
    /// The timestamp `millis` milliseconds after the epoch.
    pub fn from_millis(millis: u64) -> (t: Timestamp)
        ensures
            t@ == millis,
    {
        Timestamp { millis }
    }

    /// Milliseconds since the epoch.
    pub fn as_millis(&self) -> (r: u64)
        ensures
            r == self@,
    {
        self.millis
    }
}

proof fn lemma_hex_digit(n: int)
    requires
        0 <= n < 16,
    ensures
        '\0' <= hex_digit(n) <= '\u{7f}',
        hex_digit(n) as u8 != 43,
        hex_value(hex_digit(n) as u8) == Some(n as u8),
{
}


/// Reading back the hexadecimal text of an id gives the id: the text can be
/// cut into pairs, and every pair reads as the byte it was written from.
pub proof fn lemma_hex_text_parses_back(bytes: Seq<u8>)
    requires
        bytes.len() == 20,
    ensures
        object_id_text_cuttable(encode_utf8(hex_lower(bytes))),
        parsed_object_id(encode_utf8(hex_lower(bytes))) == Some(bytes),
{
    let text = hex_lower(bytes);
    let enc = encode_utf8(text);
    assert forall|k: int| 0 <= k < text.len() implies '\0' <= #[trigger] text[k] <= '\u{7f}' by {
        if k % 2 == 0 {
            lemma_hex_digit(bytes[k / 2] as int / 16);
        } else {
            lemma_hex_digit(bytes[k / 2] as int % 16);
        }
    }
    assert(is_ascii_chars(text));
    is_ascii_chars_encode_utf8(text);
    encode_utf8_valid_utf8(text);
    assert(enc.len() == 40);
    assert forall|i: int| 0 <= i <= 20 implies #[trigger] is_char_boundary(enc, 2 * i) by {
        if i == 20 {
            is_char_boundary_start_end_of_seq(enc);
        } else {
            assert(text[2 * i] as u8 == enc[2 * i]);
            lemma_hex_digit(bytes[i] as int / 16);
            is_char_boundary_iff_not_is_continuation_byte(enc, 2 * i);
        }
    }
    assert forall|i: int|
        0 <= i < 20 && (forall|j: int| 0 <= j < i ==> #[trigger] pair_at(enc, j) is Some) implies #[trigger] is_char_boundary(
        enc,
        2 * i,
    ) && is_char_boundary(enc, 2 * i + 2) by {
        assert(is_char_boundary(enc, 2 * (i + 1)));
    }
    assert forall|i: int| 0 <= i < 20 implies #[trigger] pair_at(enc, i) == Some(bytes[i]) by {
        let hi = bytes[i] as int / 16;
        let lo = bytes[i] as int % 16;
        assert(text[2 * i] == hex_digit(hi));
        assert(text[2 * i + 1] == hex_digit(lo));
        assert(text[2 * i] as u8 == enc[2 * i]);
        assert(text[2 * i + 1] as u8 == enc[2 * i + 1]);
        lemma_hex_digit(hi);
        lemma_hex_digit(lo);
        assert(hi * 16 + lo == bytes[i] as int);
    }
    assert(parsed_object_id(enc) is Some);
    assert(parsed_object_id(enc)->0 =~= bytes);
}

} // verus!
