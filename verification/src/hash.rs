//! Byte-level digests: SHA-256 values, XOR-fold compression, the store's
//! base-32 rendering and the `<algo>:<hex>` textual round trip.

use vstd::prelude::*;
use vstd::slice::slice_to_vec;

use crate::base32;
use crate::error::StoreError;
use crate::strutil::{split_char, str_eq};

verus! {

/// The mathematical value of a [`Hash`].
pub enum HashV {
    Sha256(Seq<u8>),
    Compressed(Seq<u8>),
    Empty,
}

/// A tagged digest: a SHA-256 value, an XOR-folded value, or nothing.
#[derive(Debug, Clone, Eq, PartialEq)]
pub enum Hash {
    SHA256(Vec<u8>),
    Compressed(Vec<u8>),
    Empty,
}

impl View for Hash {
    type V = HashV;

    open spec fn view(&self) -> HashV {
        match self {
            Hash::SHA256(v) => HashV::Sha256(v@),
            Hash::Compressed(v) => HashV::Compressed(v@),
            Hash::Empty => HashV::Empty,
        }
    }
}

/// The SHA-256 digest of a byte string. Its value is pinned only by the
/// algorithm itself; this library states nothing about it beyond its length.
pub uninterp spec fn sha256_of(b: Seq<u8>) -> Seq<u8>;

/// The RFC 4648 base-32 alphabet, in digit order.
pub open spec fn rfc4648_alphabet() -> Seq<char> {
    seq![
        'A', 'B', 'C', 'D', 'E', 'F', 'G', 'H', 'I', 'J', 'K', 'L', 'M', 'N', 'O', 'P', 'Q',
        'R', 'S', 'T', 'U', 'V', 'W', 'X', 'Y', 'Z', '2', '3', '4', '5', '6', '7',
    ]
}

/// Bit `k` of a byte string, counted from the first byte's highest bit;
/// zero past the end.
pub open spec fn rfc4648_bit(b: Seq<u8>, k: int) -> int {
    if 0 <= k < 8 * b.len() {
        ((b[k / 8] >> (7 - (k % 8)) as u8) & 1) as int
    } else {
        0
    }
}

/// The value of the `i`th base-32 symbol: five bits, highest first.
pub open spec fn rfc4648_digit(b: Seq<u8>, i: int) -> int {
    16 * rfc4648_bit(b, 5 * i) + 8 * rfc4648_bit(b, 5 * i + 1) + 4 * rfc4648_bit(b, 5 * i + 2)
        + 2 * rfc4648_bit(b, 5 * i + 3) + rfc4648_bit(b, 5 * i + 4)
}

/// The RFC 4648 base-32 rendering of a byte string, upper case and
/// padded with `=` to a multiple of eight characters.
pub open spec fn base32_rfc4648_of(b: Seq<u8>) -> Seq<char> {
    Seq::new(
        (((b.len() + 4) / 5) * 8) as nat,
        |i: int|
            if 5 * i < 8 * b.len() {
                rfc4648_alphabet()[rfc4648_digit(b, i)]
            } else {
                '='
            },
    )
}

/// Relies on ring::digest::digest with SHA-256: a 32-byte digest that
/// depends on the input bytes alone.
#[verifier::external_body]
pub fn sha256_digest(b: &[u8]) -> (r: Vec<u8>)
    ensures
        r@ == sha256_of(b@),
        r@.len() == 32,
{
    ring::digest::digest(&ring::digest::SHA256, b).as_ref().to_vec()
}

/// Relies on data_encoding::BASE32.encode: eight characters for every five
/// bytes begun, the tail filled with `=`.
#[verifier::external_body]
pub fn base32_rfc4648_encode(b: &Vec<u8>) -> (r: String)
    requires
        b@.len() <= usize::MAX / 512,
    ensures
        r@ == base32_rfc4648_of(b@),
        r@.len() == ((b@.len() + 4) / 5) * 8,
{
    data_encoding::BASE32.encode(b)
}

/// The character for one low hex digit.
pub open spec fn hex_digit_char(d: u8) -> char {
    if d == 0 {
        '0'
    } else if d == 1 {
        '1'
    } else if d == 2 {
        '2'
    } else if d == 3 {
        '3'
    } else if d == 4 {
        '4'
    } else if d == 5 {
        '5'
    } else if d == 6 {
        '6'
    } else if d == 7 {
        '7'
    } else if d == 8 {
        '8'
    } else if d == 9 {
        '9'
    } else if d == 10 {
        'a'
    } else if d == 11 {
        'b'
    } else if d == 12 {
        'c'
    } else if d == 13 {
        'd'
    } else if d == 14 {
        'e'
    } else {
        'f'
    }
}

/// The lower-case hex rendering of a byte string: two digits per byte,
/// high nibble first.
pub open spec fn hex_lower_of(bytes: Seq<u8>) -> Seq<char> {
    Seq::new((bytes.len() * 2) as nat, |i: int|
        if i % 2 == 0 {
            hex_digit_char(bytes[i / 2] >> 4u8)
        } else {
            hex_digit_char(bytes[i / 2] & 0xfu8)
        })
}

/// The value of a strict lower-case hex digit.
pub open spec fn hex_val_lower(c: char) -> Option<u8> {
    if c == '0' {
        Some(0u8)
    } else if c == '1' {
        Some(1u8)
    } else if c == '2' {
        Some(2u8)
    } else if c == '3' {
        Some(3u8)
    } else if c == '4' {
        Some(4u8)
    } else if c == '5' {
        Some(5u8)
    } else if c == '6' {
        Some(6u8)
    } else if c == '7' {
        Some(7u8)
    } else if c == '8' {
        Some(8u8)
    } else if c == '9' {
        Some(9u8)
    } else if c == 'a' {
        Some(10u8)
    } else if c == 'b' {
        Some(11u8)
    } else if c == 'c' {
        Some(12u8)
    } else if c == 'd' {
        Some(13u8)
    } else if c == 'e' {
        Some(14u8)
    } else if c == 'f' {
        Some(15u8)
    } else {
        None
    }
}

/// The value of a hex digit, either case accepted.
pub open spec fn hex_val_permissive(c: char) -> Option<u8> {
    if c == 'A' {
        Some(10u8)
    } else if c == 'B' {
        Some(11u8)
    } else if c == 'C' {
        Some(12u8)
    } else if c == 'D' {
        Some(13u8)
    } else if c == 'E' {
        Some(14u8)
    } else if c == 'F' {
        Some(15u8)
    } else {
        hex_val_lower(c)
    }
}

/// Strict lower-case hex decoding: an even number of digits, high nibble
/// first, or nothing.
pub open spec fn spec_hex_decode_lower(s: Seq<char>) -> Option<Seq<u8>> {
    if s.len() % 2 == 0 && (forall|i: int| 0 <= i < s.len() ==> hex_val_lower(s[i]).is_some()) {
        Some(Seq::new((s.len() / 2) as nat, |i: int|
            (hex_val_lower(s[2 * i]).unwrap() << 4u8) | hex_val_lower(s[2 * i + 1]).unwrap()))
    } else {
        None
    }
}

/// Case-permissive hex decoding.
pub open spec fn spec_hex_decode_permissive(s: Seq<char>) -> Option<Seq<u8>> {
    if s.len() % 2 == 0 && (forall|i: int| 0 <= i < s.len() ==> hex_val_permissive(s[i]).is_some()) {
        Some(Seq::new((s.len() / 2) as nat, |i: int|
            (hex_val_permissive(s[2 * i]).unwrap() << 4u8) | hex_val_permissive(
                s[2 * i + 1],
            ).unwrap()))
    } else {
        None
    }
}

/// Relies on data_encoding::HEXLOWER.encode: two lower-case digits per
/// byte, high nibble first.
#[verifier::external_body]
pub fn hex_encode_lower(b: &Vec<u8>) -> (r: String)
    requires
        b@.len() <= usize::MAX / 512,
    ensures
        r@ == hex_lower_of(b@),
{
    data_encoding::HEXLOWER.encode(b)
}

/// Relies on data_encoding::HEXLOWER.decode: accepts exactly an even
/// number of lower-case hex digits and returns the bytes they name.
#[verifier::external_body]
fn hex_decode_lower(s: &str) -> (r: Option<Vec<u8>>)
    requires
        s@.len() <= usize::MAX / 8,
    ensures
        match r {
            Some(b) => spec_hex_decode_lower(s@) == Some(b@),
            None => spec_hex_decode_lower(s@) is None,
        },
{
    match data_encoding::HEXLOWER.decode(s.as_bytes()) {
        Ok(v) => Some(v),
        Err(_) => None,
    }
}

/// Relies on data_encoding::HEXLOWER_PERMISSIVE.decode: as the strict
/// decoder, but upper-case digits are accepted too.
#[verifier::external_body]
fn hex_decode_permissive(s: &str) -> (r: Option<Vec<u8>>)
    requires
        s@.len() <= usize::MAX / 8,
    ensures
        match r {
            Some(b) => spec_hex_decode_permissive(s@) == Some(b@),
            None => spec_hex_decode_permissive(s@) is None,
        },
{
    match data_encoding::HEXLOWER_PERMISSIVE.decode(s.as_bytes()) {
        Ok(v) => Some(v),
        Err(_) => None,
    }
}

/// The XOR fold of `v` into `len` bytes, after the first `k` input bytes.
pub open spec fn xor_fold_rec(v: Seq<u8>, len: int, k: int) -> Seq<u8>
    decreases k,
{
    if k <= 0 {
        Seq::new(len as nat, |i: int| 0u8)
    } else {
        let prev = xor_fold_rec(v, len, k - 1);
        prev.update((k - 1) % len, prev[(k - 1) % len] ^ v[k - 1])
    }
}

/// Byte `i` of the fold XORs every input byte whose index is `i` modulo `len`.
pub open spec fn xor_fold(v: Seq<u8>, len: int) -> Seq<u8> {
    xor_fold_rec(v, len, v.len() as int)
}

/// Textual decoding of `sha256:<hex>`, either case of hex accepted.
pub open spec fn spec_from_sql_string(s: Seq<char>) -> Option<Seq<u8>> {
    let parts = crate::strutil::spec_split(s, ':');
    if parts.len() >= 2 && parts[0] == "sha256"@ && parts[1].len() <= usize::MAX / 8 {
        spec_hex_decode_permissive(parts[1])
    } else {
        None
    }
}

/// Textual decoding of `sha256:<base32>` in the store's own alphabet.
pub open spec fn spec_from_text(s: Seq<char>) -> Option<Seq<u8>> {
    let parts = crate::strutil::spec_split(s, ':');
    if parts.len() >= 2 && parts[0] == "sha256"@ && parts[1].len() * 5 <= usize::MAX {
        base32::spec_decode(parts[1])
    } else {
        None
    }
}

impl Hash {
    /// Reads a SHA-256 digest from exactly 64 strict lower-case hex digits.
    pub fn from_sha256(v: &str) -> (r: Result<Self, StoreError>)
        ensures
            match r {
                Ok(h) => spec_hex_decode_lower(v@) is Some && v@.len() == 64 && h@
                    == HashV::Sha256(spec_hex_decode_lower(v@).unwrap()),
                Err(_) => spec_hex_decode_lower(v@) is None || v@.len() != 64,
            },
    {
        if v.unicode_len() != 64 {
            return Err(StoreError::HashDecodePartialError { error: v.to_owned() });
        }
        match hex_decode_lower(v) {
            Some(b) => Ok(Hash::SHA256(b)),
            None => Err(StoreError::HashDecodePartialError { error: v.to_owned() }),
        }
    }

    /// Whether two hashes hold the same kind and the same bytes.
    pub fn hash_eq(&self, other: &Hash) -> (r: bool)
        ensures
            r == (self@ == other@),
    {
        match (self, other) {
            (Hash::SHA256(a), Hash::SHA256(b)) => vec_u8_eq(a, b),
            (Hash::Compressed(a), Hash::Compressed(b)) => vec_u8_eq(a, b),
            (Hash::Empty, Hash::Empty) => true,
            _ => false,
        }
    }

    /// A copy of this hash with the same kind and bytes.
    pub fn clone_hash(&self) -> (r: Hash)
        ensures
            r@ == self@,
    {
        match self {
            Hash::SHA256(v) => Hash::SHA256(slice_to_vec(v.as_slice())),
            Hash::Compressed(v) => Hash::Compressed(slice_to_vec(v.as_slice())),
            Hash::Empty => Hash::Empty,
        }
    }

    /// Whether this hash is a SHA-256 digest.
    pub fn is_sha256(&self) -> (r: bool)
        ensures
            r == (self@ is Sha256),
    {
        match self {
            Hash::SHA256(_) => true,
            _ => false,
        }
    }

    /// Wraps raw digest bytes as a SHA-256 hash.
    pub fn from_sha256_vec(v: &[u8]) -> (r: Result<Self, StoreError>)
        ensures
            r matches Ok(h) && h@ == HashV::Sha256(v@),
    {
        let out = slice_to_vec(v);
        Ok(Hash::SHA256(out))
    }

    /// Renders the digest in base-32: RFC 4648 (upper case, padded) for
    /// SHA-256 values — the rendering the archive tests and remote caches
    /// expect — and the store's own alphabet for compressed values. An
    /// empty hash, or one too large for the encoder, is refused.
    pub fn to_base32(&self) -> (r: Result<String, StoreError>)
        ensures
            match r {
                Ok(s) => match self@ {
                    HashV::Sha256(b) => b.len() <= usize::MAX / 512 && s@ == base32_rfc4648_of(b),
                    HashV::Compressed(b) => b.len() * 8 <= usize::MAX && s@ == base32::spec_encode(
                        b,
                    ),
                    HashV::Empty => false,
                },
                Err(_) => match self@ {
                    HashV::Sha256(b) => b.len() > usize::MAX / 512,
                    HashV::Compressed(b) => b.len() * 8 > usize::MAX,
                    HashV::Empty => true,
                },
            },
    {
        match self {
            Hash::SHA256(v) => {
                if v.len() <= usize::MAX / 512 {
                    Ok(base32_rfc4648_encode(v))
                } else {
                    Err(StoreError::BadArchive { msg: String::from_str("base32 error") })
                }
            },
            Hash::Compressed(v) => {
                if v.len() <= usize::MAX / 8 {
                    Ok(base32::encode(v))
                } else {
                    Err(StoreError::BadArchive { msg: String::from_str("base32 error") })
                }
            },
            Hash::Empty => Err(StoreError::BadArchive { msg: String::from_str("base32 error") }),
        }
    }

    /// Folds a SHA-256 digest down to `len` bytes: output byte `i` XORs
    /// every input byte whose index is `i` modulo `len`. Any other kind of
    /// hash is refused.
    pub fn compress_hash(self, len: usize) -> (r: Result<Self, StoreError>)
        requires
            len >= 1,
        ensures
            match r {
                Ok(h) => self@ is Sha256 && h@ == HashV::Compressed(
                    xor_fold(self@->Sha256_0, len as int),
                ) && h@->Compressed_0.len() == len,
                Err(_) => !(self@ is Sha256),
            },
    {
        let ghost gself = self@;
        if let Hash::SHA256(v) = self {
            let mut out: Vec<u8> = Vec::new();
            let mut k: usize = 0;
            while k < len
                invariant
                    k <= len,
                    out@.len() == k,
                    forall|i: int| 0 <= i < k ==> out@[i] == 0u8,
                decreases len - k,
            {
                out.push(0);
                k = k + 1;
            }
            assert(out@ =~= xor_fold_rec(v@, len as int, 0));
            let mut i: usize = 0;
            while i < v.len()
                invariant
                    i <= v@.len(),
                    len >= 1,
                    out@.len() == len,
                    out@ == xor_fold_rec(v@, len as int, i as int),
                decreases v@.len() - i,
            {
                let slot = i % len;
                let merged: u8 = out[slot] ^ v[i];
                out.set(slot, merged);
                i = i + 1;
            }
            assert(gself->Sha256_0 == v@);
            Ok(Hash::Compressed(out))
        } else {
            Err(StoreError::Unimplemented { msg: String::from_str("compress_hash") })
        }
    }

    /// Renders a SHA-256 digest as `sha256:<hex>` for persistence.
    pub fn to_sql_string(&self) -> (r: String)
        requires
            self@ is Sha256,
            self@->Sha256_0.len() <= usize::MAX / 512,
        ensures
            r@ == "sha256:"@ + hex_lower_of(self@->Sha256_0),
    {
        match self {
            Hash::SHA256(v) => {
                let mut s = String::from_str("sha256:");
                let hex = hex_encode_lower(v);
                s.append(hex.as_str());
                s
            },
            _ => {
                proof {
                    assert(false);
                }
                String::new()
            },
        }
    }

    /// Reads a digest back from `sha256:<hex>`, either case accepted.
    pub fn from_sql_string(s: &str) -> (r: Result<Hash, StoreError>)
        ensures
            match r {
                Ok(h) => spec_from_sql_string(s@) is Some && h@ == HashV::Sha256(
                    spec_from_sql_string(s@).unwrap(),
                ),
                Err(_) => spec_from_sql_string(s@) is None,
            },
    {
        let parts = split_char(s, ':');
        if parts.len() >= 2 && str_eq(parts[0].as_str(), "sha256") {
            assert(parts.deep_view()[0] == "sha256"@);
            assert(parts.deep_view()[1] == parts@[1]@);
            if parts[1].as_str().unicode_len() > usize::MAX / 8 {
                return Err(StoreError::HashDecodePartialError {
                    error: String::from_str("hash text too long"),
                });
            }
            match hex_decode_permissive(parts[1].as_str()) {
                Some(b) => {
                    assert(parts.deep_view()[1] == parts@[1]@);
                    Ok(Hash::SHA256(b))
                },
                None => Err(StoreError::HashDecodePartialError {
                    error: String::from_str("cannot decode hash digits"),
                }),
            }
        } else {
            assert(parts.deep_view().len() >= 2 ==> parts.deep_view()[0] == parts@[0]@);
            Err(StoreError::HashDecodePartialError {
                error: String::from_str("invalid hash type"),
            })
        }
    }

    /// Reads a digest from `sha256:<base32>` in the store's own alphabet.
    pub fn from_text(s: &str) -> (r: Result<Hash, StoreError>)
        ensures
            match r {
                Ok(h) => spec_from_text(s@) is Some && h@ == HashV::Sha256(
                    spec_from_text(s@).unwrap(),
                ),
                Err(_) => spec_from_text(s@) is None,
            },
    {
        let parts = split_char(s, ':');
        if parts.len() >= 2 && str_eq(parts[0].as_str(), "sha256") {
            assert(parts.deep_view()[0] == "sha256"@);
            assert(parts.deep_view()[1] == parts@[1]@);
            if parts[1].as_str().unicode_len() > usize::MAX / 5 {
                return Err(StoreError::HashDecodePartialError {
                    error: String::from_str("hash text too long"),
                });
            }
            match base32::decode(parts[1].as_str()) {
                Ok(b) => Ok(Hash::SHA256(b)),
                Err(e) => Err(e),
            }
        } else {
            assert(parts.deep_view().len() >= 2 ==> parts.deep_view()[0] == parts@[0]@);
            Err(StoreError::HashDecodePartialError {
                error: String::from_str("invalid hash type"),
            })
        }
    }

    /// Renders the digest in the store's own base-32 alphabet, or the fixed
    /// marker text for an empty hash.
    pub fn to_text(&self) -> (r: String)
        requires
            match self@ {
                HashV::Sha256(b) => b.len() * 8 <= usize::MAX,
                HashV::Compressed(b) => b.len() * 8 <= usize::MAX,
                HashV::Empty => true,
            },
        ensures
            r@ == match self@ {
                HashV::Sha256(b) => base32::spec_encode(b),
                HashV::Compressed(b) => base32::spec_encode(b),
                HashV::Empty => "EMTPY-HASH"@,
            },
    {
        match self {
            Hash::SHA256(v) => base32::encode(v),
            Hash::Compressed(v) => base32::encode(v),
            Hash::Empty => String::from_str("EMTPY-HASH"),
        }
    }

    /// Hashes the whole string `s = <type>:sha256:<rest>` when its fourth
    /// field from the end names SHA-256; anything else is refused.
    pub fn hash_string(s: &str) -> (r: Result<Hash, StoreError>)
        ensures
            ({
                let parts = crate::strutil::spec_split(s@, ':');
                match r {
                    Ok(h) => parts.len() >= 4 && parts[parts.len() - 4] == "sha256"@ && h@
                        == HashV::Sha256(sha256_of(vstd::utf8::encode_utf8(s@)))
                        && h@->Sha256_0.len() == 32,
                    Err(_) => parts.len() < 4 || parts[parts.len() - 4] != "sha256"@,
                }
            }),
    {
        let parts = split_char(s, ':');
        if parts.len() < 4 {
            return Err(StoreError::Unimplemented { msg: String::from_str("invalid hash string") });
        }
        let ht_pos = parts.len() - 4;
        assert(parts.deep_view()[ht_pos as int] == parts@[ht_pos as int]@);
        if str_eq(parts[ht_pos].as_str(), "sha256") {
            Self::hash_string_sha256(s)
        } else {
            Err(StoreError::Unimplemented { msg: String::from_str("not sha256") })
        }
    }

    /// The SHA-256 digest of the UTF-8 bytes of `s`.
    pub fn hash_string_sha256(s: &str) -> (r: Result<Hash, StoreError>)
        ensures
            r matches Ok(h) && h@ == HashV::Sha256(sha256_of(vstd::utf8::encode_utf8(s@)))
                && h@->Sha256_0.len() == 32,
    {
        let d = sha256_digest(s.as_bytes());
        Ok(Hash::SHA256(d))
    }
}

fn vec_u8_eq(a: &Vec<u8>, b: &Vec<u8>) -> (r: bool)
    ensures
        r == (a@ == b@),
{
    if a.len() != b.len() {
        return false;
    }
    let n = a.len();
    let mut i: usize = 0;
    while i < n
        invariant
            i <= n,
            n == a@.len(),
            n == b@.len(),
            forall|k: int| 0 <= k < i ==> a@[k] == b@[k],
        decreases n - i,
    {
        if a[i] != b[i] {
            return false;
        }
        i = i + 1;
    }
    assert(a@ =~= b@);
    true
}

/// A piece produced by splitting is never longer than the split string.
proof fn lemma_split_piece_len(s: Seq<char>, sep: char, i: int)
    requires
        0 <= i < crate::strutil::spec_split(s, sep).len(),
    ensures
        crate::strutil::spec_split(s, sep)[i].len() <= s.len(),
{
    lemma_split_rec_piece_len(s, sep, Seq::empty(), i);
}

proof fn lemma_split_rec_piece_len(s: Seq<char>, sep: char, cur: Seq<char>, i: int)
    requires
        0 <= i < crate::strutil::spec_split_rec(s, sep, cur).len(),
    ensures
        crate::strutil::spec_split_rec(s, sep, cur)[i].len() <= s.len() + cur.len(),
    decreases s.len(),
{
    if s.len() == 0 {
    } else if s[0] == sep {
        if i > 0 {
            lemma_split_rec_piece_len(s.drop_first(), sep, Seq::empty(), i - 1);
        }
    } else {
        lemma_split_rec_piece_len(s.drop_first(), sep, cur.push(s[0]), i);
    }
}

/// The XOR fold always has exactly the asked-for length, whatever the
/// input: compressing a digest is deterministic and fixed-width.
pub proof fn lemma_xor_fold_len(v: Seq<u8>, len: int, k: int)
    requires
        len >= 1,
        k >= 0,
    ensures
        xor_fold_rec(v, len, k).len() == len,
    decreases k,
{
    if k > 0 {
        lemma_xor_fold_len(v, len, k - 1);
    }
}

/// Decoding the hex rendering of a byte string gives the bytes back.
pub proof fn lemma_hex_round_trip(b: Seq<u8>)
    ensures
        spec_hex_decode_lower(hex_lower_of(b)) == Some(b),
{
    let s = hex_lower_of(b);
    assert forall|i: int| 0 <= i < s.len() implies hex_val_lower(s[i]).is_some() by {
        let byte = b[i / 2];
        assert(byte >> 4u8 < 16 && (byte & 0xfu8) < 16) by (bit_vector);
    }
    let dec = spec_hex_decode_lower(s).unwrap();
    assert forall|i: int| 0 <= i < b.len() implies dec[i] == b[i] by {
        let byte = b[i];
        assert(byte >> 4u8 < 16 && (byte & 0xfu8) < 16) by (bit_vector);
        assert(hex_val_lower(hex_digit_char(byte >> 4u8)) == Some(byte >> 4u8));
        assert(hex_val_lower(hex_digit_char(byte & 0xfu8)) == Some(byte & 0xfu8));
        assert(((byte >> 4u8) << 4u8) | (byte & 0xfu8) == byte) by (bit_vector);
    }
    assert(dec =~= b);
}

} // verus!
