//! The archive (nar) codec: a length-prefixed tagged byte stream naming a
//! file tree. The parser turns bytes into a tree and accounts for every
//! byte consumed; the serializer is its inverse on well-formed trees.

use vstd::prelude::*;
use vstd::utf8::encode_utf8;

use crate::error::NarError;
use crate::store::MockStore;

verus! {

/// The archive magic string.
pub open spec fn spec_nar_magic() -> Seq<char> {
    "nix-archive-1"@
}

/// The node type named in an archive.
#[derive(Debug, PartialEq, Eq, Structural, Clone, Copy)]
pub enum Type {
    Unknown,
    Regular,
    Directory,
    Symlink,
}

impl Type {
    /// Reads a type name; anything unrecognised is `Unknown`.
    pub fn from_text(v: &str) -> (r: Type)
        ensures
            r == (if v@ == "regular"@ {
                Type::Regular
            } else if v@ == "directory"@ {
                Type::Directory
            } else if v@ == "symlink"@ {
                Type::Symlink
            } else {
                Type::Unknown
            }),
    {
        if crate::strutil::str_eq(v, "regular") {
            Type::Regular
        } else if crate::strutil::str_eq(v, "directory") {
            Type::Directory
        } else if crate::strutil::str_eq(v, "symlink") {
            Type::Symlink
        } else {
            Type::Unknown
        }
    }
}

/// The mathematical value of an archive tree.
pub enum NarV {
    Regular { executable: bool, contents: Seq<u8> },
    Symlink { target: Seq<char> },
    Directory { entries: Seq<(Seq<char>, NarV)> },
}

/// One node of an archive file tree.
pub enum NarNode {
    Regular { executable: bool, contents: Vec<u8> },
    Symlink { target: String },
    Directory { entries: Vec<(String, NarNode)> },
}

/// The value of a node.
pub open spec fn nar_view(n: NarNode) -> NarV
    decreases n,
{
    match n {
        NarNode::Regular { executable, contents } => NarV::Regular {
            executable,
            contents: contents@,
        },
        NarNode::Symlink { target } => NarV::Symlink { target: target@ },
        NarNode::Directory { entries } => NarV::Directory {
            entries: nar_views_upto(entries@, entries@.len() as int),
        },
    }
}

/// The values of the first `k` entries.
pub open spec fn nar_views_upto(s: Seq<(String, NarNode)>, k: int) -> Seq<(Seq<char>, NarV)>
    decreases s, k,
{
    if k <= 0 || k > s.len() {
        Seq::empty()
    } else {
        nar_views_upto(s, k - 1).push((s[k - 1].0@, nar_view(s[k - 1].1)))
    }
}

/// The number of nodes in a tree.
pub open spec fn nar_size(n: NarNode) -> nat
    decreases n,
{
    match n {
        NarNode::Directory { entries } => 1 + nar_size_upto(entries@, entries@.len() as int),
        _ => 1,
    }
}

/// The number of nodes in the first `k` entries.
pub open spec fn nar_size_upto(s: Seq<(String, NarNode)>, k: int) -> nat
    decreases s, k,
{
    if k <= 0 || k > s.len() {
        0
    } else {
        nar_size_upto(s, k - 1) + nar_size(s[k - 1].1)
    }
}

proof fn lemma_nar_size_elem(s: Seq<(String, NarNode)>, k: int, i: int)
    requires
        0 <= i < k <= s.len(),
    ensures
        nar_size(s[i].1) <= nar_size_upto(s, k),
    decreases k,
{
    if i < k - 1 {
        lemma_nar_size_elem(s, k - 1, i);
    }
}

/// A name a directory entry may carry: not empty, not `.` or `..`, and
/// holding no slash or NUL.
pub open spec fn spec_entry_name_ok(name: Seq<char>) -> bool {
    &&& name.len() > 0
    &&& name != "."@
    &&& name != ".."@
    &&& forall|i: int| 0 <= i < name.len() ==> name[i] != '/' && name[i] != '\u{0}'
}

/// A well-formed tree: every directory's entry names are acceptable and
/// strictly ascending, and every child is well-formed.
pub open spec fn nar_wf(t: NarV) -> bool
    decreases t,
{
    match t {
        NarV::Regular { .. } => true,
        NarV::Symlink { .. } => true,
        NarV::Directory { entries } => {
            &&& forall|i: int|
                0 <= i < entries.len() ==> spec_entry_name_ok(#[trigger] entries[i].0)
            &&& forall|i: int|
                0 <= i < entries.len() - 1 ==> char_seq_lt(
                    #[trigger] entries[i].0,
                    entries[i + 1].0,
                )
            &&& forall|i: int| 0 <= i < entries.len() ==> nar_wf(#[trigger] entries[i].1)
        },
    }
}

/// Strict lexicographic order on character strings, by code point.
pub open spec fn char_seq_lt(a: Seq<char>, b: Seq<char>) -> bool
    decreases a.len(),
{
    if b.len() == 0 {
        false
    } else if a.len() == 0 {
        true
    } else if a[0] != b[0] {
        (a[0] as u32) < (b[0] as u32)
    } else {
        char_seq_lt(a.drop_first(), b.drop_first())
    }
}

/// Whether `a` sorts strictly before `b`.
pub fn str_lt(a: &str, b: &str) -> (r: bool)
    ensures
        r == char_seq_lt(a@, b@),
{
    let alen = a.unicode_len();
    let blen = b.unicode_len();
    let mut i: usize = 0;
    proof {
        assert(a@.skip(0) =~= a@);
        assert(b@.skip(0) =~= b@);
    }
    loop
        invariant
            i <= alen,
            i <= blen,
            alen == a@.len(),
            blen == b@.len(),
            char_seq_lt(a@, b@) == char_seq_lt(a@.skip(i as int), b@.skip(i as int)),
        decreases alen - i,
    {
        if i >= blen {
            assert(b@.skip(i as int).len() == 0);
            return false;
        }
        if i >= alen {
            assert(a@.skip(i as int).len() == 0);
            return true;
        }
        let ca = a.get_char(i);
        let cb = b.get_char(i);
        proof {
            assert(a@.skip(i as int)[0] == a@[i as int]);
            assert(b@.skip(i as int)[0] == b@[i as int]);
            assert(a@.skip(i as int).drop_first() =~= a@.skip(i + 1));
            assert(b@.skip(i as int).drop_first() =~= b@.skip(i + 1));
        }
        if ca != cb {
            return (ca as u32) < (cb as u32);
        }
        i = i + 1;
    }
}

/// Eight little-endian bytes of an integer.
pub open spec fn spec_le_bytes(n: u64) -> Seq<u8> {
    Seq::new(8, |i: int| (n >> (8 * i) as u64) as u8)
}

/// The integer eight little-endian bytes name.
pub open spec fn spec_le_value(b: Seq<u8>) -> u64 {
    (b[0] as u64) | ((b[1] as u64) << 8u64) | ((b[2] as u64) << 16u64) | ((b[3] as u64)
        << 24u64) | ((b[4] as u64) << 32u64) | ((b[5] as u64) << 40u64) | ((b[6] as u64)
        << 48u64) | ((b[7] as u64) << 56u64)
}

/// The zero padding that follows `len` payload bytes.
pub open spec fn spec_pad_len(len: int) -> int {
    if len % 8 == 0 {
        0
    } else {
        8 - (len % 8)
    }
}

/// A framed byte string: the length, the bytes, zero padding to eight.
pub open spec fn spec_frame_bytes(b: Seq<u8>) -> Seq<u8> {
    spec_le_bytes(b.len() as u64) + b + Seq::new(spec_pad_len(b.len() as int) as nat, |i: int| 0u8)
}

/// A framed string: its UTF-8 bytes framed.
pub open spec fn spec_frame_str(s: Seq<char>) -> Seq<u8> {
    spec_frame_bytes(encode_utf8(s))
}

/// Writes eight little-endian bytes.
pub fn write_le_u64(out: &mut Vec<u8>, n: u64)
    ensures
        final(out)@ == old(out)@ + spec_le_bytes(n),
{
    let b0: u8 = n as u8;
    let b1: u8 = (n >> 8) as u8;
    let b2: u8 = (n >> 16) as u8;
    let b3: u8 = (n >> 24) as u8;
    let b4: u8 = (n >> 32) as u8;
    let b5: u8 = (n >> 40) as u8;
    let b6: u8 = (n >> 48) as u8;
    let b7: u8 = (n >> 56) as u8;
    out.push(b0);
    out.push(b1);
    out.push(b2);
    out.push(b3);
    out.push(b4);
    out.push(b5);
    out.push(b6);
    out.push(b7);
    proof {
        assert(n >> 0u64 == n) by (bit_vector);
        assert(spec_le_bytes(n)[0] == (n >> (8 * 0) as u64) as u8);
        assert(spec_le_bytes(n)[1] == (n >> (8 * 1) as u64) as u8);
        assert(spec_le_bytes(n)[2] == (n >> (8 * 2) as u64) as u8);
        assert(spec_le_bytes(n)[3] == (n >> (8 * 3) as u64) as u8);
        assert(spec_le_bytes(n)[4] == (n >> (8 * 4) as u64) as u8);
        assert(spec_le_bytes(n)[5] == (n >> (8 * 5) as u64) as u8);
        assert(spec_le_bytes(n)[6] == (n >> (8 * 6) as u64) as u8);
        assert(spec_le_bytes(n)[7] == (n >> (8 * 7) as u64) as u8);
        assert(final(out)@ =~= old(out)@ + spec_le_bytes(n));
    }
}

/// Reads eight little-endian bytes at `pos`.
pub fn read_le_u64(data: &Vec<u8>, pos: usize) -> (r: Result<(u64, usize), NarError>)
    ensures
        match r {
            Ok((v, end)) => pos + 8 <= data@.len() && end == pos + 8 && v == spec_le_value(
                data@.subrange(pos as int, pos + 8),
            ),
            Err(_) => pos + 8 > data@.len(),
        },
{
    if pos >= data.len() || data.len() - pos < 8 {
        return Err(NarError::ReadError { msg: String::from_str("unexpected end of archive") });
    }
    let v: u64 = (data[pos] as u64) | ((data[pos + 1] as u64) << 8) | ((data[pos + 2] as u64)
        << 16) | ((data[pos + 3] as u64) << 24) | ((data[pos + 4] as u64) << 32) | ((data[pos
        + 5] as u64) << 40) | ((data[pos + 6] as u64) << 48) | ((data[pos + 7] as u64) << 56);
    proof {
        let sub = data@.subrange(pos as int, pos + 8);
        assert(sub[0] == data@[pos as int]);
        assert(sub[1] == data@[pos as int + 1]);
        assert(sub[2] == data@[pos as int + 2]);
        assert(sub[3] == data@[pos as int + 3]);
        assert(sub[4] == data@[pos as int + 4]);
        assert(sub[5] == data@[pos as int + 5]);
        assert(sub[6] == data@[pos as int + 6]);
        assert(sub[7] == data@[pos as int + 7]);
    }
    Ok((v, pos + 8))
}

/// Writing then reading eight little-endian bytes gives the number back.
pub proof fn lemma_le_round_trip(n: u64)
    ensures
        spec_le_value(spec_le_bytes(n)) == n,
{
    let b = spec_le_bytes(n);
    assert(b[0] == (n >> (8 * 0) as u64) as u8);
    assert(b[1] == (n >> (8 * 1) as u64) as u8);
    assert(b[2] == (n >> (8 * 2) as u64) as u8);
    assert(b[3] == (n >> (8 * 3) as u64) as u8);
    assert(b[4] == (n >> (8 * 4) as u64) as u8);
    assert(b[5] == (n >> (8 * 5) as u64) as u8);
    assert(b[6] == (n >> (8 * 6) as u64) as u8);
    assert(b[7] == (n >> (8 * 7) as u64) as u8);
    assert((((n >> 0u64) as u8) as u64) | ((((n >> 8u64) as u8) as u64) << 8u64) | ((((n
        >> 16u64) as u8) as u64) << 16u64) | ((((n >> 24u64) as u8) as u64) << 24u64) | ((((n
        >> 32u64) as u8) as u64) << 32u64) | ((((n >> 40u64) as u8) as u64) << 40u64) | ((((n
        >> 48u64) as u8) as u64) << 48u64) | ((((n >> 56u64) as u8) as u64) << 56u64) == n)
        by (bit_vector);
}

/// Eight bytes are recovered from the number they name.
proof fn lemma_le_bytes_inverse(b: Seq<u8>)
    requires
        b.len() == 8,
    ensures
        spec_le_bytes(spec_le_value(b)) =~= b,
{
    let b0 = b[0];
    let b1 = b[1];
    let b2 = b[2];
    let b3 = b[3];
    let b4 = b[4];
    let b5 = b[5];
    let b6 = b[6];
    let b7 = b[7];
    assert((((b0 as u64) | ((b1 as u64) << 8u64) | ((b2 as u64) << 16u64) | ((b3 as u64)
        << 24u64) | ((b4 as u64) << 32u64) | ((b5 as u64) << 40u64) | ((b6 as u64) << 48u64) | ((
    b7 as u64) << 56u64)) >> 0u64) as u8 == b0) by (bit_vector);
    assert((((b0 as u64) | ((b1 as u64) << 8u64) | ((b2 as u64) << 16u64) | ((b3 as u64)
        << 24u64) | ((b4 as u64) << 32u64) | ((b5 as u64) << 40u64) | ((b6 as u64) << 48u64) | ((
    b7 as u64) << 56u64)) >> 8u64) as u8 == b1) by (bit_vector);
    assert((((b0 as u64) | ((b1 as u64) << 8u64) | ((b2 as u64) << 16u64) | ((b3 as u64)
        << 24u64) | ((b4 as u64) << 32u64) | ((b5 as u64) << 40u64) | ((b6 as u64) << 48u64) | ((
    b7 as u64) << 56u64)) >> 16u64) as u8 == b2) by (bit_vector);
    assert((((b0 as u64) | ((b1 as u64) << 8u64) | ((b2 as u64) << 16u64) | ((b3 as u64)
        << 24u64) | ((b4 as u64) << 32u64) | ((b5 as u64) << 40u64) | ((b6 as u64) << 48u64) | ((
    b7 as u64) << 56u64)) >> 24u64) as u8 == b3) by (bit_vector);
    assert((((b0 as u64) | ((b1 as u64) << 8u64) | ((b2 as u64) << 16u64) | ((b3 as u64)
        << 24u64) | ((b4 as u64) << 32u64) | ((b5 as u64) << 40u64) | ((b6 as u64) << 48u64) | ((
    b7 as u64) << 56u64)) >> 32u64) as u8 == b4) by (bit_vector);
    assert((((b0 as u64) | ((b1 as u64) << 8u64) | ((b2 as u64) << 16u64) | ((b3 as u64)
        << 24u64) | ((b4 as u64) << 32u64) | ((b5 as u64) << 40u64) | ((b6 as u64) << 48u64) | ((
    b7 as u64) << 56u64)) >> 40u64) as u8 == b5) by (bit_vector);
    assert((((b0 as u64) | ((b1 as u64) << 8u64) | ((b2 as u64) << 16u64) | ((b3 as u64)
        << 24u64) | ((b4 as u64) << 32u64) | ((b5 as u64) << 40u64) | ((b6 as u64) << 48u64) | ((
    b7 as u64) << 56u64)) >> 48u64) as u8 == b6) by (bit_vector);
    assert((((b0 as u64) | ((b1 as u64) << 8u64) | ((b2 as u64) << 16u64) | ((b3 as u64)
        << 24u64) | ((b4 as u64) << 32u64) | ((b5 as u64) << 40u64) | ((b6 as u64) << 48u64) | ((
    b7 as u64) << 56u64)) >> 56u64) as u8 == b7) by (bit_vector);
    let n = spec_le_value(b);
    assert forall|i: int| 0 <= i < 8 implies spec_le_bytes(n)[i] == b[i] by {
        assert(spec_le_bytes(n)[0] == (n >> (8 * 0) as u64) as u8);
        assert(spec_le_bytes(n)[1] == (n >> (8 * 1) as u64) as u8);
        assert(spec_le_bytes(n)[2] == (n >> (8 * 2) as u64) as u8);
        assert(spec_le_bytes(n)[3] == (n >> (8 * 3) as u64) as u8);
        assert(spec_le_bytes(n)[4] == (n >> (8 * 4) as u64) as u8);
        assert(spec_le_bytes(n)[5] == (n >> (8 * 5) as u64) as u8);
        assert(spec_le_bytes(n)[6] == (n >> (8 * 6) as u64) as u8);
        assert(spec_le_bytes(n)[7] == (n >> (8 * 7) as u64) as u8);
    }
}

/// What one framed byte string at `pos` holds: the payload and the next
/// position — when the length fits, the stream is long enough, and the
/// padding is zero.
pub open spec fn spec_read_frame(data: Seq<u8>, pos: int) -> Option<(Seq<u8>, int)> {
    if pos < 0 || pos + 8 > data.len() {
        None
    } else {
        let len = spec_le_value(data.subrange(pos, pos + 8)) as int;
        let pad = spec_pad_len(len);
        if pos + 8 + len + pad <= data.len() && (forall|m: int|
            pos + 8 + len <= m < pos + 8 + len + pad ==> data[m] == 0u8) {
            Some((data.subrange(pos + 8, pos + 8 + len), pos + 8 + len + pad))
        } else {
            None
        }
    }
}

/// Reads a framed byte string at `pos`: the length, the bytes, and zero
/// padding, which must be zero.
pub fn read_bytes_frame(data: &Vec<u8>, pos: usize) -> (r: Result<(Vec<u8>, usize), NarError>)
    ensures
        match r {
            Ok((b, end)) => pos < end <= data@.len() && data@.subrange(pos as int, end as int)
                == spec_frame_bytes(b@) && end == pos + 8 + b@.len() + spec_pad_len(
                b@.len() as int,
            ) && spec_read_frame(data@, pos as int) == Some((b@, end as int)),
            Err(_) => spec_read_frame(data@, pos as int) is None,
        },
{
    let total = data.len();
    let (len64, mut p) = read_le_u64(data, pos)?;
    if len64 > (usize::MAX as u64) {
        proof {
            assert(spec_le_value(data@.subrange(pos as int, pos + 8)) as int > usize::MAX);
        }
        return Err(NarError::ReadError { msg: String::from_str("length does not fit") });
    }
    let len: usize = len64 as usize;
    if len > data.len() || data.len() - len < p {
        return Err(NarError::ReadError { msg: String::from_str("unexpected end of archive") });
    }
    assert(p + len <= data@.len());
    let mut value: Vec<u8> = Vec::new();
    let mut k: usize = 0;
    while k < len
        invariant
            k <= len,
            len <= data@.len(),
            data@.len() <= usize::MAX,
            p + len <= data@.len(),
            value@.len() == k,
            forall|j: int| 0 <= j < k ==> #[trigger] value@[j] == data@[p + j],
        decreases len - k,
    {
        assert(p + k < data@.len());
        value.push(data[p + k]);
        k = k + 1;
    }
    let pad: usize = if len % 8 == 0 {
        0
    } else {
        8 - (len % 8)
    };
    if data.len() - (p + len) < pad {
        return Err(NarError::ReadError { msg: String::from_str("unexpected end of archive") });
    }
    assert(spec_pad_len(len as int) == pad);
    assert(p + len + pad <= data@.len());
    let mut j: usize = 0;
    while j < pad
        invariant
            j <= pad,
            pad <= 8,
            p == pos + 8,
            pad == spec_pad_len(len as int),
            pos + 8 <= data@.len(),
            spec_le_value(data@.subrange(pos as int, pos + 8)) == len as u64,
            data@.len() <= usize::MAX,
            p + len + pad <= data@.len(),
            forall|m: int| p + len <= m < p + len + j ==> #[trigger] data@[m] == 0u8,
        decreases pad - j,
    {
        assert(p + len + j < data@.len());
        if data[p + len + j] != 0 {
            proof {
                assert(!(forall|m: int|
                    pos + 8 + len <= m < pos + 8 + len + spec_pad_len(len as int) ==> data@[m]
                        == 0u8)) by {
                    assert(data@[p + len + j] != 0u8);
                }
            }
            return Err(NarError::ReadError { msg: String::from_str("padding is non zero") });
        }
        j = j + 1;
    }
    let end = p + len + pad;
    proof {
        lemma_le_round_trip(value@.len() as u64);
        assert(data@.subrange(pos as int, pos + 8) =~= spec_le_bytes(value@.len() as u64)) by {
            assert(spec_le_value(data@.subrange(pos as int, pos + 8)) == len64);
            assert(forall|m: int|
                0 <= m < 8 ==> #[trigger] spec_le_bytes(len64)[m] == spec_le_bytes(
                    value@.len() as u64,
                )[m]);
            assert(spec_le_bytes(len64) =~= spec_le_bytes(value@.len() as u64));
            lemma_le_bytes_inverse(data@.subrange(pos as int, pos + 8));
        }
        assert(data@.subrange(pos as int, end as int) =~= data@.subrange(pos as int, p as int)
            + data@.subrange(p as int, (p + len) as int) + data@.subrange(
            (p + len) as int,
            end as int,
        ));
        assert(data@.subrange(p as int, (p + len) as int) =~= value@);
        assert(data@.subrange((p + len) as int, end as int) =~= Seq::new(
            spec_pad_len(value@.len() as int) as nat,
            |i: int| 0u8,
        ));
        assert(data@.subrange(pos as int, end as int) =~= spec_frame_bytes(value@));
        assert(spec_read_frame(data@, pos as int) == Some((value@, end as int))) by {
            assert(spec_le_value(data@.subrange(pos as int, pos + 8)) as int == len as int);
            assert(data@.subrange(pos + 8, pos + 8 + len) =~= value@);
        }
    }
    Ok((value, end))
}

/// Reads a framed string at `pos`: the framed bytes read as text,
/// invalid UTF-8 replaced.
pub fn read_str_frame(data: &Vec<u8>, pos: usize) -> (r: Result<(String, usize), NarError>)
    ensures
        match r {
            Ok((s, end)) => pos + 8 <= end <= data@.len(),
            Err(_) => true,
        },
{
    let (b, end) = read_bytes_frame(data, pos)?;
    let s = crate::store::bytes_to_string_lossy(&b);
    Ok((s, end))
}

/// Reads a framed string that must be valid UTF-8. The consumed bytes
/// are then exactly the frame of the returned text, which is what lets
/// the parser pin the archive byte-for-byte.
pub fn read_text_frame(data: &Vec<u8>, pos: usize) -> (r: Result<(String, usize), NarError>)
    ensures
        match r {
            Ok((s, end)) => pos < end <= data@.len() && data@.subrange(pos as int, end as int)
                == spec_frame_str(s@) && spec_read_frame(data@, pos as int) == Some(
                (encode_utf8(s@), end as int),
            ),
            Err(_) => true,
        },
{
    let (b, end) = read_bytes_frame(data, pos)?;
    let ghost bv = b@;
    match crate::store::bytes_to_string(b) {
        Some(s) => {
            proof {
                broadcast use vstd::utf8::decode_utf8_encode_utf8;

                assert(encode_utf8(s@) == bv);
            }
            Ok((s, end))
        },
        None => Err(NarError::ReadError { msg: String::from_str("a marker is not text") }),
    }
}

/// Strict order carries over a middle string.
pub proof fn lemma_char_lt_trans(a: Seq<char>, b: Seq<char>, c: Seq<char>)
    requires
        char_seq_lt(a, b),
        char_seq_lt(b, c),
    ensures
        char_seq_lt(a, c),
    decreases a.len() + b.len() + c.len(),
{
    if b.len() == 0 {
    } else if a.len() == 0 {
    } else if c.len() == 0 {
    } else {
        if a[0] == b[0] && b[0] == c[0] {
            lemma_char_lt_trans(a.drop_first(), b.drop_first(), c.drop_first());
        }
    }
}

/// The serialized form of a tree node.
pub open spec fn spec_encode_node(t: NarV) -> Seq<u8>
    decreases t,
{
    match t {
        NarV::Regular { executable, contents } => spec_frame_str("("@) + spec_frame_str("type"@)
            + spec_frame_str("regular"@) + (if executable {
            spec_frame_str("executable"@) + spec_frame_str(""@)
        } else {
            Seq::<u8>::empty()
        }) + spec_frame_str("contents"@) + spec_frame_bytes(contents) + spec_frame_str(")"@),
        NarV::Symlink { target } => spec_frame_str("("@) + spec_frame_str("type"@)
            + spec_frame_str("symlink"@) + spec_frame_str("target"@) + spec_frame_str(target)
            + spec_frame_str(")"@),
        NarV::Directory { entries } => spec_frame_str("("@) + spec_frame_str("type"@)
            + spec_frame_str("directory"@) + spec_encode_entries(entries, entries.len() as int)
            + spec_frame_str(")"@),
    }
}

/// The serialized form of the first `k` directory entries.
pub open spec fn spec_encode_entries(entries: Seq<(Seq<char>, NarV)>, k: int) -> Seq<u8>
    decreases entries, k,
{
    if k <= 0 || k > entries.len() {
        Seq::empty()
    } else {
        spec_encode_entries(entries, k - 1) + spec_frame_str("entry"@) + spec_frame_str("("@)
            + spec_frame_str("name"@) + spec_frame_str(entries[k - 1].0) + spec_frame_str("node"@)
            + spec_encode_node(entries[k - 1].1) + spec_frame_str(")"@)
    }
}

/// The whole archive: the magic string, then the root node.
pub open spec fn spec_encode_archive(t: NarV) -> Seq<u8> {
    spec_frame_str(spec_nar_magic()) + spec_encode_node(t)
}

/// Appends a framed byte string.
pub fn write_bytes_frame(out: &mut Vec<u8>, b: &Vec<u8>)
    ensures
        final(out)@ == old(out)@ + spec_frame_bytes(b@),
{
    write_le_u64(out, b.len() as u64);
    let mut k: usize = 0;
    let ghost mid = out@;
    while k < b.len()
        invariant
            k <= b@.len(),
            out@ == mid + b@.take(k as int),
        decreases b@.len() - k,
    {
        out.push(b[k]);
        assert(out@ =~= mid + b@.take(k + 1));
        k = k + 1;
    }
    assert(b@.take(b@.len() as int) =~= b@);
    let pad: usize = if b.len() % 8 == 0 {
        0
    } else {
        8 - (b.len() % 8)
    };
    let mut j: usize = 0;
    let ghost mid2 = out@;
    while j < pad
        invariant
            j <= pad,
            out@ == mid2 + Seq::new(j as nat, |i: int| 0u8),
        decreases pad - j,
    {
        out.push(0);
        assert(out@ =~= mid2 + Seq::new(j as nat + 1, |i: int| 0u8));
        j = j + 1;
    }
    assert(out@ =~= old(out)@ + spec_frame_bytes(b@));
}

/// Appends a framed string.
pub fn write_str_frame(out: &mut Vec<u8>, s: &str)
    ensures
        final(out)@ == old(out)@ + spec_frame_str(s@),
{
    let b = s.as_bytes_vec();
    write_bytes_frame(out, &b);
}

impl NarNode {
    /// Serializes this node, appending to `out`. The tree must be
    /// well-formed; entries are emitted in their stored, ascending order.
    #[verifier::rlimit(100)]
    pub fn encode(&self, out: &mut Vec<u8>)
        ensures
            final(out)@ == old(out)@ + spec_encode_node(nar_view(*self)),
        decreases nar_size(*self),
    {
        match self {
            NarNode::Regular { executable, contents } => {
                write_str_frame(out, "(");
                write_str_frame(out, "type");
                write_str_frame(out, "regular");
                if *executable {
                    write_str_frame(out, "executable");
                    write_str_frame(out, "");
                }
                write_str_frame(out, "contents");
                write_bytes_frame(out, contents);
                write_str_frame(out, ")");
                assert(final(out)@ =~= old(out)@ + spec_encode_node(nar_view(*self)));
            },
            NarNode::Symlink { target } => {
                write_str_frame(out, "(");
                write_str_frame(out, "type");
                write_str_frame(out, "symlink");
                write_str_frame(out, "target");
                write_str_frame(out, target.as_str());
                write_str_frame(out, ")");
                assert(final(out)@ =~= old(out)@ + spec_encode_node(nar_view(*self)));
            },
            NarNode::Directory { entries } => {
                write_str_frame(out, "(");
                write_str_frame(out, "type");
                write_str_frame(out, "directory");
                proof {
                    lemma_nar_views_len(entries@, entries@.len() as int);
                }
                let ghost ev = nar_views_upto(entries@, entries@.len() as int);
                let ghost mid = out@;
                let mut i: usize = 0;
                while i < entries.len()
                    invariant
                        i <= entries@.len(),
                        ev == nar_views_upto(entries@, entries@.len() as int),
                        ev.len() == entries@.len(),
                        forall|k: int|
                            0 <= k < entries@.len() ==> #[trigger] ev[k] == (
                                entries@[k].0@,
                                nar_view(entries@[k].1),
                            ),
                        nar_size(*self) == 1 + nar_size_upto(entries@, entries@.len() as int),
                        out@ == mid + spec_encode_entries(ev, i as int),
                    decreases entries@.len() - i,
                {
                    write_str_frame(out, "entry");
                    write_str_frame(out, "(");
                    write_str_frame(out, "name");
                    write_str_frame(out, entries[i].0.as_str());
                    write_str_frame(out, "node");
                    proof {
                        lemma_nar_size_elem(entries@, entries@.len() as int, i as int);
                    }
                    entries[i].1.encode(out);
                    write_str_frame(out, ")");
                    assert(out@ =~= mid + spec_encode_entries(ev, i + 1));
                    i = i + 1;
                }
                write_str_frame(out, ")");
                assert(final(out)@ =~= old(out)@ + spec_encode_node(nar_view(*self)));
            },
        }
    }
}

proof fn lemma_nar_views_len(s: Seq<(String, NarNode)>, k: int)
    requires
        0 <= k <= s.len(),
    ensures
        nar_views_upto(s, k).len() == k,
        forall|i: int|
            0 <= i < k ==> #[trigger] nar_views_upto(s, k)[i] == (s[i].0@, nar_view(s[i].1)),
    decreases k,
{
    if k > 0 {
        lemma_nar_views_len(s, k - 1);
    }
}


/// What parsing produced: the archive's digest and its byte count.
#[derive(Debug)]
pub struct NarResult {
    pub hash: crate::hash::Hash,
    pub len: u64,
}

/// The files a restored tree writes, in write order: path, content,
/// executable bit.
pub open spec fn spec_restore_files(t: NarV, base: Seq<char>) -> Seq<(Seq<char>, Seq<u8>, bool)>
    decreases t,
{
    match t {
        NarV::Regular { executable, contents } => seq![(base, contents, executable)],
        NarV::Symlink { .. } => Seq::empty(),
        NarV::Directory { entries } => spec_restore_files_upto(entries, base, entries.len() as int),
    }
}

/// The files of the first `k` entries.
pub open spec fn spec_restore_files_upto(
    entries: Seq<(Seq<char>, NarV)>,
    base: Seq<char>,
    k: int,
) -> Seq<(Seq<char>, Seq<u8>, bool)>
    decreases entries, k,
{
    if k <= 0 || k > entries.len() {
        Seq::empty()
    } else {
        spec_restore_files_upto(entries, base, k - 1) + spec_restore_files(
            entries[k - 1].1,
            base + seq!['/'] + entries[k - 1].0,
        )
    }
}

/// The symlinks a restored tree records, in order.
pub open spec fn spec_restore_links(t: NarV, base: Seq<char>) -> Seq<(Seq<char>, Seq<char>)>
    decreases t,
{
    match t {
        NarV::Regular { .. } => Seq::empty(),
        NarV::Symlink { target } => seq![(base, target)],
        NarV::Directory { entries } => spec_restore_links_upto(entries, base, entries.len() as int),
    }
}

/// The symlinks of the first `k` entries.
pub open spec fn spec_restore_links_upto(
    entries: Seq<(Seq<char>, NarV)>,
    base: Seq<char>,
    k: int,
) -> Seq<(Seq<char>, Seq<char>)>
    decreases entries, k,
{
    if k <= 0 || k > entries.len() {
        Seq::empty()
    } else {
        spec_restore_links_upto(entries, base, k - 1) + spec_restore_links(
            entries[k - 1].1,
            base + seq!['/'] + entries[k - 1].0,
        )
    }
}

/// The directories a restored tree records, parents first.
pub open spec fn spec_restore_dirs(t: NarV, base: Seq<char>) -> Seq<Seq<char>>
    decreases t,
{
    match t {
        NarV::Regular { .. } => Seq::empty(),
        NarV::Symlink { .. } => Seq::empty(),
        NarV::Directory { entries } => seq![base] + spec_restore_dirs_upto(
            entries,
            base,
            entries.len() as int,
        ),
    }
}

/// The directories of the first `k` entries.
pub open spec fn spec_restore_dirs_upto(
    entries: Seq<(Seq<char>, NarV)>,
    base: Seq<char>,
    k: int,
) -> Seq<Seq<char>>
    decreases entries, k,
{
    if k <= 0 || k > entries.len() {
        Seq::empty()
    } else {
        spec_restore_dirs_upto(entries, base, k - 1) + spec_restore_dirs(
            entries[k - 1].1,
            base + seq!['/'] + entries[k - 1].0,
        )
    }
}

impl NarNode {
    /// Writes this tree into an in-memory store under `base`: directories
    /// first, then their entries in order.
    pub fn restore(&self, store: &mut MockStore, base: &str)
        ensures
            crate::store::mock_files_view(final(store).files@) == crate::store::mock_files_view(
                old(store).files@,
            ) + spec_restore_files(nar_view(*self), base@),
            crate::store::mock_links_view(final(store).symlinks@)
                == crate::store::mock_links_view(old(store).symlinks@) + spec_restore_links(
                nar_view(*self),
                base@,
            ),
            crate::store::mock_dirs_view(final(store).dirs@) == crate::store::mock_dirs_view(
                old(store).dirs@,
            ) + spec_restore_dirs(nar_view(*self), base@),
        decreases nar_size(*self),
    {
        match self {
            NarNode::Regular { executable, contents } => {
                store.write_file(base, contents.as_slice(), *executable);
                proof {
                    lemma_mock_views_push(old(store), store);
                    assert(crate::store::mock_files_view(store.files@)
                        =~= crate::store::mock_files_view(old(store).files@) + spec_restore_files(
                        nar_view(*self),
                        base@,
                    ));
                    assert(crate::store::mock_links_view(store.symlinks@)
                        =~= crate::store::mock_links_view(old(store).symlinks@));
                    assert(crate::store::mock_dirs_view(store.dirs@)
                        =~= crate::store::mock_dirs_view(old(store).dirs@));
                }
            },
            NarNode::Symlink { target } => {
                store.make_symlink(base, target.as_str());
                proof {
                    lemma_mock_views_push(old(store), store);
                    assert(crate::store::mock_links_view(store.symlinks@)
                        =~= crate::store::mock_links_view(old(store).symlinks@)
                        + spec_restore_links(nar_view(*self), base@));
                    assert(crate::store::mock_files_view(store.files@)
                        =~= crate::store::mock_files_view(old(store).files@));
                    assert(crate::store::mock_dirs_view(store.dirs@)
                        =~= crate::store::mock_dirs_view(old(store).dirs@));
                }
            },
            NarNode::Directory { entries } => {
                store.make_directory(base);
                proof {
                    lemma_mock_views_push(old(store), store);
                    lemma_nar_views_len(entries@, entries@.len() as int);
                    assert(crate::store::mock_dirs_view(store.dirs@)
                        =~= crate::store::mock_dirs_view(old(store).dirs@) + seq![base@]);
                    assert(crate::store::mock_files_view(store.files@)
                        =~= crate::store::mock_files_view(old(store).files@));
                    assert(crate::store::mock_links_view(store.symlinks@)
                        =~= crate::store::mock_links_view(old(store).symlinks@));
                }
                let ghost ev = nar_views_upto(entries@, entries@.len() as int);
                let ghost files0 = crate::store::mock_files_view(store.files@);
                let ghost links0 = crate::store::mock_links_view(store.symlinks@);
                let ghost dirs0 = crate::store::mock_dirs_view(store.dirs@);
                let mut i: usize = 0;
                while i < entries.len()
                    invariant
                        i <= entries@.len(),
                        ev == nar_views_upto(entries@, entries@.len() as int),
                        ev.len() == entries@.len(),
                        forall|k: int|
                            0 <= k < entries@.len() ==> #[trigger] ev[k] == (
                                entries@[k].0@,
                                nar_view(entries@[k].1),
                            ),
                        nar_size(*self) == 1 + nar_size_upto(entries@, entries@.len() as int),
                        crate::store::mock_files_view(store.files@) == files0
                            + spec_restore_files_upto(ev, base@, i as int),
                        crate::store::mock_links_view(store.symlinks@) == links0
                            + spec_restore_links_upto(ev, base@, i as int),
                        crate::store::mock_dirs_view(store.dirs@) == dirs0
                            + spec_restore_dirs_upto(ev, base@, i as int),
                    decreases entries@.len() - i,
                {
                    let mut child_base = base.to_owned();
                    crate::strutil::push_char(&mut child_base, '/');
                    child_base.append(entries[i].0.as_str());
                    assert(child_base@ =~= base@ + seq!['/'] + entries@[i as int].0@);
                    proof {
                        lemma_nar_size_elem(entries@, entries@.len() as int, i as int);
                    }
                    let ghost pre_files = crate::store::mock_files_view(store.files@);
                    let ghost pre_links = crate::store::mock_links_view(store.symlinks@);
                    let ghost pre_dirs = crate::store::mock_dirs_view(store.dirs@);
                    entries[i].1.restore(store, child_base.as_str());
                    proof {
                        assert(crate::store::mock_files_view(store.files@) =~= files0
                            + spec_restore_files_upto(ev, base@, i + 1));
                        assert(crate::store::mock_links_view(store.symlinks@) =~= links0
                            + spec_restore_links_upto(ev, base@, i + 1));
                        assert(crate::store::mock_dirs_view(store.dirs@) =~= dirs0
                            + spec_restore_dirs_upto(ev, base@, i + 1));
                    }
                    i = i + 1;
                }
                proof {
                    assert(crate::store::mock_files_view(store.files@)
                        =~= crate::store::mock_files_view(old(store).files@)
                        + spec_restore_files(nar_view(*self), base@));
                    assert(crate::store::mock_links_view(store.symlinks@)
                        =~= crate::store::mock_links_view(old(store).symlinks@)
                        + spec_restore_links(nar_view(*self), base@));
                    assert(crate::store::mock_dirs_view(store.dirs@)
                        =~= crate::store::mock_dirs_view(old(store).dirs@) + spec_restore_dirs(
                        nar_view(*self),
                        base@,
                    ));
                }
            },
        }
    }
}

/// One record appended to a mock store leaves the earlier records as they
/// were, at the level of views.
proof fn lemma_mock_views_push(a: &MockStore, b: &MockStore)
    requires
        a.files@.len() <= b.files@.len(),
        b.files@.len() <= a.files@.len() + 1,
        forall|i: int| 0 <= i < a.files@.len() ==> b.files@[i] == a.files@[i],
        a.symlinks@.len() <= b.symlinks@.len(),
        b.symlinks@.len() <= a.symlinks@.len() + 1,
        forall|i: int| 0 <= i < a.symlinks@.len() ==> b.symlinks@[i] == a.symlinks@[i],
        a.dirs@.len() <= b.dirs@.len(),
        b.dirs@.len() <= a.dirs@.len() + 1,
        forall|i: int| 0 <= i < a.dirs@.len() ==> b.dirs@[i] == a.dirs@[i],
    ensures
        forall|i: int|
            0 <= i < a.files@.len() ==> #[trigger] crate::store::mock_files_view(b.files@)[i]
                == crate::store::mock_files_view(a.files@)[i],
        forall|i: int|
            0 <= i < a.symlinks@.len() ==> #[trigger] crate::store::mock_links_view(
                b.symlinks@,
            )[i] == crate::store::mock_links_view(a.symlinks@)[i],
        forall|i: int|
            0 <= i < a.dirs@.len() ==> #[trigger] crate::store::mock_dirs_view(b.dirs@)[i]
                == crate::store::mock_dirs_view(a.dirs@)[i],
{
}

/// Parses one node at `pos`, following the archive grammar in its fixed
/// order, and returns the tree with the next unread position. A parse
/// pins the bytes: what was consumed is exactly the serialization of the
/// returned tree, which is well-formed — entry names acceptable and
/// strictly ascending.
pub fn parse_node(data: &Vec<u8>, pos: usize) -> (r: Result<(NarNode, usize), NarError>)
    ensures
        match r {
            Ok((node, end)) => pos < end <= data@.len() && nar_wf(nar_view(node))
                && data@.subrange(pos as int, end as int) == spec_encode_node(nar_view(node)),
            Err(_) => true,
        },
    decreases data@.len() - pos, 1int,
{
    let (open, p1) = read_text_frame(data, pos)?;
    if !crate::strutil::str_eq(open.as_str(), "(") {
        return Err(NarError::MissingOpenTag);
    }
    let (type_key, p2) = read_text_frame(data, p1)?;
    if !crate::strutil::str_eq(type_key.as_str(), "type") {
        return Err(NarError::InvalidState);
    }
    let (type_val, p3) = read_text_frame(data, p2)?;
    let ghost head = data@.subrange(pos as int, p3 as int);
    proof {
        assert(head =~= data@.subrange(pos as int, p1 as int) + data@.subrange(
            p1 as int,
            p2 as int,
        ) + data@.subrange(p2 as int, p3 as int));
    }
    match Type::from_text(type_val.as_str()) {
        Type::Unknown => Err(NarError::UnknownFileType { file: type_val }),
        Type::Regular => {
            proof {
                assert(head =~= spec_frame_str("("@) + spec_frame_str("type"@) + spec_frame_str(
                    "regular"@,
                ));
            }
            parse_regular_tail(data, Ghost(pos), p3)
        },
        Type::Symlink => {
            proof {
                assert(head =~= spec_frame_str("("@) + spec_frame_str("type"@) + spec_frame_str(
                    "symlink"@,
                ));
            }
            parse_symlink_tail(data, Ghost(pos), p3)
        },
        Type::Directory => {
            proof {
                assert(head =~= spec_frame_str("("@) + spec_frame_str("type"@) + spec_frame_str(
                    "directory"@,
                ));
            }
            parse_directory_tail(data, Ghost(pos), p3)
        },
    }
}

/// The rest of a regular node, after `( type regular`.
#[verifier::rlimit(100)]
fn parse_regular_tail(data: &Vec<u8>, Ghost(pos): Ghost<usize>, p3: usize) -> (r: Result<
    (NarNode, usize),
    NarError,
>)
    requires
        pos < p3 <= data@.len(),
        data@.subrange(pos as int, p3 as int) == spec_frame_str("("@) + spec_frame_str("type"@)
            + spec_frame_str("regular"@),
    ensures
        match r {
            Ok((node, end)) => pos < end <= data@.len() && nar_wf(nar_view(node))
                && data@.subrange(pos as int, end as int) == spec_encode_node(nar_view(node)),
            Err(_) => true,
        },
{
    let (s4, p4) = read_text_frame(data, p3)?;
    let executable: bool;
    let contents_key: String;
    let pk: usize;
    if crate::strutil::str_eq(s4.as_str(), "executable") {
        let (marker, p5) = read_text_frame(data, p4)?;
        if !marker.as_str().is_empty() {
            return Err(NarError::InvalidExecutableMarker);
        }
        proof {
            assert(marker@ =~= Seq::<char>::empty());
            assert(marker@ =~= ""@) by {
                reveal_strlit("");
            }
        }
        let (s6, p6) = read_text_frame(data, p5)?;
        executable = true;
        contents_key = s6;
        pk = p6;
        proof {
            assert(data@.subrange(p3 as int, pk as int) =~= data@.subrange(p3 as int, p4 as int)
                + data@.subrange(p4 as int, p5 as int) + data@.subrange(p5 as int, pk as int));
            assert(data@.subrange(p3 as int, pk as int) =~= spec_frame_str("executable"@)
                + spec_frame_str(""@) + spec_frame_str(contents_key@));
        }
    } else {
        executable = false;
        contents_key = s4;
        pk = p4;
    }
    if !crate::strutil::str_eq(contents_key.as_str(), "contents") {
        return Err(NarError::InvalidState);
    }
    let (contents, p7) = read_bytes_frame(data, pk)?;
    let (close, p8) = read_text_frame(data, p7)?;
    if !crate::strutil::str_eq(close.as_str(), ")") {
        return Err(NarError::InvalidState);
    }
    let node = NarNode::Regular { executable, contents };
    proof {
        assert(data@.subrange(pos as int, p8 as int) =~= data@.subrange(pos as int, p3 as int)
            + data@.subrange(p3 as int, pk as int) + data@.subrange(pk as int, p7 as int)
            + data@.subrange(p7 as int, p8 as int));
        if !executable {
            assert(data@.subrange(p3 as int, pk as int) =~= spec_frame_str("contents"@));
        }
        assert(data@.subrange(pos as int, p8 as int) =~= spec_encode_node(nar_view(node)));
    }
    Ok((node, p8))
}

/// The rest of a symlink node, after `( type symlink`.
#[verifier::rlimit(100)]
fn parse_symlink_tail(data: &Vec<u8>, Ghost(pos): Ghost<usize>, p3: usize) -> (r: Result<
    (NarNode, usize),
    NarError,
>)
    requires
        pos < p3 <= data@.len(),
        data@.subrange(pos as int, p3 as int) == spec_frame_str("("@) + spec_frame_str("type"@)
            + spec_frame_str("symlink"@),
    ensures
        match r {
            Ok((node, end)) => pos < end <= data@.len() && nar_wf(nar_view(node))
                && data@.subrange(pos as int, end as int) == spec_encode_node(nar_view(node)),
            Err(_) => true,
        },
{
    let (target_key, p4) = read_text_frame(data, p3)?;
    if !crate::strutil::str_eq(target_key.as_str(), "target") {
        return Err(NarError::InvalidSymlinkMarker { marker: target_key });
    }
    let (target, p5) = read_text_frame(data, p4)?;
    let (close, p6) = read_text_frame(data, p5)?;
    if !crate::strutil::str_eq(close.as_str(), ")") {
        return Err(NarError::InvalidState);
    }
    let node = NarNode::Symlink { target };
    proof {
        assert(data@.subrange(pos as int, p6 as int) =~= data@.subrange(pos as int, p3 as int)
            + data@.subrange(p3 as int, p4 as int) + data@.subrange(p4 as int, p5 as int)
            + data@.subrange(p5 as int, p6 as int));
        assert(data@.subrange(pos as int, p6 as int) =~= spec_encode_node(nar_view(node)));
    }
    Ok((node, p6))
}

/// One directory entry, after its `entry` keyword: the framed `(`,
/// `name`, the name itself, `node`, the child node, and the closing
/// marker. The name must be acceptable and sort strictly after
/// `prev_name`.
/// One directory entry's bytes are its six frames in order.
proof fn lemma_entry_assemble(
    data: Seq<u8>,
    q: int,
    q2: int,
    q3: int,
    q4: int,
    q5: int,
    q6: int,
    q7: int,
    name: Seq<char>,
    child: NarV,
)
    requires
        0 <= q <= q2 <= q3 <= q4 <= q5 <= q6 <= q7 <= data.len(),
        data.subrange(q, q2) == spec_frame_str("("@),
        data.subrange(q2, q3) == spec_frame_str("name"@),
        data.subrange(q3, q4) == spec_frame_str(name),
        data.subrange(q4, q5) == spec_frame_str("node"@),
        data.subrange(q5, q6) == spec_encode_node(child),
        data.subrange(q6, q7) == spec_frame_str(")"@),
    ensures
        data.subrange(q, q7) == spec_frame_str("("@) + spec_frame_str("name"@) + spec_frame_str(
            name,
        ) + spec_frame_str("node"@) + spec_encode_node(child) + spec_frame_str(")"@),
{
    assert(data.subrange(q, q3) =~= data.subrange(q, q2) + data.subrange(q2, q3));
    assert(data.subrange(q, q4) =~= data.subrange(q, q3) + data.subrange(q3, q4));
    assert(data.subrange(q, q5) =~= data.subrange(q, q4) + data.subrange(q4, q5));
    assert(data.subrange(q, q6) =~= data.subrange(q, q5) + data.subrange(q5, q6));
    assert(data.subrange(q, q7) =~= data.subrange(q, q6) + data.subrange(q6, q7));
    assert(data.subrange(q, q7) =~= spec_frame_str("("@) + spec_frame_str("name"@)
        + spec_frame_str(name) + spec_frame_str("node"@) + spec_encode_node(child)
        + spec_frame_str(")"@));
}

#[verifier::spinoff_prover]
#[verifier::rlimit(100)]
fn parse_entry_tail(data: &Vec<u8>, q: usize, prev_name: &str) -> (r: Result<
    ((String, NarNode), usize),
    NarError,
>)
    requires
        q <= data@.len(),
    ensures
        match r {
            Ok(((name, child), end)) => q < end <= data@.len() && spec_entry_name_ok(name@)
                && char_seq_lt(prev_name@, name@) && nar_wf(nar_view(child)) && data@.subrange(
                q as int,
                end as int,
            ) == spec_frame_str("("@) + spec_frame_str("name"@) + spec_frame_str(name@)
                + spec_frame_str("node"@) + spec_encode_node(nar_view(child)) + spec_frame_str(
                ")"@,
            ),
            Err(_) => true,
        },
    decreases data@.len() - q, 0int,
{
    let (open2, q2) = read_text_frame(data, q)?;
    if !crate::strutil::str_eq(open2.as_str(), "(") {
        return Err(NarError::MissingOpenTag);
    }
    let (name_key, q3) = read_text_frame(data, q2)?;
    if !crate::strutil::str_eq(name_key.as_str(), "name") {
        return Err(NarError::InvalidState);
    }
    let (name, q4) = read_text_frame(data, q3)?;
    if name.as_str().is_empty() || crate::strutil::str_eq(name.as_str(), ".")
        || crate::strutil::str_eq(name.as_str(), "..") || name_has_bad_char(name.as_str()) {
        return Err(NarError::InvalidFileName { name });
    }
    if !str_lt(prev_name, name.as_str()) {
        return Err(NarError::NotSorted);
    }
    let (node_key, q5) = read_text_frame(data, q4)?;
    if !crate::strutil::str_eq(node_key.as_str(), "node") {
        return Err(NarError::InvalidState);
    }
    let (child, q6) = parse_node(data, q5)?;
    let (close2, q7) = read_text_frame(data, q6)?;
    if !crate::strutil::str_eq(close2.as_str(), ")") {
        return Err(NarError::InvalidState);
    }
    proof {
        lemma_entry_assemble(
            data@,
            q as int,
            q2 as int,
            q3 as int,
            q4 as int,
            q5 as int,
            q6 as int,
            q7 as int,
            name@,
            nar_view(child),
        );
    }
    Ok(((name, child), q7))
}

/// Appending one parsed entry extends the encoded-entries prefix by the
/// entry's own serialization.
#[verifier::rlimit(100)]
proof fn lemma_entries_step(
    data: Seq<u8>,
    p3: int,
    pre_p: int,
    q: int,
    q7: int,
    pre_entries: Seq<(String, NarNode)>,
    entries: Seq<(String, NarNode)>,
)
    requires
        0 <= p3 <= pre_p <= q <= q7 <= data.len(),
        entries.len() == pre_entries.len() + 1,
        forall|i: int| 0 <= i < pre_entries.len() ==> entries[i] == pre_entries[i],
        data.subrange(p3, pre_p) == spec_encode_entries(
            nar_views_upto(pre_entries, pre_entries.len() as int),
            pre_entries.len() as int,
        ),
        data.subrange(pre_p, q) == spec_frame_str("entry"@),
        data.subrange(q, q7) == spec_frame_str("("@) + spec_frame_str("name"@) + spec_frame_str(
            entries.last().0@,
        ) + spec_frame_str("node"@) + spec_encode_node(nar_view(entries.last().1))
            + spec_frame_str(")"@),
    ensures
        data.subrange(p3, q7) == spec_encode_entries(
            nar_views_upto(entries, entries.len() as int),
            entries.len() as int,
        ),
{
    lemma_nar_views_len(pre_entries, pre_entries.len() as int);
    lemma_nar_views_len(entries, entries.len() as int);
    let evs = nar_views_upto(entries, entries.len() as int);
    let pre_evs = nar_views_upto(pre_entries, pre_entries.len() as int);
    assert(forall|k: int| 0 <= k < pre_entries.len() ==> #[trigger] evs[k] == pre_evs[k]);
    lemma_encode_entries_prefix(evs, pre_evs, pre_entries.len() as int);
    assert(evs.last() == (entries.last().0@, nar_view(entries.last().1)));
    assert(spec_encode_entries(evs, entries.len() as int) == spec_encode_entries(
        evs,
        pre_entries.len() as int,
    ) + spec_frame_str("entry"@) + spec_frame_str("("@) + spec_frame_str("name"@)
        + spec_frame_str(evs.last().0) + spec_frame_str("node"@) + spec_encode_node(
        evs.last().1,
    ) + spec_frame_str(")"@));
    assert(data.subrange(p3, q7) =~= data.subrange(p3, pre_p) + data.subrange(pre_p, q)
        + data.subrange(q, q7));
    assert(data.subrange(p3, q7) =~= spec_encode_entries(evs, entries.len() as int));
}

/// A directory node's bytes are its head, its encoded entries, and the
/// closing marker.
proof fn lemma_directory_assemble(
    data: Seq<u8>,
    pos: int,
    p3: int,
    pre: int,
    end: int,
    entries: Seq<(String, NarNode)>,
)
    requires
        0 <= pos <= p3 <= pre <= end <= data.len(),
        data.subrange(pos, p3) == spec_frame_str("("@) + spec_frame_str("type"@)
            + spec_frame_str("directory"@),
        data.subrange(p3, pre) == spec_encode_entries(
            nar_views_upto(entries, entries.len() as int),
            entries.len() as int,
        ),
        data.subrange(pre, end) == spec_frame_str(")"@),
    ensures
        data.subrange(pos, end) == spec_encode_node(
            NarV::Directory { entries: nar_views_upto(entries, entries.len() as int) },
        ),
{
    lemma_nar_views_len(entries, entries.len() as int);
    let evs = nar_views_upto(entries, entries.len() as int);
    assert(data.subrange(pos, end) =~= data.subrange(pos, p3) + data.subrange(p3, pre)
        + data.subrange(pre, end));
    assert(spec_encode_node(NarV::Directory { entries: evs }) == spec_frame_str("("@)
        + spec_frame_str("type"@) + spec_frame_str("directory"@) + spec_encode_entries(
        evs,
        evs.len() as int,
    ) + spec_frame_str(")"@));
    assert(data.subrange(pos, end) =~= spec_encode_node(NarV::Directory { entries: evs }));
}

/// The entries of a directory node, after `( type directory`, up to and
/// including the closing marker.
#[verifier::rlimit(100)]
fn parse_directory_tail(data: &Vec<u8>, Ghost(pos): Ghost<usize>, p3: usize) -> (r: Result<
    (NarNode, usize),
    NarError,
>)
    requires
        pos < p3 <= data@.len(),
        data@.subrange(pos as int, p3 as int) == spec_frame_str("("@) + spec_frame_str("type"@)
            + spec_frame_str("directory"@),
    ensures
        match r {
            Ok((node, end)) => pos < end <= data@.len() && nar_wf(nar_view(node))
                && data@.subrange(pos as int, end as int) == spec_encode_node(nar_view(node)),
            Err(_) => true,
        },
    decreases data@.len() - p3, 0int,
{
    let mut entries: Vec<(String, NarNode)> = Vec::new();
    let mut prev_name = String::new();
    let mut p: usize = p3;
    let ghost dlen = data@.len();
    proof {
        lemma_nar_views_len(entries@, 0);
        assert(data@.subrange(p3 as int, p3 as int) =~= Seq::<u8>::empty());
        assert(data@.subrange(p3 as int, p3 as int) =~= spec_encode_entries(
            nar_views_upto(entries@, entries@.len() as int),
            entries@.len() as int,
        ));
    }
    loop
        invariant
            pos < p3 <= p <= dlen,
            dlen == data@.len(),
            data@.subrange(pos as int, p3 as int) == spec_frame_str("("@) + spec_frame_str(
                "type"@,
            ) + spec_frame_str("directory"@),
            data@.subrange(p3 as int, p as int) == spec_encode_entries(
                nar_views_upto(entries@, entries@.len() as int),
                entries@.len() as int,
            ),
            forall|k: int|
                0 <= k < entries@.len() ==> spec_entry_name_ok(
                    (#[trigger] entries@[k]).0@,
                ) && nar_wf(nar_view(entries@[k].1)),
            forall|k: int|
                0 <= k < entries@.len() - 1 ==> char_seq_lt(
                    (#[trigger] entries@[k]).0@,
                    entries@[k + 1].0@,
                ),
            entries@.len() > 0 ==> entries@.last().0@ == prev_name@,
        decreases dlen - p,
    {
        let (s, q) = read_text_frame(data, p)?;
        if crate::strutil::str_eq(s.as_str(), ")") {
            let end = q;
            let ghost pre = p;
            let node = NarNode::Directory { entries };
            proof {
                lemma_directory_assemble(
                    data@,
                    pos as int,
                    p3 as int,
                    pre as int,
                    end as int,
                    node->Directory_entries@,
                );
                let es = node->Directory_entries@;
                lemma_nar_views_len(es, es.len() as int);
                let evs = nar_views_upto(es, es.len() as int);
                assert forall|k: int| 0 <= k < evs.len() implies spec_entry_name_ok(
                    (#[trigger] evs[k]).0,
                ) && nar_wf(evs[k].1) by {
                    assert(evs[k] == (es[k].0@, nar_view(es[k].1)));
                }
                assert forall|k: int| 0 <= k < evs.len() - 1 implies char_seq_lt(
                    (#[trigger] evs[k]).0,
                    evs[k + 1].0,
                ) by {
                    assert(evs[k] == (es[k].0@, nar_view(es[k].1)));
                    assert(evs[k + 1] == (es[k + 1].0@, nar_view(es[k + 1].1)));
                }
                assert(nar_wf(nar_view(node)));
            }
            return Ok((node, end));
        }
        if !crate::strutil::str_eq(s.as_str(), "entry") {
            return Err(NarError::InvalidState);
        }
        let ((name, child), q7) = parse_entry_tail(data, q, prev_name.as_str())?;
        prev_name = name.as_str().to_owned();
        let ghost pre_entries = entries@;
        let ghost pre_p = p;
        entries.push((name, child));
        proof {
            lemma_entries_step(
                data@,
                p3 as int,
                pre_p as int,
                q as int,
                q7 as int,
                pre_entries,
                entries@,
            );
        }
        p = q7;
    }
}

/// Two entry lists that agree on their first `k` elements encode their
/// first `k` entries alike.
proof fn lemma_encode_entries_prefix(a: Seq<(Seq<char>, NarV)>, b: Seq<(Seq<char>, NarV)>, k: int)
    requires
        k <= a.len(),
        k <= b.len(),
        forall|i: int| 0 <= i < k ==> a[i] == b[i],
    ensures
        spec_encode_entries(a, k) == spec_encode_entries(b, k),
    decreases k,
{
    if k > 0 {
        lemma_encode_entries_prefix(a, b, k - 1);
    }
}

fn name_has_bad_char(s: &str) -> (r: bool)
    ensures
        r == !(forall|i: int| 0 <= i < s@.len() ==> s@[i] != '/' && s@[i] != '\u{0}'),
{
    let n = s.unicode_len();
    let mut i: usize = 0;
    while i < n
        invariant
            i <= n,
            n == s@.len(),
            forall|k: int| 0 <= k < i ==> s@[k] != '/' && s@[k] != '\u{0}',
        decreases n - i,
    {
        let c = s.get_char(i);
        if c == '/' || c == '\u{0}' {
            return true;
        }
        i = i + 1;
    }
    false
}

/// Parses a whole archive into an in-memory store under `base_path`.
/// On success the consumed prefix is exactly the serialization of one
/// well-formed tree; the store gains exactly that tree's files, symlinks
/// and directories; and the result carries the SHA-256 digest and length
/// of that whole prefix. A failed parse leaves the store untouched.
pub fn parse_into(base_path: &str, data: &Vec<u8>, store: &mut MockStore) -> (r: Result<
    NarResult,
    NarError,
>)
    ensures
        match r {
            Ok(res) => res.len <= data@.len() && res.hash@ == crate::hash::HashV::Sha256(
                crate::hash::sha256_of(data@.take(res.len as int)),
            ) && (exists|t: NarV|
                {
                    &&& nar_wf(t)
                    &&& data@.take(res.len as int) == #[trigger] spec_encode_archive(t)
                    &&& crate::store::mock_files_view(final(store).files@)
                        == crate::store::mock_files_view(old(store).files@) + spec_restore_files(
                        t,
                        base_path@,
                    )
                    &&& crate::store::mock_links_view(final(store).symlinks@)
                        == crate::store::mock_links_view(old(store).symlinks@)
                        + spec_restore_links(t, base_path@)
                    &&& crate::store::mock_dirs_view(final(store).dirs@)
                        == crate::store::mock_dirs_view(old(store).dirs@) + spec_restore_dirs(
                        t,
                        base_path@,
                    )
                }),
            Err(_) => *final(store) == *old(store),
        },
{
    let (magic, p) = match read_text_frame(data, 0) {
        Ok(v) => v,
        Err(e) => {
            return Err(e);
        },
    };
    if !crate::strutil::str_eq(magic.as_str(), "nix-archive-1") {
        return Err(NarError::NotAArchive);
    }
    let (node, end) = match parse_node(data, p) {
        Ok(v) => v,
        Err(e) => {
            return Err(e);
        },
    };
    node.restore(store, base_path);
    let mut consumed: Vec<u8> = Vec::new();
    let mut k: usize = 0;
    while k < end
        invariant
            k <= end,
            end <= data@.len(),
            consumed@.len() == k,
            consumed@ == data@.take(k as int),
        decreases end - k,
    {
        consumed.push(data[k]);
        assert(consumed@ =~= data@.take(k + 1));
        k = k + 1;
    }
    let digest = crate::hash::sha256_digest(consumed.as_slice());
    let hash = crate::hash::Hash::SHA256(digest);
    proof {
        let t = nar_view(node);
        assert(data@.take(end as int) =~= data@.subrange(0, p as int) + data@.subrange(
            p as int,
            end as int,
        ));
        assert(data@.take(end as int) =~= spec_encode_archive(t));
    }
    Ok(NarResult { hash, len: end as u64 })
}

} // verus!