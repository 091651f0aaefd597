//! The store's own base-32 codec for path hashes.
//!
//! The alphabet is the 32 symbols `0123456789abcdfghijklmnpqrsvwxyz`
//! (`e`, `o`, `t` and `u` are left out). Encoding writes the most
//! significant part of the byte string first; decoding reverses it and
//! rejects characters outside the alphabet and non-zero leftover bits.

use vstd::prelude::*;

use crate::error::StoreError;
use crate::strutil::push_char;

verus! {

/// The character standing for one 5-bit digit.
pub open spec fn digit_char(d: u8) -> char {
    if d == 0 {
        '0'
    } else if d == 1 {
        '1'
    } else if d == 2 {
        '2'
    } else if d == 3 {
        '3'
    } else if d == 4 {
        '4'
    } else if d == 5 {
        '5'
    } else if d == 6 {
        '6'
    } else if d == 7 {
        '7'
    } else if d == 8 {
        '8'
    } else if d == 9 {
        '9'
    } else if d == 10 {
        'a'
    } else if d == 11 {
        'b'
    } else if d == 12 {
        'c'
    } else if d == 13 {
        'd'
    } else if d == 14 {
        'f'
    } else if d == 15 {
        'g'
    } else if d == 16 {
        'h'
    } else if d == 17 {
        'i'
    } else if d == 18 {
        'j'
    } else if d == 19 {
        'k'
    } else if d == 20 {
        'l'
    } else if d == 21 {
        'm'
    } else if d == 22 {
        'n'
    } else if d == 23 {
        'p'
    } else if d == 24 {
        'q'
    } else if d == 25 {
        'r'
    } else if d == 26 {
        's'
    } else if d == 27 {
        'v'
    } else if d == 28 {
        'w'
    } else if d == 29 {
        'x'
    } else if d == 30 {
        'y'
    } else {
        'z'
    }
}

/// The 5-bit digit a character stands for, if any.
pub open spec fn digit_of_char(c: char) -> Option<u8> {
    if c == '0' {
        Some(0u8)
    } else if c == '1' {
        Some(1u8)
    } else if c == '2' {
        Some(2u8)
    } else if c == '3' {
        Some(3u8)
    } else if c == '4' {
        Some(4u8)
    } else if c == '5' {
        Some(5u8)
    } else if c == '6' {
        Some(6u8)
    } else if c == '7' {
        Some(7u8)
    } else if c == '8' {
        Some(8u8)
    } else if c == '9' {
        Some(9u8)
    } else if c == 'a' {
        Some(10u8)
    } else if c == 'b' {
        Some(11u8)
    } else if c == 'c' {
        Some(12u8)
    } else if c == 'd' {
        Some(13u8)
    } else if c == 'f' {
        Some(14u8)
    } else if c == 'g' {
        Some(15u8)
    } else if c == 'h' {
        Some(16u8)
    } else if c == 'i' {
        Some(17u8)
    } else if c == 'j' {
        Some(18u8)
    } else if c == 'k' {
        Some(19u8)
    } else if c == 'l' {
        Some(20u8)
    } else if c == 'm' {
        Some(21u8)
    } else if c == 'n' {
        Some(22u8)
    } else if c == 'p' {
        Some(23u8)
    } else if c == 'q' {
        Some(24u8)
    } else if c == 'r' {
        Some(25u8)
    } else if c == 's' {
        Some(26u8)
    } else if c == 'v' {
        Some(27u8)
    } else if c == 'w' {
        Some(28u8)
    } else if c == 'x' {
        Some(29u8)
    } else if c == 'y' {
        Some(30u8)
    } else if c == 'z' {
        Some(31u8)
    } else {
        None
    }
}

/// Number of characters in the encoding of `n` bytes.
pub open spec fn encoded_len(n: int) -> int {
    if n == 0 {
        0
    } else {
        (n * 8 - 1) / 5 + 1
    }
}

/// The 5-bit digit with index `n` (counted from the least significant end)
/// of a byte string read as one little-endian bit string.
pub open spec fn digit_at(bytes: Seq<u8>, n: int) -> u8 {
    let b = n * 5;
    let i = b / 8;
    let j = (b % 8) as u8;
    let lo = bytes[i] >> j;
    let hi: u8 = if j > 3 && i + 1 < bytes.len() {
        bytes[i + 1] << ((8 - j) as u8)
    } else {
        0u8
    };
    (lo | hi) & 0x1f
}

/// The encoding of a byte string: digits from the most significant down.
pub open spec fn spec_encode(bytes: Seq<u8>) -> Seq<char> {
    Seq::new(encoded_len(bytes.len() as int) as nat, |k: int|
        digit_char(digit_at(bytes, encoded_len(bytes.len() as int) - 1 - k)))
}

/// One decoding step: fold digit `n` into the byte accumulator, or report
/// that a bit fell outside the byte string.
pub open spec fn apply_digit(acc: Seq<u8>, digit: u8, n: int) -> Option<Seq<u8>> {
    let b = n * 5;
    let i = b / 8;
    let j = (b % 8) as u8;
    let low = if i < acc.len() {
        Some(acc.update(i, acc[i] | (digit << j)))
    } else if digit == 0 {
        Some(acc)
    } else {
        None
    };
    match low {
        None => None,
        Some(acc1) => {
            if j > 3 {
                if i + 1 < acc1.len() {
                    Some(acc1.update(i + 1, acc1[i + 1] | (digit >> ((8 - j) as u8))))
                } else if digit >> ((8 - j) as u8) == 0 {
                    Some(acc1)
                } else {
                    None
                }
            } else {
                Some(acc1)
            }
        },
    }
}

/// Decoding from digit `n` on, starting from accumulator `acc`.
pub open spec fn spec_decode_rec(s: Seq<char>, n: int, acc: Seq<u8>) -> Option<Seq<u8>>
    decreases s.len() - n,
{
    if n >= s.len() {
        Some(acc)
    } else {
        match digit_of_char(s[s.len() - 1 - n]) {
            None => None,
            Some(d) => match apply_digit(acc, d, n) {
                None => None,
                Some(acc2) => spec_decode_rec(s, n + 1, acc2),
            },
        }
    }
}

/// The decoding of a character string: `None` on a character outside the
/// alphabet or on non-zero leftover bits.
pub open spec fn spec_decode(s: Seq<char>) -> Option<Seq<u8>> {
    spec_decode_rec(s, 0, Seq::new((s.len() * 5 / 8) as nat, |i: int| 0u8))
}

fn encode_digit_char(d: u8) -> (c: char)
    requires
        d < 32,
    ensures
        c == digit_char(d),
{
    match d {
        0 => '0',
        1 => '1',
        2 => '2',
        3 => '3',
        4 => '4',
        5 => '5',
        6 => '6',
        7 => '7',
        8 => '8',
        9 => '9',
        10 => 'a',
        11 => 'b',
        12 => 'c',
        13 => 'd',
        14 => 'f',
        15 => 'g',
        16 => 'h',
        17 => 'i',
        18 => 'j',
        19 => 'k',
        20 => 'l',
        21 => 'm',
        22 => 'n',
        23 => 'p',
        24 => 'q',
        25 => 'r',
        26 => 's',
        27 => 'v',
        28 => 'w',
        29 => 'x',
        30 => 'y',
        _ => 'z',
    }
}

fn decode_digit_char(c: char) -> (d: Option<u8>)
    ensures
        d == digit_of_char(c),
{
    match c {
        '0' => Some(0),
        '1' => Some(1),
        '2' => Some(2),
        '3' => Some(3),
        '4' => Some(4),
        '5' => Some(5),
        '6' => Some(6),
        '7' => Some(7),
        '8' => Some(8),
        '9' => Some(9),
        'a' => Some(10),
        'b' => Some(11),
        'c' => Some(12),
        'd' => Some(13),
        'f' => Some(14),
        'g' => Some(15),
        'h' => Some(16),
        'i' => Some(17),
        'j' => Some(18),
        'k' => Some(19),
        'l' => Some(20),
        'm' => Some(21),
        'n' => Some(22),
        'p' => Some(23),
        'q' => Some(24),
        'r' => Some(25),
        's' => Some(26),
        'v' => Some(27),
        'w' => Some(28),
        'x' => Some(29),
        'y' => Some(30),
        'z' => Some(31),
        _ => None,
    }
}

fn exec_digit_at(bytes: &Vec<u8>, n: usize) -> (d: u8)
    requires
        n * 5 / 8 < bytes@.len(),
        bytes@.len() * 8 <= usize::MAX,
    ensures
        d == digit_at(bytes@, n as int),
        d < 32,
{
    let b: usize = n * 5;
    let i: usize = b / 8;
    let j: u8 = (b % 8) as u8;
    let lo: u8 = bytes[i] >> j;
    let hi: u8 = if j > 3 && i + 1 < bytes.len() {
        bytes[i + 1] << (8 - j)
    } else {
        0
    };
    let d = (lo | hi) & 0x1f;
    assert((lo | hi) & 0x1f < 32) by (bit_vector);
    d
}

/// Encodes a byte string into the store's base-32 alphabet.
pub fn encode(bytes: &Vec<u8>) -> (s: String)
    requires
        bytes@.len() * 8 <= usize::MAX,
    ensures
        s@ == spec_encode(bytes@),
{
    let ghost total = encoded_len(bytes@.len() as int);
    let mut s = String::new();
    if bytes.len() == 0 {
        assert(s@ =~= spec_encode(bytes@));
        return s;
    }
    let len: usize = (bytes.len() * 8 - 1) / 5 + 1;
    let mut n: usize = len;
    while n > 0
        invariant
            total == encoded_len(bytes@.len() as int),
            bytes@.len() >= 1,
            bytes@.len() * 8 <= usize::MAX,
            len == total,
            n <= len,
            s@ =~= spec_encode(bytes@).take(len - n),
        decreases n,
    {
        n = n - 1;
        assert(n * 5 / 8 < bytes@.len()) by (nonlinear_arith)
            requires
                bytes@.len() >= 1,
                n < encoded_len(bytes@.len() as int),
                encoded_len(bytes@.len() as int) == (bytes@.len() * 8 - 1) / 5 + 1,
        ;
        let d = exec_digit_at(bytes, n);
        push_char(&mut s, encode_digit_char(d));
        assert(s@ =~= spec_encode(bytes@).take(len - n));
    }
    assert(s@ =~= spec_encode(bytes@));
    s
}

/// Decodes a string in the store's base-32 alphabet back into bytes.
///
/// Fails on a character outside the alphabet and on non-zero bits beyond
/// the decoded byte string.
pub fn decode(s: &str) -> (r: Result<Vec<u8>, StoreError>)
    requires
        s@.len() * 5 <= usize::MAX,
    ensures
        match r {
            Ok(b) => spec_decode(s@) == Some(b@),
            Err(_) => spec_decode(s@) == None::<Seq<u8>>,
        },
{
    let s_len = s.unicode_len();
    assert(s_len * 5 / 8 <= s_len) by (nonlinear_arith);
    let byte_len: usize = s_len * 5 / 8;
    let mut acc: Vec<u8> = Vec::new();
    let mut k: usize = 0;
    while k < byte_len
        invariant
            k <= byte_len,
            acc@.len() == k,
            forall|i: int| 0 <= i < k ==> acc@[i] == 0u8,
        decreases byte_len - k,
    {
        acc.push(0);
        k = k + 1;
    }
    assert(acc@ =~= Seq::new((s@.len() * 5 / 8) as nat, |i: int| 0u8));

    let mut n: usize = 0;
    while n < s_len
        invariant
            n <= s_len,
            s_len == s@.len(),
            s_len * 5 <= usize::MAX,
            s_len * 5 / 8 <= s_len,
            acc@.len() == s@.len() * 5 / 8,
            spec_decode(s@) == spec_decode_rec(s@, n as int, acc@),
        decreases s_len - n,
    {
        let c = s.get_char(s_len - 1 - n);
        let d = match decode_digit_char(c) {
            Some(d) => d,
            None => {
                return Err(StoreError::HashDecodeError {
                    error: String::from_str("base32: character outside the alphabet"),
                });
            },
        };
        assert(n * 5 <= s_len * 5) by (nonlinear_arith)
            requires
                n <= s_len,
        ;
        let b: usize = n * 5;
        assert(b / 8 <= b) by (nonlinear_arith);
        let i: usize = b / 8;
        let j: u8 = (b % 8) as u8;
        if i < acc.len() {
            let merged: u8 = acc[i] | (d << j);
            acc.set(i, merged);
        } else if d != 0 {
            return Err(StoreError::HashDecodeError {
                error: String::from_str("base32: non-zero bits past the end"),
            });
        }
        if j > 3 {
            let carry: u8 = d >> (8 - j);
            if i + 1 < acc.len() {
                let merged: u8 = acc[i + 1] | carry;
                acc.set(i + 1, merged);
            } else if carry != 0 {
                return Err(StoreError::HashDecodeError {
                    error: String::from_str("base32: non-zero bits past the end"),
                });
            }
        }
        n = n + 1;
    }
    Ok(acc)
}

} // verus!
