//! Small string helpers: the one trusted bridge to `String::push`, and a
//! verified decimal renderer for unsigned numbers.

use vstd::prelude::*;

verus! {

/// Relies on String::push: appends the given character to the end of the string.
#[verifier::external_body]
pub fn push_char(s: &mut String, c: char)
    ensures
        final(s)@ == old(s)@.push(c),
{
    s.push(c);
}

/// The decimal digits of `n`, most significant first.
pub open spec fn spec_decimal(n: int) -> Seq<char>
    decreases n,
{
    if n < 0 {
        Seq::empty()
    } else if n < 10 {
        seq![spec_digit_char(n)]
    } else {
        spec_decimal(n / 10).push(spec_digit_char(n % 10))
    }
}

/// The character for one decimal digit.
pub open spec fn spec_digit_char(d: int) -> char {
    if d == 0 {
        '0'
    } else if d == 1 {
        '1'
    } else if d == 2 {
        '2'
    } else if d == 3 {
        '3'
    } else if d == 4 {
        '4'
    } else if d == 5 {
        '5'
    } else if d == 6 {
        '6'
    } else if d == 7 {
        '7'
    } else if d == 8 {
        '8'
    } else {
        '9'
    }
}

fn digit_char(d: u64) -> (c: char)
    requires
        d < 10,
    ensures
        c == spec_digit_char(d as int),
{
    match d {
        0 => '0',
        1 => '1',
        2 => '2',
        3 => '3',
        4 => '4',
        5 => '5',
        6 => '6',
        7 => '7',
        8 => '8',
        _ => '9',
    }
}

/// Renders `n` in decimal, without sign or leading zeros.
pub fn u64_to_string(n: u64) -> (s: String)
    ensures
        s@ == spec_decimal(n as int),
    decreases n,
{
    if n < 10 {
        let mut s = String::new();
        push_char(&mut s, digit_char(n));
        assert(s@ =~= spec_decimal(n as int));
        s
    } else {
        let mut s = u64_to_string(n / 10);
        push_char(&mut s, digit_char(n % 10));
        s
    }
}

/// Whether two string slices hold the same characters.
pub fn str_eq(a: &str, b: &str) -> (r: bool)
    ensures
        r == (a@ == b@),
{
    let alen = a.unicode_len();
    let blen = b.unicode_len();
    if alen != blen {
        assert(a@ != b@);
        return false;
    }
    let mut i: usize = 0;
    while i < alen
        invariant
            i <= alen,
            alen == a@.len(),
            alen == b@.len(),
            forall|k: int| 0 <= k < i ==> a@[k] == b@[k],
        decreases alen - i,
    {
        if a.get_char(i) != b.get_char(i) {
            assert(a@ != b@);
            return false;
        }
        i = i + 1;
    }
    assert(a@ =~= b@);
    true
}

/// Whether `s` starts with `prefix`.
pub open spec fn spec_starts_with(s: Seq<char>, prefix: Seq<char>) -> bool {
    prefix.len() <= s.len() && s.take(prefix.len() as int) == prefix
}

/// Whether `s` ends with `suffix`.
pub open spec fn spec_ends_with(s: Seq<char>, suffix: Seq<char>) -> bool {
    suffix.len() <= s.len() && s.skip(s.len() - suffix.len()) == suffix
}

pub fn starts_with(s: &str, prefix: &str) -> (r: bool)
    ensures
        r == spec_starts_with(s@, prefix@),
{
    let plen = prefix.unicode_len();
    let slen = s.unicode_len();
    if plen > slen {
        return false;
    }
    let mut i: usize = 0;
    while i < plen
        invariant
            i <= plen,
            plen == prefix@.len(),
            slen == s@.len(),
            plen <= slen,
            forall|k: int| 0 <= k < i ==> s@[k] == prefix@[k],
        decreases plen - i,
    {
        if s.get_char(i) != prefix.get_char(i) {
            assert(s@.take(plen as int)[i as int] != prefix@[i as int]);
            return false;
        }
        i = i + 1;
    }
    assert(s@.take(plen as int) =~= prefix@);
    true
}

pub fn ends_with(s: &str, suffix: &str) -> (r: bool)
    ensures
        r == spec_ends_with(s@, suffix@),
{
    let xlen = suffix.unicode_len();
    let slen = s.unicode_len();
    if xlen > slen {
        return false;
    }
    let off = slen - xlen;
    let mut i: usize = 0;
    while i < xlen
        invariant
            i <= xlen,
            xlen == suffix@.len(),
            slen == s@.len(),
            off == slen - xlen,
            forall|k: int| 0 <= k < i ==> s@[off + k] == suffix@[k],
        decreases xlen - i,
    {
        if s.get_char(off + i) != suffix.get_char(i) {
            assert(s@.skip(off as int)[i as int] != suffix@[i as int]);
            return false;
        }
        i = i + 1;
    }
    assert(s@.skip(off as int) =~= suffix@);
    true
}

/// Splitting on a separator, the piece being gathered carried along.
pub open spec fn spec_split_rec(s: Seq<char>, sep: char, cur: Seq<char>) -> Seq<Seq<char>>
    decreases s.len(),
{
    if s.len() == 0 {
        seq![cur]
    } else if s[0] == sep {
        seq![cur] + spec_split_rec(s.drop_first(), sep, Seq::empty())
    } else {
        spec_split_rec(s.drop_first(), sep, cur.push(s[0]))
    }
}

/// The pieces of `s` between occurrences of `sep`. The empty string gives
/// one empty piece, as the standard splitter does.
pub open spec fn spec_split(s: Seq<char>, sep: char) -> Seq<Seq<char>> {
    spec_split_rec(s, sep, Seq::empty())
}

/// Splits `s` at every occurrence of `sep`.
pub fn split_char(s: &str, sep: char) -> (r: Vec<String>)
    ensures
        r.deep_view() == spec_split(s@, sep),
        r@.len() >= 1,
{
    let slen = s.unicode_len();
    let mut done: Vec<String> = Vec::new();
    let mut cur = String::new();
    let mut i: usize = 0;
    proof {
        lemma_split_rec_len(s@, sep, Seq::empty());
        assert(s@.skip(0) =~= s@);
        assert(done.deep_view() =~= Seq::<Seq<char>>::empty());
        assert(done.deep_view() + spec_split_rec(s@, sep, cur@) =~= spec_split_rec(
            s@,
            sep,
            cur@,
        ));
    }
    while i < slen
        invariant
            i <= slen,
            slen == s@.len(),
            spec_split(s@, sep) == done.deep_view() + spec_split_rec(
                s@.skip(i as int),
                sep,
                cur@,
            ),
        decreases slen - i,
    {
        let c = s.get_char(i);
        assert(s@.skip(i as int)[0] == s@[i as int]);
        assert(s@.skip(i as int).drop_first() =~= s@.skip(i + 1));
        if c == sep {
            done.push(cur);
            cur = String::new();
            assert(done.deep_view() =~= done.deep_view());
        } else {
            push_char(&mut cur, c);
        }
        i = i + 1;
        assert(done.deep_view() + spec_split_rec(s@.skip(i as int), sep, cur@)
            =~= spec_split(s@, sep)) by {
            assert(spec_split(s@, sep) == done.deep_view() + spec_split_rec(
                s@.skip(i as int),
                sep,
                cur@,
            ));
        }
    }
    assert(s@.skip(slen as int) =~= Seq::<char>::empty());
    done.push(cur);
    proof {
        lemma_split_rec_len(s@, sep, Seq::empty());
        assert(done.deep_view() =~= spec_split(s@, sep));
    }
    done
}

proof fn lemma_split_rec_len(s: Seq<char>, sep: char, cur: Seq<char>)
    ensures
        spec_split_rec(s, sep, cur).len() >= 1,
    decreases s.len(),
{
    if s.len() == 0 {
    } else if s[0] == sep {
    } else {
        lemma_split_rec_len(s.drop_first(), sep, cur.push(s[0]));
    }
}

/// An ASCII whitespace character.
pub open spec fn spec_is_space(c: char) -> bool {
    c == ' ' || c == '\t' || c == '\r' || c == '\n'
}

/// `s` with leading whitespace removed.
pub open spec fn spec_trim_start(s: Seq<char>) -> Seq<char>
    decreases s.len(),
{
    if s.len() > 0 && spec_is_space(s[0]) {
        spec_trim_start(s.drop_first())
    } else {
        s
    }
}

/// `s` with trailing whitespace removed.
pub open spec fn spec_trim_end(s: Seq<char>) -> Seq<char>
    decreases s.len(),
{
    if s.len() > 0 && spec_is_space(s.last()) {
        spec_trim_end(s.drop_last())
    } else {
        s
    }
}

/// `s` with whitespace removed at both ends.
pub open spec fn spec_trim(s: Seq<char>) -> Seq<char> {
    spec_trim_end(spec_trim_start(s))
}

fn is_space(c: char) -> (r: bool)
    ensures
        r == spec_is_space(c),
{
    c == ' ' || c == '\t' || c == '\r' || c == '\n'
}

/// Removes ASCII whitespace from both ends of `s`.
pub fn trim(s: &str) -> (r: String)
    ensures
        r@ == spec_trim(s@),
{
    let n = s.unicode_len();
    let mut lo: usize = 0;
    assert(s@.skip(0) =~= s@);
    while lo < n && is_space(s.get_char(lo))
        invariant
            lo <= n,
            n == s@.len(),
            spec_trim_start(s@) == spec_trim_start(s@.skip(lo as int)),
        decreases n - lo,
    {
        assert(s@.skip(lo as int)[0] == s@[lo as int]);
        assert(s@.skip(lo as int).drop_first() =~= s@.skip(lo + 1));
        lo = lo + 1;
    }
    proof {
        if lo < n {
            assert(s@.skip(lo as int)[0] == s@[lo as int]);
        }
        assert(spec_trim_start(s@) =~= s@.skip(lo as int));
    }
    let mut hi: usize = n;
    assert(s@.skip(lo as int).take(n - lo as int) =~= s@.skip(lo as int));
    while hi > lo && is_space(s.get_char(hi - 1))
        invariant
            lo <= hi <= n,
            n == s@.len(),
            spec_trim_start(s@) == s@.skip(lo as int),
            spec_trim_end(s@.skip(lo as int)) == spec_trim_end(
                s@.skip(lo as int).take(hi - lo as int),
            ),
        decreases hi,
    {
        assert(s@.skip(lo as int).take(hi - lo as int).last() == s@[hi - 1]);
        assert(s@.skip(lo as int).take(hi - lo as int).drop_last() =~= s@.skip(lo as int).take(
            hi - 1 - lo as int,
        ));
        hi = hi - 1;
    }
    proof {
        let piece = s@.skip(lo as int).take(hi - lo as int);
        if hi > lo {
            assert(piece.last() == s@[hi - 1]);
        }
        assert(spec_trim_end(piece) =~= piece);
    }
    let r = s.substring_char(lo, hi);
    assert(r@ =~= s@.skip(lo as int).take(hi - lo as int));
    r.to_owned()
}

/// The lines of `s`: pieces between newlines, a final empty piece dropped,
/// a trailing carriage return stripped from each line.
pub open spec fn spec_lines(s: Seq<char>) -> Seq<Seq<char>> {
    let ps = spec_split(s, '\n');
    let ps2 = if ps.len() > 0 && ps.last().len() == 0 {
        ps.drop_last()
    } else {
        ps
    };
    ps2.map_values(
        |p: Seq<char>|
            if p.len() > 0 && p.last() == '\r' {
                p.drop_last()
            } else {
                p
            },
    )
}

/// Splits `s` into lines.
pub fn lines_of(s: &str) -> (r: Vec<String>)
    ensures
        r.deep_view() == spec_lines(s@),
{
    let mut ps = split_char(s, '\n');
    let last_empty = ps[ps.len() - 1].as_str().is_empty();
    if last_empty {
        let _ = ps.pop();
    }
    let ghost ps2 = ps.deep_view();
    let mut out: Vec<String> = Vec::new();
    let mut i: usize = 0;
    while i < ps.len()
        invariant
            i <= ps@.len(),
            ps.deep_view() == ps2,
            ps2.len() == ps@.len(),
            out@.len() == i,
            forall|k: int|
                0 <= k < i ==> (#[trigger] out@[k])@ == (if ps2[k].len() > 0 && ps2[k].last()
                    == '\r' {
                    ps2[k].drop_last()
                } else {
                    ps2[k]
                }),
        decreases ps@.len() - i,
    {
        let line = &ps[i];
        let llen = line.as_str().unicode_len();
        assert(line@ == ps2[i as int]);
        if llen > 0 && line.as_str().get_char(llen - 1) == '\r' {
            let cut = line.as_str().substring_char(0, llen - 1);
            assert(cut@ =~= ps2[i as int].drop_last());
            out.push(cut.to_owned());
        } else {
            out.push(line.as_str().to_owned());
        }
        i = i + 1;
    }
    proof {
        let target = ps2.map_values(
            |p: Seq<char>|
                if p.len() > 0 && p.last() == '\r' {
                    p.drop_last()
                } else {
                    p
                },
        );
        assert forall|k: int| 0 <= k < out@.len() implies out.deep_view()[k] == target[k] by {
            assert(out.deep_view()[k] == out@[k]@);
        }
        assert(out.deep_view() =~= target);
    }
    out
}

/// Splitting on the two-character separator `c1 c2`, the piece being
/// gathered carried along.
pub open spec fn spec_split2_rec(
    s: Seq<char>,
    c1: char,
    c2: char,
    cur: Seq<char>,
) -> Seq<Seq<char>>
    decreases s.len(),
{
    if s.len() == 0 {
        seq![cur]
    } else if s.len() >= 2 && s[0] == c1 && s[1] == c2 {
        seq![cur] + spec_split2_rec(s.skip(2), c1, c2, Seq::empty())
    } else {
        spec_split2_rec(s.drop_first(), c1, c2, cur.push(s[0]))
    }
}

/// The pieces of `s` between occurrences of the two-character separator.
pub open spec fn spec_split2(s: Seq<char>, c1: char, c2: char) -> Seq<Seq<char>> {
    spec_split2_rec(s, c1, c2, Seq::empty())
}

/// Splits `s` at every occurrence of the two-character separator `c1 c2`.
pub fn split_str2(s: &str, c1: char, c2: char) -> (r: Vec<String>)
    ensures
        r.deep_view() == spec_split2(s@, c1, c2),
        r@.len() >= 1,
{
    let slen = s.unicode_len();
    let mut done: Vec<String> = Vec::new();
    let mut cur = String::new();
    let mut i: usize = 0;
    proof {
        lemma_split2_rec_len(s@, c1, c2, Seq::empty());
        assert(s@.skip(0) =~= s@);
        assert(done.deep_view() =~= Seq::<Seq<char>>::empty());
        assert(done.deep_view() + spec_split2_rec(s@, c1, c2, cur@) =~= spec_split2_rec(
            s@,
            c1,
            c2,
            cur@,
        ));
    }
    while i < slen
        invariant
            i <= slen,
            slen == s@.len(),
            spec_split2(s@, c1, c2) == done.deep_view() + spec_split2_rec(
                s@.skip(i as int),
                c1,
                c2,
                cur@,
            ),
        decreases slen - i,
    {
        let c = s.get_char(i);
        assert(s@.skip(i as int)[0] == s@[i as int]);
        if c == c1 && i + 1 < slen && s.get_char(i + 1) == c2 {
            assert(s@.skip(i as int)[1] == s@[i + 1]);
            assert(s@.skip(i as int).skip(2) =~= s@.skip(i + 2));
            done.push(cur);
            cur = String::new();
            i = i + 2;
        } else {
            assert(s@.skip(i as int).drop_first() =~= s@.skip(i + 1));
            proof {
                if s@.skip(i as int).len() >= 2 {
                    assert(s@.skip(i as int)[1] == s@[i + 1]);
                }
            }
            push_char(&mut cur, c);
            i = i + 1;
        }
        assert(done.deep_view() + spec_split2_rec(s@.skip(i as int), c1, c2, cur@)
            =~= spec_split2(s@, c1, c2)) by {
            assert(spec_split2(s@, c1, c2) == done.deep_view() + spec_split2_rec(
                s@.skip(i as int),
                c1,
                c2,
                cur@,
            ));
        }
    }
    assert(s@.skip(slen as int) =~= Seq::<char>::empty());
    done.push(cur);
    proof {
        assert(done.deep_view() =~= spec_split2(s@, c1, c2));
    }
    done
}

proof fn lemma_split2_rec_len(s: Seq<char>, c1: char, c2: char, cur: Seq<char>)
    ensures
        spec_split2_rec(s, c1, c2, cur).len() >= 1,
    decreases s.len(),
{
    if s.len() == 0 {
    } else if s.len() >= 2 && s[0] == c1 && s[1] == c2 {
    } else {
        lemma_split2_rec_len(s.drop_first(), c1, c2, cur.push(s[0]));
    }
}

/// Pieces joined with commas between them.
pub open spec fn spec_join_comma(items: Seq<Seq<char>>) -> Seq<char>
    decreases items.len(),
{
    if items.len() == 0 {
        Seq::empty()
    } else if items.len() == 1 {
        items[0]
    } else {
        spec_join_comma(items.drop_last()) + seq![','] + items.last()
    }
}

/// The value of a decimal digit character, if it is one.
pub open spec fn spec_dec_val(c: char) -> Option<u8> {
    if c == '0' {
        Some(0u8)
    } else if c == '1' {
        Some(1u8)
    } else if c == '2' {
        Some(2u8)
    } else if c == '3' {
        Some(3u8)
    } else if c == '4' {
        Some(4u8)
    } else if c == '5' {
        Some(5u8)
    } else if c == '6' {
        Some(6u8)
    } else if c == '7' {
        Some(7u8)
    } else if c == '8' {
        Some(8u8)
    } else if c == '9' {
        Some(9u8)
    } else {
        None
    }
}

/// The number a digit string names, read from the front.
pub open spec fn spec_dec_value(s: Seq<char>) -> int
    decreases s.len(),
{
    if s.len() == 0 {
        0
    } else {
        spec_dec_value(s.drop_last()) * 10 + spec_dec_val(s.last()).unwrap_or(0u8)
    }
}

/// Whether every character of `s` is a decimal digit.
pub open spec fn spec_all_digits(s: Seq<char>) -> bool {
    forall|i: int| 0 <= i < s.len() ==> spec_dec_val(s[i]).is_some()
}

fn dec_val(c: char) -> (d: Option<u8>)
    ensures
        d == spec_dec_val(c),
{
    match c {
        '0' => Some(0),
        '1' => Some(1),
        '2' => Some(2),
        '3' => Some(3),
        '4' => Some(4),
        '5' => Some(5),
        '6' => Some(6),
        '7' => Some(7),
        '8' => Some(8),
        '9' => Some(9),
        _ => None,
    }
}

/// Reads a decimal number. Fails on the empty string, on a character that
/// is not a digit, and on a value that does not fit in a `u64`.
pub fn parse_u64(s: &str) -> (r: Option<u64>)
    ensures
        match r {
            Some(v) => s@.len() > 0 && spec_all_digits(s@) && v == spec_dec_value(s@),
            None => s@.len() == 0 || !spec_all_digits(s@) || spec_dec_value(s@) > u64::MAX,
        },
{
    let slen = s.unicode_len();
    if slen == 0 {
        return None;
    }
    let mut acc: u64 = 0;
    let mut i: usize = 0;
    while i < slen
        invariant
            i <= slen,
            slen == s@.len(),
            spec_all_digits(s@.take(i as int)),
            acc == spec_dec_value(s@.take(i as int)),
        decreases slen - i,
    {
        let c = s.get_char(i);
        let d = match dec_val(c) {
            Some(d) => d,
            None => {
                assert(!spec_all_digits(s@)) by {
                    assert(spec_dec_val(s@[i as int]).is_none());
                }
                return None;
            },
        };
        assert(s@.take(i + 1).drop_last() =~= s@.take(i as int));
        assert(s@.take(i + 1).last() == s@[i as int]);
        if acc > (u64::MAX - (d as u64)) / 10 {
            proof {
                lemma_dec_value_grows(s@.take(i + 1), s@);
            }
            return None;
        }
        acc = acc * 10 + (d as u64);
        i = i + 1;
        assert(forall|k: int| 0 <= k < i ==> s@.take(i as int)[k] == s@[k]);
    }
    assert(s@.take(slen as int) =~= s@);
    Some(acc)
}

proof fn lemma_dec_value_grows(p: Seq<char>, s: Seq<char>)
    requires
        p.len() <= s.len(),
        p =~= s.take(p.len() as int),
        spec_dec_value(p) > u64::MAX,
    ensures
        spec_dec_value(s) > u64::MAX,
    decreases s.len() - p.len(),
{
    if p.len() == s.len() {
        assert(p =~= s);
    } else {
        let q = s.take(p.len() as int + 1);
        assert(q.drop_last() =~= s.take(p.len() as int));
        assert(spec_dec_value(q) == spec_dec_value(p) * 10 + spec_dec_val(q.last()).unwrap_or(
            0u8,
        ));
        lemma_dec_value_grows(q, s);
    }
}

} // verus!
