//! The derivation lexer: the textual `.drv` form cut into tokens.
//!
//! Tokens are the literal `Derive`, the four brackets, the comma, and
//! double-quoted strings in which a backslash keeps itself and the
//! character after it. Whitespace between tokens is not permitted.

use vstd::prelude::*;

use crate::error::StoreError;

verus! {

/// The mathematical value of a token.
pub enum TokV {
    Start,
    LParen,
    RParen,
    LBracket,
    RBracket,
    Comma,
    Str(Seq<char>),
}

/// One token of the derivation grammar.
#[derive(Debug, PartialEq, Eq, Clone)]
pub enum TokType {
    StartToken,
    LParen,
    RParen,
    LBracket,
    RBracket,
    Comma,
    String(String),
}

impl View for TokType {
    type V = TokV;

    open spec fn view(&self) -> TokV {
        match self {
            TokType::StartToken => TokV::Start,
            TokType::LParen => TokV::LParen,
            TokType::RParen => TokV::RParen,
            TokType::LBracket => TokV::LBracket,
            TokType::RBracket => TokV::RBracket,
            TokType::Comma => TokV::Comma,
            TokType::String(s) => TokV::Str(s@),
        }
    }
}

impl DeepView for TokType {
    type V = TokV;

    open spec fn deep_view(&self) -> TokV {
        self.view()
    }
}

/// Whether `c` may follow `D` in the start token.
pub open spec fn spec_deriv_char(c: char) -> bool {
    c == 'e' || c == 'r' || c == 'i' || c == 'v'
}

/// The first position at or after `i` whose character may not follow `D`.
pub open spec fn spec_scan_word(s: Seq<char>, i: int) -> int
    decreases s.len() - i,
{
    if i < 0 || i >= s.len() || !spec_deriv_char(s[i]) {
        i
    } else {
        spec_scan_word(s, i + 1)
    }
}

/// Scans a quoted string from position `i` (just after the opening
/// quote), gathering characters into `acc`. A backslash keeps itself and
/// the next character; the string ends at a bare quote or at the end of
/// the input; a backslash at the very end cannot be read.
pub open spec fn spec_scan_string(s: Seq<char>, i: int, acc: Seq<char>) -> Option<(Seq<char>, int)>
    decreases s.len() - i,
{
    if i < 0 || i >= s.len() {
        Some((acc, i))
    } else if s[i] == '"' {
        Some((acc, i + 1))
    } else if s[i] == '\\' {
        if i + 1 < s.len() {
            spec_scan_string(s, i + 2, acc.push(s[i]).push(s[i + 1]))
        } else {
            None
        }
    } else {
        spec_scan_string(s, i + 1, acc.push(s[i]))
    }
}

/// The token string of a derivation text, or nothing when a character
/// fits no token.
pub open spec fn spec_lex(s: Seq<char>) -> Option<Seq<TokV>>
    decreases s.len(),
{
    if s.len() == 0 {
        Some(Seq::empty())
    } else if s[0] == 'D' {
        let j = spec_scan_word(s, 1);
        if 1 <= j <= s.len() && s.take(j) == "Derive"@ {
            match spec_lex(s.skip(j)) {
                Option::None => None,
                Option::Some(ts) => Some(seq![TokV::Start] + ts),
            }
        } else {
            None
        }
    } else if s[0] == '(' {
        match spec_lex(s.drop_first()) {
            Option::None => None,
            Option::Some(ts) => Some(seq![TokV::LParen] + ts),
        }
    } else if s[0] == ')' {
        match spec_lex(s.drop_first()) {
            Option::None => None,
            Option::Some(ts) => Some(seq![TokV::RParen] + ts),
        }
    } else if s[0] == '[' {
        match spec_lex(s.drop_first()) {
            Option::None => None,
            Option::Some(ts) => Some(seq![TokV::LBracket] + ts),
        }
    } else if s[0] == ']' {
        match spec_lex(s.drop_first()) {
            Option::None => None,
            Option::Some(ts) => Some(seq![TokV::RBracket] + ts),
        }
    } else if s[0] == ',' {
        match spec_lex(s.drop_first()) {
            Option::None => None,
            Option::Some(ts) => Some(seq![TokV::Comma] + ts),
        }
    } else if s[0] == '"' {
        match spec_scan_string(s, 1, Seq::empty()) {
            Option::None => None,
            Option::Some((lit, j)) => if 1 <= j <= s.len() {
                match spec_lex(s.skip(j)) {
                    Option::None => None,
                    Option::Some(ts) => Some(seq![TokV::Str(lit)] + ts),
                }
            } else {
                None
            },
        }
    } else {
        None
    }
}

/// Prepends the finished tokens to an optional tail.
pub open spec fn spec_lex_app(done: Seq<TokV>, rest: Option<Seq<TokV>>) -> Option<Seq<TokV>> {
    match rest {
        Option::None => None,
        Option::Some(ts) => Some(done + ts),
    }
}

fn deriv_char(c: char) -> (r: bool)
    ensures
        r == spec_deriv_char(c),
{
    c == 'e' || c == 'r' || c == 'i' || c == 'v'
}

impl TokType {
    /// Lexes a whole derivation text.
    pub fn parse(drv: &str) -> (r: Result<Vec<TokType>, StoreError>)
        ensures
            match r {
                Ok(ts) => spec_lex(drv@) == Some(ts.deep_view()),
                Err(_) => spec_lex(drv@) is None,
            },
    {
        let n = drv.unicode_len();
        let mut out: Vec<TokType> = Vec::new();
        let mut i: usize = 0;
        proof {
            assert(drv@.skip(0) =~= drv@);
            assert(out.deep_view() =~= Seq::<TokV>::empty());
            assert(spec_lex_app(out.deep_view(), spec_lex(drv@)) =~~= spec_lex(drv@));
        }
        while i < n
            invariant
                i <= n,
                n == drv@.len(),
                spec_lex(drv@) =~~= spec_lex_app(out.deep_view(), spec_lex(drv@.skip(i as int))),
            decreases n - i,
        {
            let ghost pre = out.deep_view();
            let ghost rem = drv@.skip(i as int);
            proof {
                assert(rem[0] == drv@[i as int]);
            }
            let c = drv.get_char(i);
            if c == 'D' {
                let mut j: usize = i + 1;
                proof {
                    assert(rem.skip(1) =~= drv@.skip(i + 1));
                }
                while j < n && deriv_char(drv.get_char(j))
                    invariant
                        i + 1 <= j <= n,
                        n == drv@.len(),
                        spec_scan_word(drv@.skip(i as int), 1) == spec_scan_word(
                            drv@.skip(i as int),
                            j - i as int,
                        ),
                    decreases n - j,
                {
                    proof {
                        assert(drv@.skip(i as int)[j - i as int] == drv@[j as int]);
                    }
                    j = j + 1;
                }
                proof {
                    if j < n {
                        assert(drv@.skip(i as int)[j - i as int] == drv@[j as int]);
                    }
                    assert(spec_scan_word(drv@.skip(i as int), 1) == j - i as int);
                }
                let word = drv.substring_char(i, j);
                if !crate::strutil::str_eq(word, "Derive") {
                    proof {
                        assert(word@ =~= drv@.skip(i as int).take(j - i as int));
                    }
                    return Err(StoreError::InvalidDerivation {
                        msg: String::from_str("bad start token"),
                    });
                }
                proof {
                    assert(word@ =~= drv@.skip(i as int).take(j - i as int));
                    assert(drv@.skip(i as int).skip(j - i as int) =~= drv@.skip(j as int));
                }
                out.push(TokType::StartToken);
                i = j;
            } else if c == '(' {
                proof {
                    assert(rem.drop_first() =~= drv@.skip(i + 1));
                }
                out.push(TokType::LParen);
                i = i + 1;
            } else if c == ')' {
                proof {
                    assert(rem.drop_first() =~= drv@.skip(i + 1));
                }
                out.push(TokType::RParen);
                i = i + 1;
            } else if c == '[' {
                proof {
                    assert(rem.drop_first() =~= drv@.skip(i + 1));
                }
                out.push(TokType::LBracket);
                i = i + 1;
            } else if c == ']' {
                proof {
                    assert(rem.drop_first() =~= drv@.skip(i + 1));
                }
                out.push(TokType::RBracket);
                i = i + 1;
            } else if c == ',' {
                proof {
                    assert(rem.drop_first() =~= drv@.skip(i + 1));
                }
                out.push(TokType::Comma);
                i = i + 1;
            } else if c == '"' {
                let mut lit = String::new();
                let mut j: usize = i + 1;
                let mut closed = false;
                while j < n && !closed
                    invariant
                        i + 1 <= j <= n,
                        i < n,
                        n == drv@.len(),
                        rem == drv@.skip(i as int),
                        drv@[i as int] == '"',
                        spec_lex(drv@) =~~= spec_lex_app(out.deep_view(), spec_lex(rem)),
                        spec_scan_string(drv@, i + 1, Seq::empty()) =~~= if closed {
                            Some((lit@, j as int))
                        } else {
                            spec_scan_string(drv@, j as int, lit@)
                        },
                    decreases n - j,
                {
                    let cj = drv.get_char(j);
                    if cj == '"' {
                        closed = true;
                        j = j + 1;
                    } else if cj == '\\' {
                        if j + 1 >= n {
                            proof {
                                assert(spec_scan_string(drv@, j as int, lit@) is None);
                                assert(spec_scan_string(drv@, i + 1, Seq::empty()) is None);
                                lemma_scan_string_shift(drv@, i as int, 1, Seq::empty());
                                assert(spec_scan_string(rem, 1, Seq::empty()) is None);
                                assert(spec_lex(rem) is None);
                            }
                            return Err(StoreError::InvalidDerivation {
                                msg: String::from_str("escape at end of input"),
                            });
                        }
                        crate::strutil::push_char(&mut lit, cj);
                        let cj2 = drv.get_char(j + 1);
                        crate::strutil::push_char(&mut lit, cj2);
                        j = j + 2;
                    } else {
                        crate::strutil::push_char(&mut lit, cj);
                        j = j + 1;
                    }
                }
                proof {
                    assert(spec_scan_string(drv@, i + 1, Seq::empty()) == Some(
                        (lit@, j as int),
                    ));
                    assert(spec_scan_string(rem, 1, Seq::empty()) =~~= shift_scan(
                        drv@,
                        i as int,
                        1,
                        Seq::empty(),
                    )) by {
                        lemma_scan_string_shift(drv@, i as int, 1, Seq::empty());
                    }
                    assert(drv@.skip(i as int).skip(j - i as int) =~= drv@.skip(j as int));
                }
                out.push(TokType::String(lit));
                i = j;
            } else {
                return Err(StoreError::InvalidDerivation {
                    msg: String::from_str("invalid character"),
                });
            }
            proof {
                assert(spec_lex(drv@) =~~= spec_lex_app(
                    out.deep_view(),
                    spec_lex(drv@.skip(i as int)),
                )) by {
                    assert(out.deep_view() =~= pre.push(out.deep_view().last()));
                }
            }
        }
        proof {
            assert(drv@.skip(n as int) =~= Seq::<char>::empty());
        }
        Ok(out)
    }
}

/// Scanning a string inside a suffix equals scanning it in the whole
/// text at the shifted position, with positions shifted back.
pub open spec fn shift_scan(s: Seq<char>, base: int, i: int, acc: Seq<char>) -> Option<
    (Seq<char>, int),
> {
    match spec_scan_string(s, base + i, acc) {
        Option::None => None,
        Option::Some((lit, j)) => Some((lit, j - base)),
    }
}

proof fn lemma_scan_string_shift(s: Seq<char>, base: int, i: int, acc: Seq<char>)
    requires
        0 <= base,
        0 <= i,
        base + i <= s.len(),
    ensures
        spec_scan_string(s.skip(base), i, acc) =~~= shift_scan(s, base, i, acc),
    decreases s.len() - base - i,
{
    let sub = s.skip(base);
    if i >= sub.len() {
    } else {
        assert(sub[i] == s[base + i]);
        if s[base + i] == '"' {
        } else if s[base + i] == '\\' {
            if base + i + 1 < s.len() {
                assert(sub[i + 1] == s[base + i + 1]);
                lemma_scan_string_shift(s, base, i + 2, acc.push(s[base + i]).push(s[base + i + 1]));
            }
        } else {
            lemma_scan_string_shift(s, base, i + 1, acc.push(s[base + i]));
        }
    }
}

} // verus!
