//! The derivation syntax tree: tuples and arrays of strings, read from
//! the token string.

use vstd::prelude::*;

use crate::error::StoreError;
use crate::token::{TokType, TokV};

verus! {

/// The mathematical value of a syntax-tree node.
pub enum AstV {
    Array(Seq<AstV>),
    Tuple(Seq<AstV>),
    Str(Seq<char>),
    Empty,
}

/// One node of the derivation syntax tree.
pub enum AstNode {
    Array(Vec<AstNode>),
    Tuple(Vec<AstNode>),
    String(String),
    Empty,
}

/// The value of a node.
pub open spec fn ast_view(n: AstNode) -> AstV
    decreases n,
{
    match n {
        AstNode::Array(v) => AstV::Array(ast_views_upto(v@, v@.len() as int)),
        AstNode::Tuple(v) => AstV::Tuple(ast_views_upto(v@, v@.len() as int)),
        AstNode::String(s) => AstV::Str(s@),
        AstNode::Empty => AstV::Empty,
    }
}

/// The values of the first `k` nodes.
pub open spec fn ast_views_upto(s: Seq<AstNode>, k: int) -> Seq<AstV>
    decreases s, k,
{
    if k <= 0 || k > s.len() {
        Seq::empty()
    } else {
        ast_views_upto(s, k - 1).push(ast_view(s[k - 1]))
    }
}

/// The values of a node sequence.
pub open spec fn ast_views(s: Seq<AstNode>) -> Seq<AstV> {
    ast_views_upto(s, s.len() as int)
}

/// The number of nodes in a tree.
pub open spec fn ast_size(n: AstNode) -> nat
    decreases n,
{
    match n {
        AstNode::Array(v) => 1 + ast_size_upto(v@, v@.len() as int),
        AstNode::Tuple(v) => 1 + ast_size_upto(v@, v@.len() as int),
        AstNode::String(_) => 1,
        AstNode::Empty => 1,
    }
}

/// The number of nodes in the first `k` trees.
pub open spec fn ast_size_upto(s: Seq<AstNode>, k: int) -> nat
    decreases s, k,
{
    if k <= 0 || k > s.len() {
        0
    } else {
        ast_size_upto(s, k - 1) + ast_size(s[k - 1])
    }
}

proof fn lemma_ast_size_elem(s: Seq<AstNode>, k: int, i: int)
    requires
        0 <= i < k <= s.len(),
    ensures
        ast_size(s[i]) <= ast_size_upto(s, k),
    decreases k,
{
    if i < k - 1 {
        lemma_ast_size_elem(s, k - 1, i);
    }
}

/// Values of the first `k` nodes, one by one.
pub proof fn lemma_ast_views_index(s: Seq<AstNode>, k: int)
    requires
        0 <= k <= s.len(),
    ensures
        ast_views_upto(s, k).len() == k,
        forall|i: int| 0 <= i < k ==> ast_views_upto(s, k)[i] == ast_view(s[i]),
    decreases k,
{
    if k > 0 {
        lemma_ast_views_index(s, k - 1);
    }
}

/// The values of a prepended sequence: the new head, then the rest.
pub proof fn lemma_ast_views_prepend(x: AstNode, s: Seq<AstNode>)
    ensures
        ast_views(seq![x] + s) == seq![ast_view(x)] + ast_views(s),
{
    let t = seq![x] + s;
    lemma_ast_views_index(t, t.len() as int);
    lemma_ast_views_index(s, s.len() as int);
    assert(ast_views(t) =~= seq![ast_view(x)] + ast_views(s));
}

/// Parses tuple elements from position `i` until `)` or the end of the
/// tokens; strings, arrays and commas are allowed inside. The result
/// pairs the elements with the next unread position.
pub open spec fn spec_parse_tuple(toks: Seq<TokV>, i: int, fuel: nat) -> Option<(Seq<AstV>, int)>
    decreases fuel,
{
    if fuel == 0 {
        None
    } else if i < 0 || i >= toks.len() {
        Some((Seq::empty(), i))
    } else {
        match toks[i] {
            TokV::RParen => Some((Seq::empty(), i + 1)),
            TokV::Str(s) => match spec_parse_tuple(toks, i + 1, (fuel - 1) as nat) {
                Option::None => None,
                Option::Some((rest, j)) => Some((seq![AstV::Str(s)] + rest, j)),
            },
            TokV::LBracket => match spec_parse_array(toks, i + 1, (fuel - 1) as nat) {
                Option::None => None,
                Option::Some((arr, j)) => match spec_parse_tuple(toks, j, (fuel - 1) as nat) {
                    Option::None => None,
                    Option::Some((rest, k)) => Some((seq![AstV::Array(arr)] + rest, k)),
                },
            },
            TokV::Comma => spec_parse_tuple(toks, i + 1, (fuel - 1) as nat),
            _ => None,
        }
    }
}

/// Parses array elements from position `i` until `]` or the end of the
/// tokens; strings, tuples and commas are allowed inside.
pub open spec fn spec_parse_array(toks: Seq<TokV>, i: int, fuel: nat) -> Option<(Seq<AstV>, int)>
    decreases fuel,
{
    if fuel == 0 {
        None
    } else if i < 0 || i >= toks.len() {
        Some((Seq::empty(), i))
    } else {
        match toks[i] {
            TokV::RBracket => Some((Seq::empty(), i + 1)),
            TokV::Str(s) => match spec_parse_array(toks, i + 1, (fuel - 1) as nat) {
                Option::None => None,
                Option::Some((rest, j)) => Some((seq![AstV::Str(s)] + rest, j)),
            },
            TokV::LParen => match spec_parse_tuple(toks, i + 1, (fuel - 1) as nat) {
                Option::None => None,
                Option::Some((tup, j)) => match spec_parse_array(toks, j, (fuel - 1) as nat) {
                    Option::None => None,
                    Option::Some((rest, k)) => Some((seq![AstV::Tuple(tup)] + rest, k)),
                },
            },
            TokV::Comma => spec_parse_array(toks, i + 1, (fuel - 1) as nat),
            _ => None,
        }
    }
}

/// With fuel past the number of unread tokens, the fuel does not matter,
/// and a successful parse never moves backwards or past the end.
pub proof fn lemma_parse_tuple_fuel(toks: Seq<TokV>, i: int, f1: nat, f2: nat)
    requires
        0 <= i <= toks.len(),
        f1 + i > toks.len(),
        f2 + i > toks.len(),
    ensures
        spec_parse_tuple(toks, i, f1) == spec_parse_tuple(toks, i, f2),
        match spec_parse_tuple(toks, i, f1) {
            Option::Some((nodes, j)) => i <= j <= toks.len(),
            Option::None => true,
        },
    decreases toks.len() - i,
{
    if i >= toks.len() {
    } else {
        match toks[i] {
            TokV::RParen => {},
            TokV::Str(_) => {
                lemma_parse_tuple_fuel(toks, i + 1, (f1 - 1) as nat, (f2 - 1) as nat);
            },
            TokV::LBracket => {
                lemma_parse_array_fuel(toks, i + 1, (f1 - 1) as nat, (f2 - 1) as nat);
                match spec_parse_array(toks, i + 1, (f1 - 1) as nat) {
                    Option::Some((arr, j)) => {
                        lemma_parse_tuple_fuel(toks, j, (f1 - 1) as nat, (f2 - 1) as nat);
                    },
                    Option::None => {},
                }
            },
            TokV::Comma => {
                lemma_parse_tuple_fuel(toks, i + 1, (f1 - 1) as nat, (f2 - 1) as nat);
            },
            _ => {},
        }
    }
}

/// The same for arrays.
pub proof fn lemma_parse_array_fuel(toks: Seq<TokV>, i: int, f1: nat, f2: nat)
    requires
        0 <= i <= toks.len(),
        f1 + i > toks.len(),
        f2 + i > toks.len(),
    ensures
        spec_parse_array(toks, i, f1) == spec_parse_array(toks, i, f2),
        match spec_parse_array(toks, i, f1) {
            Option::Some((nodes, j)) => i <= j <= toks.len(),
            Option::None => true,
        },
    decreases toks.len() - i,
{
    if i >= toks.len() {
    } else {
        match toks[i] {
            TokV::RBracket => {},
            TokV::Str(_) => {
                lemma_parse_array_fuel(toks, i + 1, (f1 - 1) as nat, (f2 - 1) as nat);
            },
            TokV::LParen => {
                lemma_parse_tuple_fuel(toks, i + 1, (f1 - 1) as nat, (f2 - 1) as nat);
                match spec_parse_tuple(toks, i + 1, (f1 - 1) as nat) {
                    Option::Some((tup, j)) => {
                        lemma_parse_array_fuel(toks, j, (f1 - 1) as nat, (f2 - 1) as nat);
                    },
                    Option::None => {},
                }
            },
            TokV::Comma => {
                lemma_parse_array_fuel(toks, i + 1, (f1 - 1) as nat, (f2 - 1) as nat);
            },
            _ => {},
        }
    }
}

/// The syntax tree of a whole token string: nothing for no tokens, else
/// the literal `Derive` followed by one top-level tuple. Tokens after the
/// tuple are left unread.
pub open spec fn spec_ast_of(toks: Seq<TokV>) -> Option<AstV> {
    if toks.len() == 0 {
        Some(AstV::Empty)
    } else if toks[0] != TokV::Start {
        None
    } else if toks.len() == 1 {
        Some(AstV::Empty)
    } else if toks[1] != TokV::LParen {
        None
    } else {
        match spec_parse_tuple(toks, 2, (toks.len() + 1) as nat) {
            Option::None => None,
            Option::Some((nodes, _)) => Some(AstV::Tuple(nodes)),
        }
    }
}

/// A parsed derivation text: its single definition node.
pub struct Ast {
    pub def: AstNode,
}

fn parse_tuple_at(toks: &Vec<TokType>, pos: usize) -> (r: Result<(Vec<AstNode>, usize), StoreError>)
    requires
        pos <= toks@.len(),
    ensures
        match r {
            Ok((nodes, j)) => pos <= j <= toks@.len() && spec_parse_tuple(
                toks.deep_view(),
                pos as int,
                (toks@.len() - pos + 1) as nat,
            ) == Some((ast_views(nodes@), j as int)),
            Err(_) => spec_parse_tuple(
                toks.deep_view(),
                pos as int,
                (toks@.len() - pos + 1) as nat,
            ) is None,
        },
    decreases toks@.len() - pos,
{
    proof {
        assert(toks.deep_view().len() == toks@.len());
    }
    if pos >= toks.len() {
        let empty: Vec<AstNode> = Vec::new();
        assert(ast_views(empty@) =~= Seq::<AstV>::empty());
        return Ok((empty, pos));
    }
    assert(toks.deep_view()[pos as int] == toks@[pos as int]@);
    match &toks[pos] {
        TokType::RParen => {
            let empty: Vec<AstNode> = Vec::new();
            assert(ast_views(empty@) =~= Seq::<AstV>::empty());
            Ok((empty, pos + 1))
        },
        TokType::String(s) => {
            let (rest, j) = parse_tuple_at(toks, pos + 1)?;
            let ghost restv = rest@;
            let mut v = rest;
            v.insert(0, AstNode::String(s.clone()));
            proof {
                assert(v@.skip(1) =~= restv);
                assert(v@ =~= seq![v@[0]] + restv);
                lemma_ast_views_prepend(v@[0], restv);
                assert(ast_view(v@[0]) == AstV::Str(s@));
                assert(ast_views(v@) =~= seq![AstV::Str(s@)] + ast_views(restv));
            }
            Ok((v, j))
        },
        TokType::LBracket => {
            let (arr, j) = parse_array_at(toks, pos + 1)?;
            proof {
                lemma_parse_array_fuel(
                    toks.deep_view(),
                    pos + 1,
                    (toks@.len() - pos) as nat,
                    (toks@.len() - pos + 1 - 1) as nat,
                );
                lemma_parse_tuple_fuel(
                    toks.deep_view(),
                    j as int,
                    (toks@.len() - j + 1) as nat,
                    (toks@.len() - pos + 1 - 1) as nat,
                );
            }
            let (rest, k) = parse_tuple_at(toks, j)?;
            let ghost arrv = arr@;
            let ghost restv = rest@;
            let mut v = rest;
            v.insert(0, AstNode::Array(arr));
            proof {
                assert(v@.skip(1) =~= restv);
                assert(v@ =~= seq![v@[0]] + restv);
                lemma_ast_views_prepend(v@[0], restv);
                assert(ast_view(v@[0]) == AstV::Array(ast_views(arrv)));
                assert(ast_views(v@) =~= seq![AstV::Array(ast_views(arrv))] + ast_views(restv));
            }
            Ok((v, k))
        },
        TokType::Comma => parse_tuple_at(toks, pos + 1),
        _ => Err(StoreError::InvalidDerivation {
            msg: String::from_str("did not expect this token in a tuple"),
        }),
    }
}

fn parse_array_at(toks: &Vec<TokType>, pos: usize) -> (r: Result<(Vec<AstNode>, usize), StoreError>)
    requires
        pos <= toks@.len(),
    ensures
        match r {
            Ok((nodes, j)) => pos <= j <= toks@.len() && spec_parse_array(
                toks.deep_view(),
                pos as int,
                (toks@.len() - pos + 1) as nat,
            ) == Some((ast_views(nodes@), j as int)),
            Err(_) => spec_parse_array(
                toks.deep_view(),
                pos as int,
                (toks@.len() - pos + 1) as nat,
            ) is None,
        },
    decreases toks@.len() - pos,
{
    proof {
        assert(toks.deep_view().len() == toks@.len());
    }
    if pos >= toks.len() {
        let empty: Vec<AstNode> = Vec::new();
        assert(ast_views(empty@) =~= Seq::<AstV>::empty());
        return Ok((empty, pos));
    }
    assert(toks.deep_view()[pos as int] == toks@[pos as int]@);
    match &toks[pos] {
        TokType::RBracket => {
            let empty: Vec<AstNode> = Vec::new();
            assert(ast_views(empty@) =~= Seq::<AstV>::empty());
            Ok((empty, pos + 1))
        },
        TokType::String(s) => {
            let (rest, j) = parse_array_at(toks, pos + 1)?;
            let ghost restv = rest@;
            let mut v = rest;
            v.insert(0, AstNode::String(s.clone()));
            proof {
                assert(v@.skip(1) =~= restv);
                assert(v@ =~= seq![v@[0]] + restv);
                lemma_ast_views_prepend(v@[0], restv);
                assert(ast_view(v@[0]) == AstV::Str(s@));
                assert(ast_views(v@) =~= seq![AstV::Str(s@)] + ast_views(restv));
            }
            Ok((v, j))
        },
        TokType::LParen => {
            let (tup, j) = parse_tuple_at(toks, pos + 1)?;
            proof {
                lemma_parse_tuple_fuel(
                    toks.deep_view(),
                    pos + 1,
                    (toks@.len() - pos) as nat,
                    (toks@.len() - pos + 1 - 1) as nat,
                );
                lemma_parse_array_fuel(
                    toks.deep_view(),
                    j as int,
                    (toks@.len() - j + 1) as nat,
                    (toks@.len() - pos + 1 - 1) as nat,
                );
            }
            let (rest, k) = parse_array_at(toks, j)?;
            let ghost tupv = tup@;
            let ghost restv = rest@;
            let mut v = rest;
            v.insert(0, AstNode::Tuple(tup));
            proof {
                assert(v@.skip(1) =~= restv);
                assert(v@ =~= seq![v@[0]] + restv);
                lemma_ast_views_prepend(v@[0], restv);
                assert(ast_view(v@[0]) == AstV::Tuple(ast_views(tupv)));
                assert(ast_views(v@) =~= seq![AstV::Tuple(ast_views(tupv))] + ast_views(restv));
            }
            Ok((v, k))
        },
        TokType::Comma => parse_array_at(toks, pos + 1),
        _ => Err(StoreError::InvalidDerivation {
            msg: String::from_str("did not expect this token in an array"),
        }),
    }
}

impl AstNode {
    /// Whether two nodes are the same tree.
    pub fn ast_eq(&self, other: &AstNode) -> (r: bool)
        ensures
            r == (ast_view(*self) == ast_view(*other)),
        decreases ast_size(*self),
    {
        match self {
            AstNode::Empty => matches!(other, AstNode::Empty),
            AstNode::String(a) => match other {
                AstNode::String(b) => crate::strutil::str_eq(a.as_str(), b.as_str()),
                _ => false,
            },
            AstNode::Array(u) => match other {
                AstNode::Array(v) => {
                    proof {
                        lemma_ast_views_index(u@, u@.len() as int);
                        lemma_ast_views_index(v@, v@.len() as int);
                    }
                    if u.len() != v.len() {
                        return false;
                    }
                    let n = u.len();
                    let mut i: usize = 0;
                    while i < n
                        invariant
                            i <= n,
                            n == u@.len(),
                            n == v@.len(),
                            ast_size(*self) == 1 + ast_size_upto(u@, u@.len() as int),
                            ast_view(*self) == AstV::Array(ast_views(u@)),
                            ast_view(*other) == AstV::Array(ast_views(v@)),
                            ast_views(u@).len() == n,
                            ast_views(v@).len() == n,
                            forall|k: int| 0 <= k < n ==> ast_views(u@)[k] == ast_view(u@[k]),
                            forall|k: int| 0 <= k < n ==> ast_views(v@)[k] == ast_view(v@[k]),
                            forall|k: int| 0 <= k < i ==> ast_views(u@)[k] == ast_views(v@)[k],
                        decreases n - i,
                    {
                        proof {
                            lemma_ast_size_elem(u@, u@.len() as int, i as int);
                        }
                        if !u[i].ast_eq(&v[i]) {
                            proof {
                                assert(ast_views(u@)[i as int] != ast_views(v@)[i as int]);
                                assert(ast_views(u@) != ast_views(v@));
                            }
                            return false;
                        }
                        i = i + 1;
                    }
                    proof {
                        assert(ast_views(u@) =~= ast_views(v@));
                    }
                    true
                },
                _ => false,
            },
            AstNode::Tuple(u) => match other {
                AstNode::Tuple(v) => {
                    proof {
                        lemma_ast_views_index(u@, u@.len() as int);
                        lemma_ast_views_index(v@, v@.len() as int);
                    }
                    if u.len() != v.len() {
                        return false;
                    }
                    let n = u.len();
                    let mut i: usize = 0;
                    while i < n
                        invariant
                            i <= n,
                            n == u@.len(),
                            n == v@.len(),
                            ast_size(*self) == 1 + ast_size_upto(u@, u@.len() as int),
                            ast_view(*self) == AstV::Tuple(ast_views(u@)),
                            ast_view(*other) == AstV::Tuple(ast_views(v@)),
                            ast_views(u@).len() == n,
                            ast_views(v@).len() == n,
                            forall|k: int| 0 <= k < n ==> ast_views(u@)[k] == ast_view(u@[k]),
                            forall|k: int| 0 <= k < n ==> ast_views(v@)[k] == ast_view(v@[k]),
                            forall|k: int| 0 <= k < i ==> ast_views(u@)[k] == ast_views(v@)[k],
                        decreases n - i,
                    {
                        proof {
                            lemma_ast_size_elem(u@, u@.len() as int, i as int);
                        }
                        if !u[i].ast_eq(&v[i]) {
                            proof {
                                assert(ast_views(u@)[i as int] != ast_views(v@)[i as int]);
                                assert(ast_views(u@) != ast_views(v@));
                            }
                            return false;
                        }
                        i = i + 1;
                    }
                    proof {
                        assert(ast_views(u@) =~= ast_views(v@));
                    }
                    true
                },
                _ => false,
            },
        }
    }
}

impl Ast {
    /// Reads the syntax tree from a token string: the `Derive` literal,
    /// then one top-level tuple. No tokens at all give the empty tree.
    pub fn from_lexer(lex: Vec<TokType>) -> (r: Result<Self, StoreError>)
        ensures
            match r {
                Ok(ast) => spec_ast_of(lex.deep_view()) == Some(ast_view(ast.def)),
                Err(_) => spec_ast_of(lex.deep_view()) is None,
            },
    {
        proof {
            assert(lex.deep_view().len() == lex@.len());
        }
        if lex.len() == 0 {
            return Ok(Ast { def: AstNode::Empty });
        }
        assert(lex.deep_view()[0] == lex@[0]@);
        if !matches!(&lex[0], TokType::StartToken) {
            return Err(StoreError::InvalidDerivation { msg: String::from_str("No StartToken") });
        }
        if lex.len() == 1 {
            return Ok(Ast { def: AstNode::Empty });
        }
        assert(lex.deep_view()[1] == lex@[1]@);
        if !matches!(&lex[1], TokType::LParen) {
            return Err(StoreError::InvalidDerivation {
                msg: String::from_str("No top level tuple"),
            });
        }
        proof {
            lemma_parse_tuple_fuel(
                lex.deep_view(),
                2,
                (lex@.len() - 2 + 1) as nat,
                (lex@.len() + 1) as nat,
            );
        }
        let (nodes, _) = parse_tuple_at(&lex, 2)?;
        Ok(Ast { def: AstNode::Tuple(nodes) })
    }
}

} // verus!
