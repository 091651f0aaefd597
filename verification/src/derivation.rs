//! Typed derivations: the lift from the syntax tree into outputs, inputs,
//! platform, builder, arguments and environment; attribute lookups; and
//! the printer back to the textual form.

use vstd::prelude::*;

use crate::ast::{ast_view, Ast, AstNode, AstV};
use crate::error::StoreError;
use crate::path::{spec_store_basename_ok, StorePath};
use crate::store::{spec_parse_basename, spec_print_path, views_of, Store};
use crate::strutil::{spec_split, split_char, spec_starts_with, starts_with, str_eq};
use crate::token::TokType;

verus! {

/// The mathematical value of one derivation output.
#[verifier::ext_equal]
pub struct DerivationOutputV {
    pub path: Seq<char>,
    pub hash: Option<Seq<char>>,
}

/// One output of a derivation: its store path, and a content hash for
/// fixed-output derivations.
#[derive(Debug, Clone)]
pub struct DerivationOutput {
    pub path: StorePath,
    pub hash: Option<String>,
}

impl View for DerivationOutput {
    type V = DerivationOutputV;

    open spec fn view(&self) -> DerivationOutputV {
        DerivationOutputV {
            path: self.path@,
            hash: match self.hash {
                Option::Some(ref h) => Some(h@),
                Option::None => None,
            },
        }
    }
}

/// The mathematical value of a derivation.
#[verifier::ext_equal]
pub struct DerivationV {
    pub outputs: Seq<(Seq<char>, DerivationOutputV)>,
    pub input_srcs: Seq<Seq<char>>,
    pub platform: Seq<char>,
    pub builder: Seq<char>,
    pub args: Seq<Seq<char>>,
    pub env: Seq<(Seq<char>, Seq<char>)>,
    pub inputs: Seq<(Seq<char>, Seq<Seq<char>>)>,
}

/// A parsed `.drv`: outputs, inputs, platform, builder, arguments and
/// environment, in the order they were read.
#[derive(Debug, Clone)]
pub struct Derivation {
    pub outputs: Vec<(String, DerivationOutput)>,
    pub input_srcs: Vec<StorePath>,
    pub platform: String,
    pub builder: String,
    pub args: Vec<String>,
    pub env: Vec<(String, String)>,
    pub inputs: Vec<(StorePath, Vec<String>)>,
}

/// The values of recorded outputs.
pub open spec fn outputs_view(s: Seq<(String, DerivationOutput)>) -> Seq<
    (Seq<char>, DerivationOutputV),
> {
    s.map_values(|p: (String, DerivationOutput)| (p.0@, p.1@))
}

/// The values of recorded environment pairs.
pub open spec fn env_view(s: Seq<(String, String)>) -> Seq<(Seq<char>, Seq<char>)> {
    s.map_values(|p: (String, String)| (p.0@, p.1@))
}

/// The values of recorded inputs.
pub open spec fn inputs_view(s: Seq<(StorePath, Vec<String>)>) -> Seq<(Seq<char>, Seq<Seq<char>>)> {
    s.map_values(|p: (StorePath, Vec<String>)| (p.0@, p.1.deep_view()))
}

impl View for Derivation {
    type V = DerivationV;

    open spec fn view(&self) -> DerivationV {
        DerivationV {
            outputs: outputs_view(self.outputs@),
            input_srcs: views_of(self.input_srcs@),
            platform: self.platform@,
            builder: self.builder@,
            args: self.args.deep_view(),
            env: env_view(self.env@),
            inputs: inputs_view(self.inputs@),
        }
    }
}

/// The empty derivation every parse starts from.
pub open spec fn spec_empty_derivation() -> DerivationV {
    DerivationV {
        outputs: Seq::empty(),
        input_srcs: Seq::empty(),
        platform: Seq::empty(),
        builder: Seq::empty(),
        args: Seq::empty(),
        env: Seq::empty(),
        inputs: Seq::empty(),
    }
}

/// The string a node holds, if it is a string node.
pub open spec fn spec_as_str(n: AstV) -> Option<Seq<char>> {
    match n {
        AstV::Str(s) => Some(s),
        _ => None,
    }
}

/// The hash field an output carries: nothing when both textual fields
/// are empty, else `<hashAlgo>:<hash>` — a fixed-output derivation.
pub open spec fn spec_output_hash(a: Seq<char>, h: Seq<char>) -> Option<Seq<char>> {
    if a.len() == 0 && h.len() == 0 {
        None
    } else {
        Some(a + seq![':'] + h)
    }
}

/// One output triple `(name, path, hashAlgo, hash)` lifted: the path must
/// parse under `dir`; non-empty hash fields mark a fixed-output
/// derivation and fill the output's hash.
pub open spec fn spec_lift_output(e: AstV, dir: Seq<char>) -> Option<
    (Seq<char>, DerivationOutputV),
> {
    match e {
        AstV::Tuple(t) => if t.len() == 4 {
            match (spec_as_str(t[0]), spec_as_str(t[1]), spec_as_str(t[2]), spec_as_str(t[3])) {
                (Option::Some(name), Option::Some(p), Option::Some(a), Option::Some(h)) => {
                    match spec_parse_basename(dir, p) {
                        Option::Some(base) => if spec_store_basename_ok(base) {
                            Some(
                                (
                                    name,
                                    DerivationOutputV {
                                        path: base,
                                        hash: spec_output_hash(a, h),
                                    },
                                ),
                            )
                        } else {
                            None
                        },
                        Option::None => None,
                    }
                },
                _ => None,
            }
        } else {
            None
        },
        _ => None,
    }
}

/// The first `k` output triples lifted.
pub open spec fn spec_lift_outputs(elems: Seq<AstV>, dir: Seq<char>, k: int) -> Option<
    Seq<(Seq<char>, DerivationOutputV)>,
>
    decreases k,
{
    if k <= 0 {
        Some(Seq::empty())
    } else {
        match spec_lift_outputs(elems, dir, k - 1) {
            Option::None => None,
            Option::Some(acc) => match spec_lift_output(elems[k - 1], dir) {
                Option::None => None,
                Option::Some(o) => Some(acc.push(o)),
            },
        }
    }
}

/// The first `k` nodes as plain strings.
pub open spec fn spec_lift_strings(elems: Seq<AstV>, k: int) -> Option<Seq<Seq<char>>>
    decreases k,
{
    if k <= 0 {
        Some(Seq::empty())
    } else {
        match spec_lift_strings(elems, k - 1) {
            Option::None => None,
            Option::Some(acc) => match spec_as_str(elems[k - 1]) {
                Option::None => None,
                Option::Some(s) => Some(acc.push(s)),
            },
        }
    }
}

/// The first `k` nodes as store basenames parsed under `dir`.
pub open spec fn spec_lift_paths(elems: Seq<AstV>, dir: Seq<char>, k: int) -> Option<
    Seq<Seq<char>>,
>
    decreases k,
{
    if k <= 0 {
        Some(Seq::empty())
    } else {
        match spec_lift_paths(elems, dir, k - 1) {
            Option::None => None,
            Option::Some(acc) => match spec_as_str(elems[k - 1]) {
                Option::None => None,
                Option::Some(p) => match spec_parse_basename(dir, p) {
                    Option::Some(base) => if spec_store_basename_ok(base) {
                        Some(acc.push(base))
                    } else {
                        None
                    },
                    Option::None => None,
                },
            },
        }
    }
}

/// One input pair `(drv path, [output, ...])` lifted.
pub open spec fn spec_lift_input(e: AstV, dir: Seq<char>) -> Option<(Seq<char>, Seq<Seq<char>>)> {
    match e {
        AstV::Tuple(t) => if t.len() >= 2 {
            match spec_as_str(t[0]) {
                Option::None => None,
                Option::Some(p) => match spec_parse_basename(dir, p) {
                    Option::Some(base) => if spec_store_basename_ok(base) {
                        match t[1] {
                            AstV::Array(outs) => match spec_lift_strings(
                                outs,
                                outs.len() as int,
                            ) {
                                Option::None => None,
                                Option::Some(names) => Some((base, names)),
                            },
                            _ => None,
                        }
                    } else {
                        None
                    },
                    Option::None => None,
                },
            }
        } else {
            None
        },
        _ => None,
    }
}

/// The first `k` input pairs lifted.
pub open spec fn spec_lift_inputs(elems: Seq<AstV>, dir: Seq<char>, k: int) -> Option<
    Seq<(Seq<char>, Seq<Seq<char>>)>,
>
    decreases k,
{
    if k <= 0 {
        Some(Seq::empty())
    } else {
        match spec_lift_inputs(elems, dir, k - 1) {
            Option::None => None,
            Option::Some(acc) => match spec_lift_input(elems[k - 1], dir) {
                Option::None => None,
                Option::Some(o) => Some(acc.push(o)),
            },
        }
    }
}

/// One environment pair `(name, value)` lifted.
pub open spec fn spec_lift_env_pair(e: AstV) -> Option<(Seq<char>, Seq<char>)> {
    match e {
        AstV::Tuple(t) => if t.len() == 2 {
            match (spec_as_str(t[0]), spec_as_str(t[1])) {
                (Option::Some(k), Option::Some(v)) => Some((k, v)),
                _ => None,
            }
        } else {
            None
        },
        _ => None,
    }
}

/// The first `k` environment pairs lifted.
pub open spec fn spec_lift_env(elems: Seq<AstV>, k: int) -> Option<Seq<(Seq<char>, Seq<char>)>>
    decreases k,
{
    if k <= 0 {
        Some(Seq::empty())
    } else {
        match spec_lift_env(elems, k - 1) {
            Option::None => None,
            Option::Some(acc) => match spec_lift_env_pair(elems[k - 1]) {
                Option::None => None,
                Option::Some(o) => Some(acc.push(o)),
            },
        }
    }
}

/// The array elements of a node, if it is an array node.
pub open spec fn spec_as_array(n: AstV) -> Option<Seq<AstV>> {
    match n {
        AstV::Array(v) => Some(v),
        _ => None,
    }
}

/// A whole syntax tree lifted to a derivation: a tuple of exactly seven
/// positions — outputs, inputs, sources, platform, builder, arguments,
/// environment.
pub open spec fn spec_lift_derivation(ast: AstV, dir: Seq<char>) -> Option<DerivationV> {
    match ast {
        AstV::Tuple(v) => if v.len() != 7 {
            None
        } else {
            match (
                spec_as_array(v[0]),
                spec_as_array(v[1]),
                spec_as_array(v[2]),
                spec_as_str(v[3]),
                spec_as_str(v[4]),
                spec_as_array(v[5]),
                spec_as_array(v[6]),
            ) {
                (
                    Option::Some(outs),
                    Option::Some(ins),
                    Option::Some(srcs),
                    Option::Some(platform),
                    Option::Some(builder),
                    Option::Some(args),
                    Option::Some(envs),
                ) => {
                    match (
                        spec_lift_outputs(outs, dir, outs.len() as int),
                        spec_lift_inputs(ins, dir, ins.len() as int),
                        spec_lift_paths(srcs, dir, srcs.len() as int),
                        spec_lift_strings(args, args.len() as int),
                        spec_lift_env(envs, envs.len() as int),
                    ) {
                        (
                            Option::Some(o),
                            Option::Some(i),
                            Option::Some(s),
                            Option::Some(a),
                            Option::Some(e),
                        ) => Some(
                            DerivationV {
                                outputs: o,
                                input_srcs: s,
                                platform: platform,
                                builder: builder,
                                args: a,
                                env: e,
                                inputs: i,
                            },
                        ),
                        _ => None,
                    }
                },
                _ => None,
            }
        },
        _ => None,
    }
}

/// The derivation a whole text names: lexed, read into a tree, lifted.
pub open spec fn spec_derivation_of_text(s: Seq<char>, dir: Seq<char>) -> Option<DerivationV> {
    match crate::token::spec_lex(s) {
        Option::None => None,
        Option::Some(toks) => match crate::ast::spec_ast_of(toks) {
            Option::None => None,
            Option::Some(ast) => spec_lift_derivation(ast, dir),
        },
    }
}

fn as_string_node(n: &AstNode) -> (r: Result<&String, StoreError>)
    ensures
        match r {
            Ok(s) => spec_as_str(ast_view(*n)) == Some(s@),
            Err(_) => spec_as_str(ast_view(*n)) is None,
        },
{
    match n {
        AstNode::String(s) => Ok(s),
        _ => Err(StoreError::InvalidDerivation { msg: String::from_str("expected a string") }),
    }
}

impl DerivationOutput {
    /// Lifts one output triple `(name, path, hashAlgo, hash)`.
    pub fn from_ast<S: Store>(ast: &Vec<AstNode>, store: &S) -> (r: Result<
        (String, DerivationOutput),
        StoreError,
    >)
        requires
            store.spec_has_store_dir(),
        ensures
            match r {
                Ok((name, out)) => spec_lift_output(
                    AstV::Tuple(crate::ast::ast_views(ast@)),
                    store.spec_store_dir(),
                ) == Some((name@, out@)) && out.path.wf(),
                Err(_) => spec_lift_output(
                    AstV::Tuple(crate::ast::ast_views(ast@)),
                    store.spec_store_dir(),
                ) is None,
            },
    {
        proof {
            crate::ast::lemma_ast_views_index(ast@, ast@.len() as int);
        }
        if ast.len() != 4 {
            return Err(StoreError::InvalidDerivation {
                msg: String::from_str("output has not 4 elements"),
            });
        }
        let name = as_string_node(&ast[0])?;
        let path_text = as_string_node(&ast[1])?;
        let algo = as_string_node(&ast[2])?;
        let h = as_string_node(&ast[3])?;
        let path = store.parse_store_path(path_text.as_str())?;
        let hash = if algo.as_str().is_empty() && h.as_str().is_empty() {
            None
        } else {
            let mut combined = algo.as_str().to_owned();
            crate::strutil::push_char(&mut combined, ':');
            combined.append(h.as_str());
            Some(combined)
        };
        let out = DerivationOutput { path, hash };
        proof {
            assert(out@.hash =~~= spec_output_hash(algo@, h@));
        }
        Ok((name.clone(), out))
    }

    /// Lifts an output from the raw `(path, hashAlgo, hash)` pieces of
    /// the stream form: the store directory prefix of the path is
    /// dropped, and non-empty hash fields fill the output's hash.
    pub fn new_from_drv(vec: &Vec<String>) -> (r: Result<DerivationOutput, StoreError>)
        ensures
            match r {
                Ok(out) => vec@.len() >= 1 && vec@[0]@.len() >= 11 && spec_store_basename_ok(
                    vec@[0]@.skip(11),
                ) && out@.path == vec@[0]@.skip(11) && out@.hash == (if vec@.len() >= 3 {
                    spec_output_hash(vec@[1]@, vec@[2]@)
                } else {
                    None
                }),
                Err(_) => vec@.len() < 1 || vec@[0]@.len() < 11 || !spec_store_basename_ok(
                    vec@[0]@.skip(11),
                ),
            },
    {
        if vec.len() < 1 {
            return Err(StoreError::InvalidDerivation {
                msg: String::from_str("output entry is empty"),
            });
        }
        let name = &vec[0];
        let n = name.as_str().unicode_len();
        if n < 11 {
            return Err(StoreError::InvalidDerivation {
                msg: String::from_str("output path is too short"),
            });
        }
        let base = name.as_str().substring_char(11, n);
        assert(base@ =~= vec@[0]@.skip(11));
        let path = StorePath::new(base)?;
        let hash = if vec.len() >= 3 && !(vec[1].as_str().is_empty() && vec[2].as_str().is_empty())
        {
            let mut combined = vec[1].as_str().to_owned();
            crate::strutil::push_char(&mut combined, ':');
            combined.append(vec[2].as_str());
            Some(combined)
        } else {
            None
        };
        let out = DerivationOutput { path, hash };
        proof {
            if vec@.len() >= 3 {
                assert(out@.hash =~~= spec_output_hash(vec@[1]@, vec@[2]@));
            }
        }
        Ok(out)
    }
}


proof fn lemma_lift_outputs_stuck(elems: Seq<AstV>, dir: Seq<char>, i: int, k: int)
    requires
        0 <= i < k,
        spec_lift_output(elems[i], dir) is None,
    ensures
        spec_lift_outputs(elems, dir, k) is None,
    decreases k,
{
    if i < k - 1 {
        lemma_lift_outputs_stuck(elems, dir, i, k - 1);
    }
}

proof fn lemma_lift_strings_stuck(elems: Seq<AstV>, i: int, k: int)
    requires
        0 <= i < k,
        spec_as_str(elems[i]) is None,
    ensures
        spec_lift_strings(elems, k) is None,
    decreases k,
{
    if i < k - 1 {
        lemma_lift_strings_stuck(elems, i, k - 1);
    }
}

proof fn lemma_lift_paths_stuck(elems: Seq<AstV>, dir: Seq<char>, i: int, k: int)
    requires
        0 <= i < k,
        match spec_as_str(elems[i]) {
            Option::Some(p) => match spec_parse_basename(dir, p) {
                Option::Some(base) => !spec_store_basename_ok(base),
                Option::None => true,
            },
            Option::None => true,
        },
    ensures
        spec_lift_paths(elems, dir, k) is None,
    decreases k,
{
    if i < k - 1 {
        lemma_lift_paths_stuck(elems, dir, i, k - 1);
    }
}

proof fn lemma_lift_inputs_stuck(elems: Seq<AstV>, dir: Seq<char>, i: int, k: int)
    requires
        0 <= i < k,
        spec_lift_input(elems[i], dir) is None,
    ensures
        spec_lift_inputs(elems, dir, k) is None,
    decreases k,
{
    if i < k - 1 {
        lemma_lift_inputs_stuck(elems, dir, i, k - 1);
    }
}

proof fn lemma_lift_env_stuck(elems: Seq<AstV>, i: int, k: int)
    requires
        0 <= i < k,
        spec_lift_env_pair(elems[i]) is None,
    ensures
        spec_lift_env(elems, k) is None,
    decreases k,
{
    if i < k - 1 {
        lemma_lift_env_stuck(elems, i, k - 1);
    }
}

fn lift_strings(elems: &Vec<AstNode>) -> (r: Result<Vec<String>, StoreError>)
    ensures
        ({
            let ev = crate::ast::ast_views(elems@);
            match r {
                Ok(v) => spec_lift_strings(ev, ev.len() as int) == Some(v.deep_view()),
                Err(_) => spec_lift_strings(ev, ev.len() as int) is None,
            }
        }),
{
    proof {
        crate::ast::lemma_ast_views_index(elems@, elems@.len() as int);
    }
    let ghost ev = crate::ast::ast_views(elems@);
    let mut out: Vec<String> = Vec::new();
    let mut i: usize = 0;
    while i < elems.len()
        invariant
            i <= elems@.len(),
            ev == crate::ast::ast_views(elems@),
            ev.len() == elems@.len(),
            forall|k: int| 0 <= k < elems@.len() ==> ev[k] == ast_view(elems@[k]),
            spec_lift_strings(ev, i as int) == Some(out.deep_view()),
        decreases elems@.len() - i,
    {
        match as_string_node(&elems[i]) {
            Ok(s) => {
                out.push(s.clone());
                proof {
                    assert(out.deep_view() =~= out.deep_view().drop_last().push(out@.last()@));
                }
            },
            Err(e) => {
                proof {
                    lemma_lift_strings_stuck(ev, i as int, ev.len() as int);
                }
                return Err(e);
            },
        }
        i = i + 1;
    }
    Ok(out)
}

fn lift_paths<S: Store>(elems: &Vec<AstNode>, store: &S) -> (r: Result<Vec<StorePath>, StoreError>)
    requires
        store.spec_has_store_dir(),
    ensures
        ({
            let ev = crate::ast::ast_views(elems@);
            let dir = store.spec_store_dir();
            match r {
                Ok(v) => spec_lift_paths(ev, dir, ev.len() as int) == Some(views_of(v@)),
                Err(_) => spec_lift_paths(ev, dir, ev.len() as int) is None,
            }
        }),
{
    proof {
        crate::ast::lemma_ast_views_index(elems@, elems@.len() as int);
    }
    let ghost ev = crate::ast::ast_views(elems@);
    let ghost dir = store.spec_store_dir();
    let mut out: Vec<StorePath> = Vec::new();
    let mut i: usize = 0;
    while i < elems.len()
        invariant
            i <= elems@.len(),
            store.spec_has_store_dir(),
            dir == store.spec_store_dir(),
            ev == crate::ast::ast_views(elems@),
            ev.len() == elems@.len(),
            forall|k: int| 0 <= k < elems@.len() ==> ev[k] == ast_view(elems@[k]),
            spec_lift_paths(ev, dir, i as int) == Some(views_of(out@)),
        decreases elems@.len() - i,
    {
        let s = match as_string_node(&elems[i]) {
            Ok(s) => s,
            Err(e) => {
                proof {
                    lemma_lift_paths_stuck(ev, dir, i as int, ev.len() as int);
                }
                return Err(e);
            },
        };
        let p = match store.parse_store_path(s.as_str()) {
            Ok(p) => p,
            Err(e) => {
                proof {
                    lemma_lift_paths_stuck(ev, dir, i as int, ev.len() as int);
                }
                return Err(e);
            },
        };
        out.push(p);
        proof {
            assert(views_of(out@) =~= views_of(out@.drop_last()).push(out@.last()@));
        }
        i = i + 1;
    }
    Ok(out)
}

fn lift_outputs<S: Store>(elems: &Vec<AstNode>, store: &S) -> (r: Result<
    Vec<(String, DerivationOutput)>,
    StoreError,
>)
    requires
        store.spec_has_store_dir(),
    ensures
        ({
            let ev = crate::ast::ast_views(elems@);
            let dir = store.spec_store_dir();
            match r {
                Ok(v) => spec_lift_outputs(ev, dir, ev.len() as int) == Some(outputs_view(v@)),
                Err(_) => spec_lift_outputs(ev, dir, ev.len() as int) is None,
            }
        }),
{
    proof {
        crate::ast::lemma_ast_views_index(elems@, elems@.len() as int);
    }
    let ghost ev = crate::ast::ast_views(elems@);
    let ghost dir = store.spec_store_dir();
    let mut out: Vec<(String, DerivationOutput)> = Vec::new();
    let mut i: usize = 0;
    while i < elems.len()
        invariant
            i <= elems@.len(),
            store.spec_has_store_dir(),
            dir == store.spec_store_dir(),
            ev == crate::ast::ast_views(elems@),
            ev.len() == elems@.len(),
            forall|k: int| 0 <= k < elems@.len() ==> ev[k] == ast_view(elems@[k]),
            spec_lift_outputs(ev, dir, i as int) == Some(outputs_view(out@)),
        decreases elems@.len() - i,
    {
        let node = match &elems[i] {
            AstNode::Tuple(t) => t,
            _ => {
                proof {
                    lemma_lift_outputs_stuck(ev, dir, i as int, ev.len() as int);
                }
                return Err(StoreError::InvalidDerivation {
                    msg: String::from_str("output is not a tuple"),
                });
            },
        };
        match DerivationOutput::from_ast(node, store) {
            Ok((name, o)) => {
                out.push((name, o));
                proof {
                    assert(outputs_view(out@) =~= outputs_view(out@.drop_last()).push(
                        (out@.last().0@, out@.last().1@),
                    ));
                }
            },
            Err(e) => {
                proof {
                    lemma_lift_outputs_stuck(ev, dir, i as int, ev.len() as int);
                }
                return Err(e);
            },
        }
        i = i + 1;
    }
    Ok(out)
}

fn lift_inputs<S: Store>(elems: &Vec<AstNode>, store: &S) -> (r: Result<
    Vec<(StorePath, Vec<String>)>,
    StoreError,
>)
    requires
        store.spec_has_store_dir(),
    ensures
        ({
            let ev = crate::ast::ast_views(elems@);
            let dir = store.spec_store_dir();
            match r {
                Ok(v) => spec_lift_inputs(ev, dir, ev.len() as int) == Some(inputs_view(v@)),
                Err(_) => spec_lift_inputs(ev, dir, ev.len() as int) is None,
            }
        }),
{
    proof {
        crate::ast::lemma_ast_views_index(elems@, elems@.len() as int);
    }
    let ghost ev = crate::ast::ast_views(elems@);
    let ghost dir = store.spec_store_dir();
    let mut out: Vec<(StorePath, Vec<String>)> = Vec::new();
    let mut i: usize = 0;
    while i < elems.len()
        invariant
            i <= elems@.len(),
            store.spec_has_store_dir(),
            dir == store.spec_store_dir(),
            ev == crate::ast::ast_views(elems@),
            ev.len() == elems@.len(),
            forall|k: int| 0 <= k < elems@.len() ==> ev[k] == ast_view(elems@[k]),
            spec_lift_inputs(ev, dir, i as int) == Some(inputs_view(out@)),
        decreases elems@.len() - i,
    {
        let node = match &elems[i] {
            AstNode::Tuple(t) => t,
            _ => {
                proof {
                    lemma_lift_inputs_stuck(ev, dir, i as int, ev.len() as int);
                }
                return Err(StoreError::InvalidDerivation {
                    msg: String::from_str("inputs element is not a tuple"),
                });
            },
        };
        proof {
            crate::ast::lemma_ast_views_index(node@, node@.len() as int);
        }
        if node.len() < 2 {
            proof {
                lemma_lift_inputs_stuck(ev, dir, i as int, ev.len() as int);
            }
            return Err(StoreError::InvalidDerivation {
                msg: String::from_str("inputs element is too short"),
            });
        }
        let p_text = match as_string_node(&node[0]) {
            Ok(s) => s,
            Err(e) => {
                proof {
                    lemma_lift_inputs_stuck(ev, dir, i as int, ev.len() as int);
                }
                return Err(e);
            },
        };
        let p = match store.parse_store_path(p_text.as_str()) {
            Ok(p) => p,
            Err(e) => {
                proof {
                    lemma_lift_inputs_stuck(ev, dir, i as int, ev.len() as int);
                }
                return Err(e);
            },
        };
        let names_n = match &node[1] {
            AstNode::Array(a) => a,
            _ => {
                proof {
                    lemma_lift_inputs_stuck(ev, dir, i as int, ev.len() as int);
                }
                return Err(StoreError::InvalidDerivation {
                    msg: String::from_str("input outputs is not an array"),
                });
            },
        };
        let names = match lift_strings(names_n) {
            Ok(v) => v,
            Err(e) => {
                proof {
                    lemma_lift_inputs_stuck(ev, dir, i as int, ev.len() as int);
                }
                return Err(e);
            },
        };
        proof {
            assert(spec_lift_input(ev[i as int], dir) == Some((p@, names.deep_view())));
        }
        out.push((p, names));
        proof {
            assert(inputs_view(out@) =~= inputs_view(out@.drop_last()).push(
                (out@.last().0@, out@.last().1.deep_view()),
            ));
        }
        i = i + 1;
    }
    Ok(out)
}

fn lift_env(elems: &Vec<AstNode>) -> (r: Result<Vec<(String, String)>, StoreError>)
    ensures
        ({
            let ev = crate::ast::ast_views(elems@);
            match r {
                Ok(v) => spec_lift_env(ev, ev.len() as int) == Some(env_view(v@)),
                Err(_) => spec_lift_env(ev, ev.len() as int) is None,
            }
        }),
{
    proof {
        crate::ast::lemma_ast_views_index(elems@, elems@.len() as int);
    }
    let ghost ev = crate::ast::ast_views(elems@);
    let mut out: Vec<(String, String)> = Vec::new();
    let mut i: usize = 0;
    while i < elems.len()
        invariant
            i <= elems@.len(),
            ev == crate::ast::ast_views(elems@),
            ev.len() == elems@.len(),
            forall|k: int| 0 <= k < elems@.len() ==> ev[k] == ast_view(elems@[k]),
            spec_lift_env(ev, i as int) == Some(env_view(out@)),
        decreases elems@.len() - i,
    {
        let node = match &elems[i] {
            AstNode::Tuple(t) => t,
            _ => {
                proof {
                    lemma_lift_env_stuck(ev, i as int, ev.len() as int);
                }
                return Err(StoreError::InvalidDerivation {
                    msg: String::from_str("env is not a tuple"),
                });
            },
        };
        proof {
            crate::ast::lemma_ast_views_index(node@, node@.len() as int);
        }
        if node.len() != 2 {
            proof {
                lemma_lift_env_stuck(ev, i as int, ev.len() as int);
            }
            return Err(StoreError::InvalidDerivation {
                msg: String::from_str("env variable is not a pair"),
            });
        }
        let k_s = match as_string_node(&node[0]) {
            Ok(s) => s,
            Err(e) => {
                proof {
                    lemma_lift_env_stuck(ev, i as int, ev.len() as int);
                }
                return Err(e);
            },
        };
        let v_s = match as_string_node(&node[1]) {
            Ok(s) => s,
            Err(e) => {
                proof {
                    lemma_lift_env_stuck(ev, i as int, ev.len() as int);
                }
                return Err(e);
            },
        };
        out.push((k_s.clone(), v_s.clone()));
        proof {
            assert(env_view(out@) =~= env_view(out@.drop_last()).push(
                (out@.last().0@, out@.last().1@),
            ));
        }
        i = i + 1;
    }
    Ok(out)
}

impl Derivation {
    /// The empty derivation.
    pub fn new() -> (r: Self)
        ensures
            r@ == spec_empty_derivation(),
    {
        let r = Derivation {
            outputs: Vec::new(),
            input_srcs: Vec::new(),
            platform: String::new(),
            builder: String::new(),
            args: Vec::new(),
            env: Vec::new(),
            inputs: Vec::new(),
        };
        proof {
            assert(r@ =~= spec_empty_derivation());
        }
        r
    }

    /// Whether the builder is one of the built-in ones.
    pub fn is_builtin(&self) -> (r: bool)
        ensures
            r == spec_starts_with(self.builder@, "builtin:"@),
    {
        starts_with(self.builder.as_str(), "builtin:")
    }

    /// Reads a derivation from its textual form.
    pub fn from_str<S: Store>(text: &str, store: &S) -> (r: Result<Derivation, StoreError>)
        requires
            store.spec_has_store_dir(),
        ensures
            match r {
                Ok(d) => spec_derivation_of_text(text@, store.spec_store_dir()) == Some(d@),
                Err(_) => spec_derivation_of_text(text@, store.spec_store_dir()) is None,
            },
    {
        let toks = TokType::parse(text)?;
        let ast = Ast::from_lexer(toks)?;
        Self::parse_ast(&ast, store)
    }

    /// Lifts a syntax tree into a derivation. The top node must be a
    /// tuple of exactly seven positions.
    pub fn parse_ast<S: Store>(ast: &Ast, store: &S) -> (r: Result<Derivation, StoreError>)
        requires
            store.spec_has_store_dir(),
        ensures
            match r {
                Ok(d) => spec_lift_derivation(ast_view(ast.def), store.spec_store_dir()) == Some(
                    d@,
                ),
                Err(_) => spec_lift_derivation(ast_view(ast.def), store.spec_store_dir()) is None,
            },
    {
        let v = match &ast.def {
            AstNode::Tuple(v) => v,
            _ => {
                return Err(StoreError::InvalidDerivation {
                    msg: String::from_str("Derivation does not contain an Tuple"),
                });
            },
        };
        proof {
            crate::ast::lemma_ast_views_index(v@, v@.len() as int);
        }
        if v.len() != 7 {
            return Err(StoreError::InvalidDerivation {
                msg: String::from_str("Derivation Tuple has a wrong number of elements"),
            });
        }
        let ghost dir = store.spec_store_dir();
        let ghost vv = crate::ast::ast_views(v@);

        let outs = match &v[0] {
            AstNode::Array(a) => a,
            _ => {
                return Err(StoreError::InvalidDerivation {
                    msg: String::from_str("outputs is not an array"),
                });
            },
        };
        let ins = match &v[1] {
            AstNode::Array(a) => a,
            _ => {
                return Err(StoreError::InvalidDerivation {
                    msg: String::from_str("inputs is not an array"),
                });
            },
        };
        let srcs = match &v[2] {
            AstNode::Array(a) => a,
            _ => {
                return Err(StoreError::InvalidDerivation {
                    msg: String::from_str("input sources is not an array"),
                });
            },
        };
        let platform = as_string_node(&v[3])?;
        let builder = as_string_node(&v[4])?;
        let args_n = match &v[5] {
            AstNode::Array(a) => a,
            _ => {
                return Err(StoreError::InvalidDerivation {
                    msg: String::from_str("arguments is not an array"),
                });
            },
        };
        let envs_n = match &v[6] {
            AstNode::Array(a) => a,
            _ => {
                return Err(StoreError::InvalidDerivation {
                    msg: String::from_str("env is not an array"),
                });
            },
        };
        let outputs = lift_outputs(outs, store)?;
        let inputs = lift_inputs(ins, store)?;
        let input_srcs = lift_paths(srcs, store)?;
        let args = lift_strings(args_n)?;
        let env = lift_env(envs_n)?;
        let d = Derivation { outputs, input_srcs, platform: platform.clone(), builder: builder.clone(), args, env, inputs };
        proof {
            assert(spec_lift_derivation(ast_view(ast.def), dir) =~~= Some(d@));
        }
        Ok(d)
    }
}


/// A hash text split at its last colon: the algorithm tag and the digits.
/// A text without a colon has an empty first part.
pub open spec fn spec_rsplit_colon(s: Seq<char>) -> (Seq<char>, Seq<char>)
    decreases s.len(),
{
    if s.len() == 0 {
        (Seq::empty(), Seq::empty())
    } else if s.last() == ':' {
        (s.drop_last(), Seq::empty())
    } else {
        let p = spec_rsplit_colon(s.drop_last());
        (p.0, p.1.push(s.last()))
    }
}

/// The two textual fields an output's hash prints as.
pub open spec fn spec_hash_fields(h: Option<Seq<char>>) -> (Seq<char>, Seq<char>) {
    match h {
        Option::Some(s) => spec_rsplit_colon(s),
        Option::None => (Seq::empty(), Seq::empty()),
    }
}

/// Splits a hash text at its last colon.
fn rsplit_colon(s: &str) -> (r: (String, String))
    ensures
        (r.0@, r.1@) == spec_rsplit_colon(s@),
{
    let n = s.unicode_len();
    let mut i: usize = n;
    proof {
        assert(s@.take(n as int) =~= s@);
        assert(s@.skip(n as int) =~= Seq::<char>::empty());
        assert(spec_rsplit_colon(s@).1 + s@.skip(n as int) =~= spec_rsplit_colon(s@).1);
    }
    while i > 0
        invariant
            i <= n,
            n == s@.len(),
            spec_rsplit_colon(s@).0 == spec_rsplit_colon(s@.take(i as int)).0,
            spec_rsplit_colon(s@).1 =~= spec_rsplit_colon(s@.take(i as int)).1 + s@.skip(i as int),
        decreases i,
    {
        proof {
            assert(s@.take(i as int).last() == s@[i - 1]);
            assert(s@.take(i as int).drop_last() =~= s@.take(i - 1));
        }
        if s.get_char(i - 1) == ':' {
            let fst = s.substring_char(0, i - 1).to_owned();
            let snd = s.substring_char(i, n).to_owned();
            proof {
                assert(fst@ =~= s@.take(i - 1));
                assert(snd@ =~= s@.skip(i as int));
                assert(spec_rsplit_colon(s@).1 =~= snd@);
            }
            return (fst, snd);
        }
        proof {
            assert(spec_rsplit_colon(s@.take(i as int)).1 + s@.skip(i as int)
                =~= spec_rsplit_colon(s@.take(i - 1)).1 + s@.skip(i - 1));
        }
        i = i - 1;
    }
    proof {
        assert(s@.take(0) =~= Seq::<char>::empty());
        assert(spec_rsplit_colon(s@).0 =~= Seq::<char>::empty());
        assert(spec_rsplit_colon(s@).1 =~= s@);
    }
    (String::new(), s.to_owned())
}

/// A string between double quotes, kept verbatim.
pub open spec fn spec_quote(s: Seq<char>) -> Seq<char> {
    seq!['"'] + s + seq!['"']
}

/// The rendered output triples: `("name","/dir/path","","")`.
pub open spec fn spec_rendered_outputs(
    outs: Seq<(Seq<char>, DerivationOutputV)>,
    dir: Seq<char>,
    k: int,
) -> Seq<Seq<char>>
    decreases k,
{
    if k <= 0 {
        Seq::empty()
    } else {
        spec_rendered_outputs(outs, dir, k - 1).push(
            seq!['('] + spec_quote(outs[k - 1].0) + seq![','] + spec_quote(
                spec_print_path(dir, outs[k - 1].1.path),
            ) + seq![','] + spec_quote(spec_hash_fields(outs[k - 1].1.hash).0) + seq![',']
                + spec_quote(spec_hash_fields(outs[k - 1].1.hash).1) + seq![')'],
        )
    }
}

/// The rendered input pairs: `("/dir/path",["out",...])`.
pub open spec fn spec_rendered_inputs(
    ins: Seq<(Seq<char>, Seq<Seq<char>>)>,
    dir: Seq<char>,
    k: int,
) -> Seq<Seq<char>>
    decreases k,
{
    if k <= 0 {
        Seq::empty()
    } else {
        spec_rendered_inputs(ins, dir, k - 1).push(
            seq!['('] + spec_quote(spec_print_path(dir, ins[k - 1].0)) + seq![','] + seq!['[']
                + crate::strutil::spec_join_comma(
                spec_rendered_strings(ins[k - 1].1, ins[k - 1].1.len() as int),
            ) + seq![']'] + seq![')'],
        )
    }
}

/// Strings each between quotes.
pub open spec fn spec_rendered_strings(items: Seq<Seq<char>>, k: int) -> Seq<Seq<char>>
    decreases k,
{
    if k <= 0 {
        Seq::empty()
    } else {
        spec_rendered_strings(items, k - 1).push(spec_quote(items[k - 1]))
    }
}

/// Paths each printed under the store directory, between quotes.
pub open spec fn spec_rendered_paths(items: Seq<Seq<char>>, dir: Seq<char>, k: int) -> Seq<
    Seq<char>,
>
    decreases k,
{
    if k <= 0 {
        Seq::empty()
    } else {
        spec_rendered_paths(items, dir, k - 1).push(
            spec_quote(spec_print_path(dir, items[k - 1])),
        )
    }
}

/// The rendered environment pairs: `("name","value")`.
pub open spec fn spec_rendered_env(env: Seq<(Seq<char>, Seq<char>)>, k: int) -> Seq<Seq<char>>
    decreases k,
{
    if k <= 0 {
        Seq::empty()
    } else {
        spec_rendered_env(env, k - 1).push(
            seq!['('] + spec_quote(env[k - 1].0) + seq![','] + spec_quote(env[k - 1].1)
                + seq![')'],
        )
    }
}

/// A rendered list: the pieces joined with commas, between brackets.
pub open spec fn spec_bracketed(items: Seq<Seq<char>>) -> Seq<char> {
    seq!['['] + crate::strutil::spec_join_comma(items) + seq![']']
}

/// The textual form of a derivation, as it is stored on disk: the
/// `Derive` literal and the seven positions of the top-level tuple.
pub open spec fn spec_print_derivation(d: DerivationV, dir: Seq<char>) -> Seq<char> {
    "Derive("@ + spec_bracketed(spec_rendered_outputs(d.outputs, dir, d.outputs.len() as int))
        + seq![','] + spec_bracketed(spec_rendered_inputs(d.inputs, dir, d.inputs.len() as int))
        + seq![','] + spec_bracketed(
        spec_rendered_paths(d.input_srcs, dir, d.input_srcs.len() as int),
    ) + seq![','] + spec_quote(d.platform) + seq![','] + spec_quote(d.builder) + seq![',']
        + spec_bracketed(spec_rendered_strings(d.args, d.args.len() as int)) + seq![',']
        + spec_bracketed(spec_rendered_env(d.env, d.env.len() as int)) + seq![')']
}

fn push_quoted(out: &mut String, s: &str)
    ensures
        final(out)@ == old(out)@ + spec_quote(s@),
{
    crate::strutil::push_char(out, '"');
    out.append(s);
    crate::strutil::push_char(out, '"');
    assert(final(out)@ =~= old(out)@ + spec_quote(s@));
}

/// Appends the pieces joined with commas: nothing between brackets for
/// an empty list.
fn push_joined(out: &mut String, pieces: &Vec<String>)
    ensures
        final(out)@ == old(out)@ + crate::strutil::spec_join_comma(pieces.deep_view()),
{
    let ghost pre = out@;
    let ghost pv = pieces.deep_view();
    let mut i: usize = 0;
    while i < pieces.len()
        invariant
            i <= pieces@.len(),
            pieces.deep_view() == pv,
            pv.len() == pieces@.len(),
            out@ == pre + crate::strutil::spec_join_comma(pv.take(i as int)) + if i > 0 && i
                < pieces@.len() {
                seq![',']
            } else {
                Seq::<char>::empty()
            },
        decreases pieces@.len() - i,
    {
        assert(pv[i as int] == pieces@[i as int]@);
        out.append(pieces[i].as_str());
        if i + 1 < pieces.len() {
            crate::strutil::push_char(out, ',');
        }
        proof {
            assert(pv.take(i + 1).drop_last() =~= pv.take(i as int));
            assert(pv.take(i + 1).last() == pv[i as int]);
            assert(out@ =~= pre + crate::strutil::spec_join_comma(pv.take(i + 1)) + if i + 1 > 0
                && i + 1 < pieces@.len() {
                seq![',']
            } else {
                Seq::<char>::empty()
            });
        }
        i = i + 1;
    }
    proof {
        assert(pv.take(pv.len() as int) =~= pv);
        assert(final(out)@ =~= old(out)@ + crate::strutil::spec_join_comma(pv));
    }
}

impl Derivation {
    /// Writes the derivation back in its textual form. Printing and then
    /// parsing gives the derivation back, as long as its strings carry
    /// no bare quote and no trailing backslash.
    #[verifier::rlimit(100)]
    pub fn print<S: Store>(&self, store: &S) -> (r: String)
        requires
            store.spec_has_store_dir(),
        ensures
            r@ == spec_print_derivation(self@, store.spec_store_dir()),
    {
        let ghost dir = store.spec_store_dir();
        let mut out = String::from_str("Derive(");

        // outputs
        let mut pieces: Vec<String> = Vec::new();
        let mut i: usize = 0;
        while i < self.outputs.len()
            invariant
                i <= self.outputs@.len(),
                store.spec_has_store_dir(),
                dir == store.spec_store_dir(),
                pieces.deep_view() == spec_rendered_outputs(
                    outputs_view(self.outputs@),
                    dir,
                    i as int,
                ),
            decreases self.outputs@.len() - i,
        {
            let mut piece = String::new();
            crate::strutil::push_char(&mut piece, '(');
            push_quoted(&mut piece, self.outputs[i].0.as_str());
            crate::strutil::push_char(&mut piece, ',');
            let printed = store.print_store_path(&self.outputs[i].1.path);
            push_quoted(&mut piece, printed.as_str());
            crate::strutil::push_char(&mut piece, ',');
            let (algo_field, hash_field) = match &self.outputs[i].1.hash {
                Some(h) => rsplit_colon(h.as_str()),
                None => (String::new(), String::new()),
            };
            push_quoted(&mut piece, algo_field.as_str());
            crate::strutil::push_char(&mut piece, ',');
            push_quoted(&mut piece, hash_field.as_str());
            crate::strutil::push_char(&mut piece, ')');
            proof {
                assert(outputs_view(self.outputs@)[i as int] == (
                    self.outputs@[i as int].0@,
                    self.outputs@[i as int].1@,
                ));
                assert((algo_field@, hash_field@) == spec_hash_fields(
                    outputs_view(self.outputs@)[i as int].1.hash,
                ));
                assert(piece@ =~= seq!['('] + spec_quote(outputs_view(self.outputs@)[i as int].0)
                    + seq![','] + spec_quote(
                    spec_print_path(dir, outputs_view(self.outputs@)[i as int].1.path),
                ) + seq![','] + spec_quote(
                    spec_hash_fields(outputs_view(self.outputs@)[i as int].1.hash).0,
                ) + seq![','] + spec_quote(
                    spec_hash_fields(outputs_view(self.outputs@)[i as int].1.hash).1,
                ) + seq![')']);
            }
            pieces.push(piece);
            proof {
                assert(pieces.deep_view() =~= spec_rendered_outputs(
                    outputs_view(self.outputs@),
                    dir,
                    i + 1,
                ));
            }
            i = i + 1;
        }
        crate::strutil::push_char(&mut out, '[');
        push_joined(&mut out, &pieces);
        crate::strutil::push_char(&mut out, ']');
        crate::strutil::push_char(&mut out, ',');

        // inputs
        let mut pieces2: Vec<String> = Vec::new();
        let mut i2: usize = 0;
        while i2 < self.inputs.len()
            invariant
                i2 <= self.inputs@.len(),
                store.spec_has_store_dir(),
                dir == store.spec_store_dir(),
                pieces2.deep_view() == spec_rendered_inputs(
                    inputs_view(self.inputs@),
                    dir,
                    i2 as int,
                ),
            decreases self.inputs@.len() - i2,
        {
            let mut piece = String::new();
            crate::strutil::push_char(&mut piece, '(');
            let printed = store.print_store_path(&self.inputs[i2].0);
            push_quoted(&mut piece, printed.as_str());
            crate::strutil::push_char(&mut piece, ',');
            crate::strutil::push_char(&mut piece, '[');
            let mut names: Vec<String> = Vec::new();
            let mut k: usize = 0;
            while k < self.inputs[i2].1.len()
                invariant
                    i2 < self.inputs@.len(),
                    k <= self.inputs@[i2 as int].1@.len(),
                    names.deep_view() == spec_rendered_strings(
                        self.inputs@[i2 as int].1.deep_view(),
                        k as int,
                    ),
                decreases self.inputs@[i2 as int].1@.len() - k,
            {
                let mut q = String::new();
                push_quoted(&mut q, self.inputs[i2].1[k].as_str());
                proof {
                    assert(self.inputs@[i2 as int].1.deep_view()[k as int] == self.inputs@[
                        i2 as int
                    ].1@[k as int]@);
                }
                names.push(q);
                proof {
                    assert(names.deep_view() =~= spec_rendered_strings(
                        self.inputs@[i2 as int].1.deep_view(),
                        k + 1,
                    ));
                }
                k = k + 1;
            }
            push_joined(&mut piece, &names);
            crate::strutil::push_char(&mut piece, ']');
            crate::strutil::push_char(&mut piece, ')');
            proof {
                assert(inputs_view(self.inputs@)[i2 as int] == (
                    self.inputs@[i2 as int].0@,
                    self.inputs@[i2 as int].1.deep_view(),
                ));
                assert(piece@ =~= seq!['('] + spec_quote(
                    spec_print_path(dir, inputs_view(self.inputs@)[i2 as int].0),
                ) + seq![','] + seq!['['] + crate::strutil::spec_join_comma(
                    spec_rendered_strings(
                        inputs_view(self.inputs@)[i2 as int].1,
                        inputs_view(self.inputs@)[i2 as int].1.len() as int,
                    ),
                ) + seq![']'] + seq![')']);
            }
            pieces2.push(piece);
            proof {
                assert(pieces2.deep_view() =~= spec_rendered_inputs(
                    inputs_view(self.inputs@),
                    dir,
                    i2 + 1,
                ));
            }
            i2 = i2 + 1;
        }
        crate::strutil::push_char(&mut out, '[');
        push_joined(&mut out, &pieces2);
        crate::strutil::push_char(&mut out, ']');
        crate::strutil::push_char(&mut out, ',');

        // input sources
        let mut pieces3: Vec<String> = Vec::new();
        let mut i3: usize = 0;
        while i3 < self.input_srcs.len()
            invariant
                i3 <= self.input_srcs@.len(),
                store.spec_has_store_dir(),
                dir == store.spec_store_dir(),
                pieces3.deep_view() == spec_rendered_paths(
                    views_of(self.input_srcs@),
                    dir,
                    i3 as int,
                ),
            decreases self.input_srcs@.len() - i3,
        {
            let mut q = String::new();
            let printed = store.print_store_path(&self.input_srcs[i3]);
            push_quoted(&mut q, printed.as_str());
            proof {
                assert(views_of(self.input_srcs@)[i3 as int] == self.input_srcs@[i3 as int]@);
            }
            pieces3.push(q);
            proof {
                assert(pieces3.deep_view() =~= spec_rendered_paths(
                    views_of(self.input_srcs@),
                    dir,
                    i3 + 1,
                ));
            }
            i3 = i3 + 1;
        }
        crate::strutil::push_char(&mut out, '[');
        push_joined(&mut out, &pieces3);
        crate::strutil::push_char(&mut out, ']');
        crate::strutil::push_char(&mut out, ',');

        push_quoted(&mut out, self.platform.as_str());
        crate::strutil::push_char(&mut out, ',');
        push_quoted(&mut out, self.builder.as_str());
        crate::strutil::push_char(&mut out, ',');

        // arguments
        let mut pieces4: Vec<String> = Vec::new();
        let mut i4: usize = 0;
        while i4 < self.args.len()
            invariant
                i4 <= self.args@.len(),
                pieces4.deep_view() == spec_rendered_strings(self.args.deep_view(), i4 as int),
            decreases self.args@.len() - i4,
        {
            let mut q = String::new();
            push_quoted(&mut q, self.args[i4].as_str());
            proof {
                assert(self.args.deep_view()[i4 as int] == self.args@[i4 as int]@);
            }
            pieces4.push(q);
            proof {
                assert(pieces4.deep_view() =~= spec_rendered_strings(
                    self.args.deep_view(),
                    i4 + 1,
                ));
            }
            i4 = i4 + 1;
        }
        crate::strutil::push_char(&mut out, '[');
        push_joined(&mut out, &pieces4);
        crate::strutil::push_char(&mut out, ']');
        crate::strutil::push_char(&mut out, ',');

        // environment
        let mut pieces5: Vec<String> = Vec::new();
        let mut i5: usize = 0;
        while i5 < self.env.len()
            invariant
                i5 <= self.env@.len(),
                pieces5.deep_view() == spec_rendered_env(env_view(self.env@), i5 as int),
            decreases self.env@.len() - i5,
        {
            let mut piece = String::new();
            crate::strutil::push_char(&mut piece, '(');
            push_quoted(&mut piece, self.env[i5].0.as_str());
            crate::strutil::push_char(&mut piece, ',');
            push_quoted(&mut piece, self.env[i5].1.as_str());
            crate::strutil::push_char(&mut piece, ')');
            proof {
                assert(env_view(self.env@)[i5 as int] == (
                    self.env@[i5 as int].0@,
                    self.env@[i5 as int].1@,
                ));
                assert(piece@ =~= seq!['('] + spec_quote(env_view(self.env@)[i5 as int].0)
                    + seq![','] + spec_quote(env_view(self.env@)[i5 as int].1) + seq![')']);
            }
            pieces5.push(piece);
            proof {
                assert(pieces5.deep_view() =~= spec_rendered_env(env_view(self.env@), i5 + 1));
            }
            i5 = i5 + 1;
        }
        crate::strutil::push_char(&mut out, '[');
        push_joined(&mut out, &pieces5);
        crate::strutil::push_char(&mut out, ']');
        crate::strutil::push_char(&mut out, ')');
        proof {
            assert(out@ =~= spec_print_derivation(self@, dir));
        }
        out
    }
}

/// The value an environment name stands for, the latest entry winning.
pub open spec fn spec_env_lookup(env: Seq<(Seq<char>, Seq<char>)>, name: Seq<char>) -> Option<
    Seq<char>,
>
    decreases env.len(),
{
    if env.len() == 0 {
        None
    } else if env.last().0 == name {
        Some(env.last().1)
    } else {
        spec_env_lookup(env.drop_last(), name)
    }
}

/// A derivation paired with its store path, offering typed attribute
/// lookups over the environment.
#[derive(Debug, Clone)]
pub struct ParsedDerivation {
    pub drv_path: StorePath,
    pub derivation: Derivation,
}

impl ParsedDerivation {
    /// Pairs a derivation with its path. A derivation whose attributes
    /// come from a structured `__json` payload is a declared extension
    /// point and is refused here.
    pub fn new(drv_path: StorePath, derivation: Derivation) -> (r: Result<Self, StoreError>)
        ensures
            match r {
                Ok(p) => spec_env_lookup(env_view(derivation.env@), "__json"@) is None && p.drv_path
                    == drv_path && p.derivation == derivation,
                Err(_) => spec_env_lookup(env_view(derivation.env@), "__json"@) is Some,
            },
    {
        if env_lookup(&derivation.env, "__json").is_some() {
            return Err(StoreError::Unimplemented {
                msg: String::from_str("__json attribute in derivation"),
            });
        }
        Ok(ParsedDerivation { drv_path, derivation })
    }

    /// The string value of an environment attribute.
    pub fn get_string_attr(&self, name: &str) -> (r: Option<String>)
        ensures
            match r {
                Some(s) => spec_env_lookup(env_view(self.derivation.env@), name@) == Some(s@),
                None => spec_env_lookup(env_view(self.derivation.env@), name@) is None,
            },
    {
        match env_lookup(&self.derivation.env, name) {
            Some(v) => Some(v.clone()),
            None => None,
        }
    }

    /// A boolean attribute: absent means `false`.
    pub fn get_bool_attr(&self, name: &str) -> (r: bool)
        ensures
            r == (spec_env_lookup(env_view(self.derivation.env@), name@) == Some("1"@)),
    {
        self.get_bool_attr_default(name, false)
    }

    /// A boolean attribute: `"1"` is true, any other value false, absent
    /// the default.
    pub fn get_bool_attr_default(&self, name: &str, default: bool) -> (r: bool)
        ensures
            r == match spec_env_lookup(env_view(self.derivation.env@), name@) {
                Option::Some(v) => v == "1"@,
                Option::None => default,
            },
    {
        match self.get_string_attr(name) {
            Some(v) => str_eq(v.as_str(), "1"),
            None => default,
        }
    }

    /// A list attribute: the value split on spaces.
    pub fn get_strings_attr(&self, name: &str) -> (r: Option<Vec<String>>)
        ensures
            match r {
                Some(v) => match spec_env_lookup(env_view(self.derivation.env@), name@) {
                    Option::Some(s) => v.deep_view() == spec_split(s, ' '),
                    Option::None => false,
                },
                None => spec_env_lookup(env_view(self.derivation.env@), name@) is None,
            },
    {
        match self.get_string_attr(name) {
            Some(v) => Some(split_char(v.as_str(), ' ')),
            None => None,
        }
    }

    /// The features this derivation demands of the host.
    pub fn get_required_system_features(&self) -> (r: Vec<String>)
        ensures
            r.deep_view() == match spec_env_lookup(
                env_view(self.derivation.env@),
                "requiredSystemFeatures"@,
            ) {
                Option::Some(s) => spec_split(s, ' '),
                Option::None => Seq::<Seq<char>>::empty(),
            },
    {
        match self.get_strings_attr("requiredSystemFeatures") {
            Some(v) => v,
            None => {
                let v: Vec<String> = Vec::new();
                assert(v.deep_view() =~= Seq::<Seq<char>>::empty());
                v
            },
        }
    }

    /// Whether this host can build the derivation: the platform matches
    /// the system or an extra platform, or the builder is built in; and
    /// every required feature is provided.
    pub fn can_build_locally(
        &self,
        system: &str,
        extra_platforms: &Vec<String>,
        features: &Vec<String>,
    ) -> (r: bool)
        ensures
            r == ({
                let platform_ok = self.derivation.platform@ == system@ || contains_str(
                    extra_platforms.deep_view(),
                    self.derivation.platform@,
                ) || spec_starts_with(self.derivation.builder@, "builtin:"@);
                platform_ok && spec_has_features(
                    spec_required_features(env_view(self.derivation.env@)),
                    features.deep_view(),
                )
            }),
    {
        let platform_matches = str_eq(self.derivation.platform.as_str(), system);
        let in_extra = vec_contains_str(extra_platforms, self.derivation.platform.as_str());
        let builtin = self.derivation.is_builtin();
        if !platform_matches && !in_extra && !builtin {
            return false;
        }
        let needed = self.get_required_system_features();
        let ok = has_all_features(&needed, features);
        proof {
            assert(needed.deep_view() == spec_required_features(env_view(self.derivation.env@)));
        }
        ok
    }

    /// Whether the derivation prefers a local build and the host can do it.
    pub fn will_build_locally(
        &self,
        system: &str,
        extra_platforms: &Vec<String>,
        features: &Vec<String>,
    ) -> (r: bool)
        ensures
            r == ({
                let env = env_view(self.derivation.env@);
                let platform_ok = self.derivation.platform@ == system@ || contains_str(
                    extra_platforms.deep_view(),
                    self.derivation.platform@,
                ) || spec_starts_with(self.derivation.builder@, "builtin:"@);
                spec_env_lookup(env, "preferLocalBuild"@) == Some("1"@) && platform_ok
                    && spec_has_features(spec_required_features(env), features.deep_view())
            }),
    {
        self.get_bool_attr("preferLocalBuild") && self.can_build_locally(
            system,
            extra_platforms,
            features,
        )
    }

    /// Whether substituting the outputs is allowed; the default is yes.
    pub fn substitutes_allowed(&self) -> (r: bool)
        ensures
            r == match spec_env_lookup(env_view(self.derivation.env@), "allowSubstitutes"@) {
                Option::Some(v) => v == "1"@,
                Option::None => true,
            },
    {
        self.get_bool_attr_default("allowSubstitutes", true)
    }

    /// Whether the derivation declares itself content-addressed.
    pub fn content_addressed(&self) -> (r: bool)
        ensures
            r == (spec_env_lookup(env_view(self.derivation.env@), "__contentAddressed"@) is Some),
    {
        self.get_string_attr("__contentAddressed").is_some()
    }
}

/// The features a derivation demands, read from its environment.
pub open spec fn spec_required_features(env: Seq<(Seq<char>, Seq<char>)>) -> Seq<Seq<char>> {
    match spec_env_lookup(env, "requiredSystemFeatures"@) {
        Option::Some(s) => spec_split(s, ' '),
        Option::None => Seq::<Seq<char>>::empty(),
    }
}

/// Whether every needed feature occurs among the provided ones.
pub open spec fn spec_has_features(needed: Seq<Seq<char>>, have: Seq<Seq<char>>) -> bool {
    forall|i: int| 0 <= i < needed.len() ==> contains_str(have, #[trigger] needed[i])
}

/// Whether a string value occurs in a list of strings.
pub open spec fn contains_str(hay: Seq<Seq<char>>, needle: Seq<char>) -> bool {
    exists|i: int| 0 <= i < hay.len() && hay[i] == needle
}

fn has_all_features(needed: &Vec<String>, features: &Vec<String>) -> (r: bool)
    ensures
        r == spec_has_features(needed.deep_view(), features.deep_view()),
{
    let ghost nv = needed.deep_view();
    let mut i: usize = 0;
    while i < needed.len()
        invariant
            i <= needed@.len(),
            needed.deep_view() == nv,
            nv.len() == needed@.len(),
            forall|k: int| 0 <= k < i ==> contains_str(features.deep_view(), #[trigger] nv[k]),
        decreases needed@.len() - i,
    {
        assert(nv[i as int] == needed@[i as int]@);
        if !vec_contains_str(features, needed[i].as_str()) {
            proof {
                assert(!(forall|k: int|
                    0 <= k < nv.len() ==> contains_str(
                        features.deep_view(),
                        #[trigger] nv[k],
                    ))) by {
                    assert(!contains_str(features.deep_view(), nv[i as int]));
                }
            }
            return false;
        }
        i = i + 1;
    }
    true
}

pub fn vec_contains_str(hay: &Vec<String>, needle: &str) -> (r: bool)
    ensures
        r == contains_str(hay.deep_view(), needle@),
{
    let mut i: usize = 0;
    while i < hay.len()
        invariant
            i <= hay@.len(),
            hay.deep_view().len() == hay@.len(),
            forall|k: int| 0 <= k < i ==> hay.deep_view()[k] != needle@,
        decreases hay@.len() - i,
    {
        assert(hay.deep_view()[i as int] == hay@[i as int]@);
        if str_eq(hay[i].as_str(), needle) {
            return true;
        }
        i = i + 1;
    }
    false
}

fn env_lookup<'a>(env: &'a Vec<(String, String)>, name: &str) -> (r: Option<&'a String>)
    ensures
        match r {
            Some(v) => spec_env_lookup(env_view(env@), name@) == Some(v@),
            None => spec_env_lookup(env_view(env@), name@) is None,
        },
{
    let n = env.len();
    let mut i: usize = n;
    proof {
        assert(env_view(env@).len() == env@.len());
        assert(env_view(env@).take(n as int) =~= env_view(env@));
        lemma_env_lookup_prefix(env@, name@, n as int);
    }
    while i > 0
        invariant
            i <= n,
            n == env@.len(),
            env_view(env@).len() == env@.len(),
            forall|k: int| 0 <= k < env@.len() ==> env_view(env@)[k] == (env@[k].0@, env@[k].1@),
            spec_env_lookup(env_view(env@), name@) == spec_env_lookup(
                env_view(env@).take(i as int),
                name@,
            ),
        decreases i,
    {
        i = i - 1;
        proof {
            assert(env_view(env@).take(i + 1).last() == env_view(env@)[i as int]);
            assert(env_view(env@).take(i + 1).drop_last() =~= env_view(env@).take(i as int));
        }
        if str_eq(env[i].0.as_str(), name) {
            return Some(&env[i].1);
        }
    }
    proof {
        assert(env_view(env@).take(0) =~= Seq::<(Seq<char>, Seq<char>)>::empty());
    }
    None
}

proof fn lemma_env_lookup_prefix(env: Seq<(String, String)>, name: Seq<char>, n: int)
    requires
        n == env.len(),
    ensures
        forall|k: int| 0 <= k < env.len() ==> env_view(env)[k] == (env[k].0@, env[k].1@),
{
}

} // verus!
