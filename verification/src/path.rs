//! Store paths: the parsed basename `<32-char base32 hash>-<name>` and the
//! pairing of a path with requested output names.

use vstd::prelude::*;

use crate::base32;
use crate::error::StoreError;
use crate::strutil::{ends_with, spec_ends_with, str_eq};

verus! {

/// Characters the base-32 alphabet leaves out: they may not appear in the
/// hash part of a store basename.
pub open spec fn spec_forbidden_hash_char(c: char) -> bool {
    c == 'e' || c == 'o' || c == 't' || c == 'u'
}

/// A well-formed store basename: at least 34 characters, a dash after the
/// 32-character hash part, no forbidden character in the hash part, and a
/// name free of path separators and NUL.
pub open spec fn spec_store_basename_ok(s: Seq<char>) -> bool {
    &&& s.len() >= 34
    &&& s[32] == '-'
    &&& forall|i: int| 0 <= i < 32 ==> !spec_forbidden_hash_char(s[i])
    &&& forall|i: int| 33 <= i < s.len() ==> s[i] != '/' && s[i] != '\u{0}'
}

/// A parsed store basename. Values exist only for well-formed basenames.
#[derive(Debug, Clone, Hash)]
pub struct StorePath {
    base_name: String,
}

impl View for StorePath {
    type V = Seq<char>;

    closed spec fn view(&self) -> Seq<char> {
        self.base_name@
    }
}

impl PartialEq for StorePath {
    fn eq(&self, other: &StorePath) -> (r: bool) {
        str_eq(self.base_name.as_str(), other.base_name.as_str())
    }
}

impl vstd::std_specs::cmp::PartialEqSpecImpl for StorePath {
    open spec fn obeys_eq_spec() -> bool {
        true
    }

    open spec fn eq_spec(&self, other: &StorePath) -> bool {
        self@ == other@
    }
}

impl Eq for StorePath {}

impl StorePath {
    /// Whether this value holds a well-formed basename. Constructors
    /// establish this and every method keeps it.
    pub open spec fn wf(&self) -> bool {
        spec_store_basename_ok(self@)
    }

    /// Parses a basename. Too short a string, or a missing dash after the
    /// hash part, is not in the store; a forbidden character in the hash
    /// part is an invalid hash part.
    pub fn new(base_name: &str) -> (r: Result<Self, StoreError>)
        ensures
            match r {
                Ok(p) => spec_store_basename_ok(base_name@) && p@ == base_name@ && p.wf(),
                Err(_) => !spec_store_basename_ok(base_name@),
            },
            base_name@.len() < 34 ==> r matches Err(StoreError::NotInStore { .. }),
            base_name@.len() >= 34 && (exists|i: int|
                0 <= i < 32 && spec_forbidden_hash_char(base_name@[i])) ==> r matches Err(
                StoreError::InvalidHashPart { .. },
            ),
            base_name@.len() >= 34 && (forall|i: int|
                0 <= i < 32 ==> !spec_forbidden_hash_char(base_name@[i])) && base_name@[32] != '-'
                ==> r matches Err(StoreError::NotInStore { .. }),
    {
        let n = base_name.unicode_len();
        if n < 34 {
            return Err(StoreError::NotInStore { path: base_name.to_owned() });
        }
        let mut i: usize = 0;
        while i < 32
            invariant
                i <= 32,
                n == base_name@.len(),
                n >= 34,
                forall|k: int| 0 <= k < i ==> !spec_forbidden_hash_char(base_name@[k]),
            decreases 32 - i,
        {
            let c = base_name.get_char(i);
            if c == 'e' || c == 'o' || c == 'u' || c == 't' {
                return Err(StoreError::InvalidHashPart {
                    path: base_name.to_owned(),
                    hash_part: base_name.substring_char(0, 32).to_owned(),
                });
            }
            i = i + 1;
        }
        if base_name.get_char(32) != '-' {
            return Err(StoreError::NotInStore { path: base_name.to_owned() });
        }
        let mut j: usize = 33;
        while j < n
            invariant
                33 <= j <= n,
                n == base_name@.len(),
                n >= 34,
                base_name@[32] == '-',
                forall|k: int| 0 <= k < 32 ==> !spec_forbidden_hash_char(base_name@[k]),
                forall|k: int| 33 <= k < j ==> base_name@[k] != '/' && base_name@[k] != '\u{0}',
            decreases n - j,
        {
            let c = base_name.get_char(j);
            if c == '/' || c == '\u{0}' {
                return Err(StoreError::NotInStore { path: base_name.to_owned() });
            }
            j = j + 1;
        }
        Ok(StorePath { base_name: base_name.to_owned() })
    }

    /// Composes `<base32(hash)>-<name>` and parses it.
    pub fn new_hash(hash: crate::hash::Hash, name: &str) -> (r: Result<Self, StoreError>)
        ensures
            match r {
                Ok(p) => {
                    &&& p.wf()
                    &&& match hash@ {
                        crate::hash::HashV::Sha256(b) => p@ == crate::hash::base32_rfc4648_of(b) + seq!['-']
                            + name@,
                        crate::hash::HashV::Compressed(b) => p@ == base32::spec_encode(b) + seq!['-'] + name@,
                        crate::hash::HashV::Empty => false,
                    }
                },
                Err(_) => true,
            },
            (match hash@ {
                crate::hash::HashV::Compressed(b) => b.len() * 8 <= usize::MAX && spec_store_basename_ok(
                    base32::spec_encode(b) + seq!['-'] + name@,
                ),
                _ => false,
            }) ==> r is Ok,
    {
        let prefix = match hash.to_base32() {
            Ok(s) => s,
            Err(e) => {
                return Err(e);
            },
        };
        let ghost pv = prefix@;
        let mut s = prefix;
        crate::strutil::push_char(&mut s, '-');
        s.append(name);
        assert(s@ =~= pv + seq!['-'] + name@);
        StorePath::new(s.as_str())
    }

    /// Whether the name ends in `.drv`.
    pub fn is_derivation(&self) -> (r: bool)
        ensures
            r == spec_ends_with(self@, ".drv"@),
    {
        ends_with(self.base_name.as_str(), ".drv")
    }

    /// The name: everything after the dash.
    pub fn name(&self) -> (r: String)
        requires
            self.wf(),
        ensures
            r@ == self@.skip(33),
    {
        let n = self.base_name.unicode_len();
        self.base_name.as_str().substring_char(33, n).to_owned()
    }

    /// The hash part: the first 32 characters.
    pub fn hash_part(&self) -> (r: String)
        requires
            self.wf(),
        ensures
            r@ == self@.take(32),
    {
        self.base_name.as_str().substring_char(0, 32).to_owned()
    }

    /// A copy of this path with the same basename.
    pub fn clone_path(&self) -> (r: StorePath)
        ensures
            r@ == self@,
    {
        StorePath { base_name: self.base_name.as_str().to_owned() }
    }

    /// Whether this value holds a well-formed basename, checked again at
    /// run time.
    pub fn wf_check(&self) -> (r: bool)
        ensures
            r == self.wf(),
    {
        let n = self.base_name.as_str().unicode_len();
        if n < 34 {
            return false;
        }
        if self.base_name.as_str().get_char(32) != '-' {
            return false;
        }
        let mut i: usize = 0;
        while i < 32
            invariant
                i <= 32,
                n == self@.len(),
                n >= 34,
                self@[32] == '-',
                forall|k: int| 0 <= k < i ==> !spec_forbidden_hash_char(self@[k]),
            decreases 32 - i,
        {
            let c = self.base_name.as_str().get_char(i);
            if c == 'e' || c == 'o' || c == 'u' || c == 't' {
                return false;
            }
            i = i + 1;
        }
        let mut j: usize = 33;
        while j < n
            invariant
                33 <= j <= n,
                n == self@.len(),
                n >= 34,
                self@[32] == '-',
                forall|k: int| 0 <= k < 32 ==> !spec_forbidden_hash_char(self@[k]),
                forall|k: int| 33 <= k < j ==> self@[k] != '/' && self@[k] != '\u{0}',
            decreases n - j,
        {
            let c = self.base_name.as_str().get_char(j);
            if c == '/' || c == '\u{0}' {
                return false;
            }
            j = j + 1;
        }
        true
    }

    /// The whole basename.
    pub fn to_text(&self) -> (r: String)
        ensures
            r@ == self@,
    {
        self.base_name.as_str().to_owned()
    }
}

/// The hash part of a well-formed store path never holds `e`, `o`, `t` or `u`.
pub proof fn lemma_hash_part_excludes(p: &StorePath)
    requires
        p.wf(),
    ensures
        forall|i: int| 0 <= i < 32 ==> !spec_forbidden_hash_char(p@.take(32)[i]),
{
}

/// A store path together with the output names asked of it.
#[derive(Debug, Clone)]
pub struct StorePathWithOutputs {
    pub path: StorePath,
    pub outputs: Vec<String>,
}

impl StorePathWithOutputs {
    /// Pairs a path with no output names.
    pub fn new(path: StorePath) -> (r: Self)
        ensures
            r.path == path,
            r.outputs@.len() == 0,
    {
        StorePathWithOutputs { path, outputs: Vec::new() }
    }

    /// Pairs a path with the given output names.
    pub fn new_with_outputs(path: StorePath, outputs: Vec<String>) -> (r: Self)
        ensures
            r.path == path,
            r.outputs == outputs,
    {
        StorePathWithOutputs { path, outputs }
    }
}

impl PartialEq for StorePathWithOutputs {
    fn eq(&self, other: &StorePathWithOutputs) -> (r: bool) {
        if !str_eq(self.path.base_name.as_str(), other.path.base_name.as_str()) {
            return false;
        }
        if self.outputs.len() != other.outputs.len() {
            proof {
                assert(self.outputs.deep_view().len() == self.outputs@.len());
                assert(other.outputs.deep_view().len() == other.outputs@.len());
            }
            return false;
        }
        let n = self.outputs.len();
        let mut i: usize = 0;
        while i < n
            invariant
                i <= n,
                n == self.outputs@.len(),
                n == other.outputs@.len(),
                forall|k: int| 0 <= k < i ==> self.outputs@[k]@ == other.outputs@[k]@,
            decreases n - i,
        {
            if !str_eq(self.outputs[i].as_str(), other.outputs[i].as_str()) {
                proof {
                    assert(self.outputs.deep_view()[i as int] == self.outputs@[i as int]@);
                    assert(other.outputs.deep_view()[i as int] == other.outputs@[i as int]@);
                }
                return false;
            }
            i = i + 1;
        }
        proof {
            assert(self.outputs.deep_view() =~= other.outputs.deep_view()) by {
                assert(forall|k: int|
                    0 <= k < n ==> self.outputs.deep_view()[k] == self.outputs@[k]@
                        && other.outputs.deep_view()[k] == other.outputs@[k]@);
            }
        }
        true
    }
}

impl vstd::std_specs::cmp::PartialEqSpecImpl for StorePathWithOutputs {
    open spec fn obeys_eq_spec() -> bool {
        true
    }

    open spec fn eq_spec(&self, other: &StorePathWithOutputs) -> bool {
        self.path@ == other.path@ && self.outputs.deep_view() == other.outputs.deep_view()
    }
}

impl Eq for StorePathWithOutputs {}

} // verus!
