//! The store interface: directory layout, parsing and printing of store
//! paths, and the derivation of content-addressed path names.

use vstd::prelude::*;
use vstd::utf8::encode_utf8;

use crate::base32;
use crate::error::StoreError;
use crate::hash::{hex_lower_of, sha256_of, xor_fold};
use crate::path::{spec_store_basename_ok, StorePath, StorePathWithOutputs};
use crate::strutil::{spec_split, split_char, starts_with};

verus! {

/// The views of a sequence of store paths.
pub open spec fn views_of(refs: Seq<StorePath>) -> Seq<Seq<char>> {
    refs.map_values(|p: StorePath| p@)
}

/// A printed store path: the store directory, a slash, the basename.
pub open spec fn spec_print_path(dir: Seq<char>, base: Seq<char>) -> Seq<char> {
    dir + seq!['/'] + base
}

/// The basename of a path directly under `dir`, or nothing.
pub open spec fn spec_parse_basename(dir: Seq<char>, path: Seq<char>) -> Option<Seq<char>> {
    if path.len() > dir.len() + 1 && path.take(dir.len() as int) == dir && path[dir.len() as int]
        == '/' && (forall|i: int| dir.len() + 1 <= i < path.len() ==> path[i] != '/') {
        Some(path.skip(dir.len() as int + 1))
    } else {
        None
    }
}

/// The first `k` references appended to the type tag, each as
/// `:<printed path>`.
pub open spec fn spec_make_type_refs(
    dir: Seq<char>,
    t: Seq<char>,
    refs: Seq<Seq<char>>,
    k: int,
) -> Seq<char>
    decreases k,
{
    if k <= 0 {
        t
    } else {
        spec_make_type_refs(dir, t, refs, k - 1) + seq![':'] + spec_print_path(dir, refs[k - 1])
    }
}

/// The type tag of a store path: the tag itself, one `:<printed path>` per
/// reference, and `:self` for a self-reference.
pub open spec fn spec_make_type(
    dir: Seq<char>,
    t: Seq<char>,
    refs: Seq<Seq<char>>,
    has_self_ref: bool,
) -> Seq<char> {
    spec_make_type_refs(dir, t, refs, refs.len() as int) + if has_self_ref {
        ":self"@
    } else {
        Seq::<char>::empty()
    }
}

/// The string whose digest names a store path:
/// `<type>:sha256:<hex>:<store dir>:<name>`.
pub open spec fn spec_store_path_text(
    dir: Seq<char>,
    file_type: Seq<char>,
    hash_bytes: Seq<u8>,
    name: Seq<char>,
) -> Seq<char> {
    file_type + seq![':'] + "sha256:"@ + hex_lower_of(hash_bytes) + seq![':'] + dir + seq![':']
        + name
}

/// The basename a store path derivation produces: the text above is
/// SHA-256-hashed, folded to 20 bytes, base-32 encoded and joined with the
/// name — when the pieces make a well-formed basename.
pub open spec fn spec_make_store_path(
    dir: Seq<char>,
    file_type: Seq<char>,
    hash_bytes: Seq<u8>,
    name: Seq<char>,
) -> Option<Seq<char>> {
    let s = spec_store_path_text(dir, file_type, hash_bytes, name);
    let parts = spec_split(s, ':');
    if parts.len() >= 4 && parts[parts.len() - 4] == "sha256"@ {
        let base = base32::spec_encode(xor_fold(sha256_of(encode_utf8(s)), 20)) + seq!['-'] + name;
        if spec_store_basename_ok(base) {
            Some(base)
        } else {
            None
        }
    } else {
        None
    }
}

/// How a file tree is turned into content-address bytes: as one flat file,
/// or recursively as an archive.
#[derive(Debug, PartialEq, Eq, Structural, Clone, Copy)]
pub enum FileIngestionMethod {
    Flat,
    Recursive,
}

impl FileIngestionMethod {
    /// Reads the wire encoding of the method.
    pub fn from_u64(value: u64) -> (r: Result<Self, StoreError>)
        ensures
            match r {
                Ok(m) => (value == 0 && m == FileIngestionMethod::Flat) || (value == 1 && m
                    == FileIngestionMethod::Recursive),
                Err(_) => value > 1,
            },
    {
        match value {
            0 => Ok(FileIngestionMethod::Flat),
            1 => Ok(FileIngestionMethod::Recursive),
            _ => Err(StoreError::InvalidFileIngestionMethode { methode: value as u8 }),
        }
    }
}

/// A free-form store parameter.
#[derive(Debug, Clone)]
pub enum Param {
    String(String),
    Bool(bool),
    UInt(usize),
}

/// What `query_missing` found: paths to build, paths a substituter can
/// serve with their sizes, and paths nobody knows.
#[derive(Debug)]
pub struct MissingInfo {
    pub done: Vec<String>,
    pub will_build: Vec<StorePath>,
    pub will_substitute: Vec<StorePath>,
    pub unknown: Vec<StorePath>,
    pub download_size: u64,
    pub nar_size: u64,
}

impl MissingInfo {
    /// All counters zero, all sets empty.
    pub fn new() -> (r: Self)
        ensures
            r.done@.len() == 0,
            r.will_build@.len() == 0,
            r.will_substitute@.len() == 0,
            r.unknown@.len() == 0,
            r.download_size == 0,
            r.nar_size == 0,
    {
        MissingInfo {
            done: Vec::new(),
            will_build: Vec::new(),
            will_substitute: Vec::new(),
            unknown: Vec::new(),
            download_size: 0,
            nar_size: 0,
        }
    }
}

/// The base store interface: where the store lives, and how paths under it
/// are parsed, printed and derived.
pub trait Store {
    /// Whether this store names a store directory.
    spec fn spec_has_store_dir(&self) -> bool;

    /// The store directory.
    spec fn spec_store_dir(&self) -> Seq<char>;

    /// Whether this store names a state directory.
    spec fn spec_has_state_dir(&self) -> bool;

    /// The state directory.
    spec fn spec_state_dir(&self) -> Seq<char>;

    /// The store directory, e.g. `/nix/store`.
    fn get_store_dir(&self) -> (r: Result<String, StoreError>)
        ensures
            r is Ok <==> self.spec_has_store_dir(),
            r matches Ok(s) ==> s@ == self.spec_store_dir(),
    ;

    /// The state directory, e.g. `/nix/var/nix`.
    fn get_state_dir(&self) -> (r: Result<String, StoreError>)
        ensures
            r is Ok <==> self.spec_has_state_dir(),
            r matches Ok(s) ==> s@ == self.spec_state_dir(),
    ;

    /// Parses a full path `<store dir>/<basename>`; a path not directly
    /// under the store directory is not in the store.
    fn parse_store_path(&self, path: &str) -> (r: Result<StorePath, StoreError>)
        ensures
            !self.spec_has_store_dir() ==> r is Err,
            self.spec_has_store_dir() ==> match spec_parse_basename(
                self.spec_store_dir(),
                path@,
            ) {
                Option::Some(base) => match r {
                    Ok(p) => spec_store_basename_ok(base) && p@ == base && p.wf(),
                    Err(_) => !spec_store_basename_ok(base),
                },
                Option::None => r is Err,
            },
    {
        let dir = self.get_store_dir()?;
        let dlen = dir.as_str().unicode_len();
        let plen = path.unicode_len();
        if plen <= dlen {
            return Err(StoreError::NotInStore { path: path.to_owned() });
        }
        if plen <= dlen + 1 {
            return Err(StoreError::NotInStore { path: path.to_owned() });
        }
        if !starts_with(path, dir.as_str()) {
            return Err(StoreError::NotInStore { path: path.to_owned() });
        }
        if path.get_char(dlen) != '/' {
            return Err(StoreError::NotInStore { path: path.to_owned() });
        }
        let mut i: usize = dlen + 1;
        while i < plen
            invariant
                dlen + 1 <= i <= plen,
                plen == path@.len(),
                dlen == dir@.len(),
                self.spec_has_store_dir(),
                dir@ == self.spec_store_dir(),
                path@.take(dlen as int) == dir@,
                path@[dlen as int] == '/',
                forall|k: int| dlen + 1 <= k < i ==> path@[k] != '/',
            decreases plen - i,
        {
            if path.get_char(i) == '/' {
                proof {
                    assert(!(forall|k: int|
                        dir@.len() + 1 <= k < path@.len() ==> path@[k] != '/')) by {
                        assert(dir@.len() + 1 <= (i as int) && (i as int) < path@.len() && path@[
                            i as int
                        ] == '/');
                    }
                }
                return Err(StoreError::NotInStore { path: path.to_owned() });
            }
            i = i + 1;
        }
        let base = path.substring_char(dlen + 1, plen);
        assert(base@ =~= path@.skip(dlen as int + 1));
        StorePath::new(base)
    }

    /// Parses `<path>[!out1,out2,...]`; more than one `!` is refused.
    fn parse_store_path_with_outputs(&self, path: &str) -> (r: Result<
        StorePathWithOutputs,
        StoreError,
    >)
        ensures
            !self.spec_has_store_dir() ==> r is Err,
            self.spec_has_store_dir() ==> ({
                let parts = spec_split(path@, '!');
                if parts.len() > 2 {
                    r is Err
                } else {
                    match spec_parse_basename(self.spec_store_dir(), parts[0]) {
                        Option::Some(base) => match r {
                            Ok(po) => {
                                &&& spec_store_basename_ok(base)
                                &&& po.path@ == base
                                &&& po.path.wf()
                                &&& po.outputs.deep_view() == if parts.len() == 2 {
                                    spec_split(parts[1], ',')
                                } else {
                                    Seq::<Seq<char>>::empty()
                                }
                            },
                            Err(_) => !spec_store_basename_ok(base),
                        },
                        Option::None => r is Err,
                    }
                }
            }),
    {
        let parts = split_char(path, '!');
        if parts.len() > 2 {
            return Err(StoreError::NotInStore { path: path.to_owned() });
        }
        assert(parts.deep_view()[0] == parts@[0]@);
        let p = self.parse_store_path(parts[0].as_str())?;
        let mut outputs: Vec<String> = Vec::new();
        if parts.len() == 2 {
            assert(parts.deep_view()[1] == parts@[1]@);
            outputs = split_char(parts[1].as_str(), ',');
        } else {
            assert(outputs.deep_view() =~= Seq::<Seq<char>>::empty());
        }
        Ok(StorePathWithOutputs::new_with_outputs(p, outputs))
    }

    /// Prints a store path under this store's directory.
    fn print_store_path(&self, path: &StorePath) -> (r: String)
        requires
            self.spec_has_store_dir(),
        ensures
            r@ == spec_print_path(self.spec_store_dir(), path@),
    {
        let dir = match self.get_store_dir() {
            Ok(d) => d,
            Err(_) => {
                proof {
                    assert(false);
                }
                String::new()
            },
        };
        let mut s = dir;
        crate::strutil::push_char(&mut s, '/');
        let base = path.to_text();
        s.append(base.as_str());
        assert(s@ =~= spec_print_path(self.spec_store_dir(), path@));
        s
    }

    /// Builds the type tag `<type>[:ref]*[:self]` over printed references.
    fn make_type(&self, path_type: &str, refs: &Vec<StorePath>, has_self_ref: bool) -> (r: String)
        requires
            self.spec_has_store_dir(),
        ensures
            r@ == spec_make_type(self.spec_store_dir(), path_type@, views_of(refs@), has_self_ref),
    {
        let mut res = path_type.to_owned();
        let mut i: usize = 0;
        while i < refs.len()
            invariant
                i <= refs@.len(),
                self.spec_has_store_dir(),
                res@ == spec_make_type_refs(
                    self.spec_store_dir(),
                    path_type@,
                    views_of(refs@),
                    i as int,
                ),
            decreases refs@.len() - i,
        {
            crate::strutil::push_char(&mut res, ':');
            let printed = self.print_store_path(&refs[i]);
            res.append(printed.as_str());
            proof {
                assert(views_of(refs@)[i as int] == refs@[i as int]@);
                assert(res@ =~= spec_make_type_refs(
                    self.spec_store_dir(),
                    path_type@,
                    views_of(refs@),
                    i + 1,
                ));
            }
            i = i + 1;
        }
        if has_self_ref {
            res.append(":self");
        }
        proof {
            if !has_self_ref {
                assert(res@ + Seq::<char>::empty() =~= res@);
            }
        }
        res
    }

    /// Derives the store path for `name` from a type tag and a SHA-256
    /// digest: the text `<type>:sha256:<hex>:<dir>:<name>` is hashed,
    /// folded to 20 bytes, and base-32 encoded.
    fn make_store_path(&self, file_type: &str, hash: &crate::hash::Hash, name: &str) -> (r: Result<
        StorePath,
        StoreError,
    >)
        requires
            self.spec_has_store_dir(),
            hash@ is Sha256,
            hash@->Sha256_0.len() <= usize::MAX / 512,
        ensures
            match r {
                Ok(p) => spec_make_store_path(
                    self.spec_store_dir(),
                    file_type@,
                    hash@->Sha256_0,
                    name@,
                ) == Some(p@) && p.wf(),
                Err(_) => spec_make_store_path(
                    self.spec_store_dir(),
                    file_type@,
                    hash@->Sha256_0,
                    name@,
                ) is None,
            },
    {
        let dir = match self.get_store_dir() {
            Ok(d) => d,
            Err(e) => {
                proof {
                    assert(false);
                }
                return Err(e);
            },
        };
        let mut s = file_type.to_owned();
        crate::strutil::push_char(&mut s, ':');
        let sql = hash.to_sql_string();
        s.append(sql.as_str());
        crate::strutil::push_char(&mut s, ':');
        s.append(dir.as_str());
        crate::strutil::push_char(&mut s, ':');
        s.append(name);
        assert(s@ =~= spec_store_path_text(
            self.spec_store_dir(),
            file_type@,
            hash@->Sha256_0,
            name@,
        ));
        let h = crate::hash::Hash::hash_string(s.as_str())?;
        let folded = h.compress_hash(20)?;
        StorePath::new_hash(folded, name)
    }

    /// The store path of a text blob: type `text` with the references.
    fn make_text_path(&self, suffix: &str, hash: &crate::hash::Hash, refs: &Vec<StorePath>) -> (r:
        Result<StorePath, StoreError>)
        requires
            self.spec_has_store_dir(),
            hash@ is Sha256 ==> hash@->Sha256_0.len() <= usize::MAX / 512,
        ensures
            !(hash@ is Sha256) ==> r matches Err(StoreError::MissingHash { .. }),
            hash@ is Sha256 ==> ({
                let expected = spec_make_store_path(
                    self.spec_store_dir(),
                    spec_make_type(self.spec_store_dir(), "text"@, views_of(refs@), false),
                    hash@->Sha256_0,
                    suffix@,
                );
                match r {
                    Ok(p) => expected == Some(p@) && p.wf(),
                    Err(_) => expected is None,
                }
            }),
    {
        if !hash.is_sha256() {
            return Err(StoreError::MissingHash { path: String::from_str("wrong hash") });
        }
        let path_type = self.make_type("text", refs, false);
        self.make_store_path(path_type.as_str(), hash, suffix)
    }

    /// The store path of fixed-output content. Recursive SHA-256 content
    /// uses the `source` type string directly; any other combination
    /// hashes `fixed:out:<sql hash>:` first and uses `output:out`.
    fn make_fixed_output_path(
        &self,
        methode: FileIngestionMethod,
        hash: &crate::hash::Hash,
        name: &str,
        refs: &Vec<StorePath>,
        has_self_ref: bool,
    ) -> (r: Result<StorePath, StoreError>)
        requires
            self.spec_has_store_dir(),
            hash@ is Sha256,
            hash@->Sha256_0.len() <= usize::MAX / 512,
            methode == FileIngestionMethod::Recursive || refs@.len() == 0,
        ensures
            methode == FileIngestionMethod::Recursive ==> ({
                let expected = spec_make_store_path(
                    self.spec_store_dir(),
                    spec_make_type(self.spec_store_dir(), "source"@, views_of(refs@), has_self_ref),
                    hash@->Sha256_0,
                    name@,
                );
                match r {
                    Ok(p) => expected == Some(p@) && p.wf(),
                    Err(_) => expected is None,
                }
            }),
            methode == FileIngestionMethod::Flat ==> ({
                let s2 = "fixed:out:sha256:"@ + hex_lower_of(hash@->Sha256_0) + seq![':'];
                let expected = spec_make_store_path(
                    self.spec_store_dir(),
                    "output:out"@,
                    sha256_of(encode_utf8(s2)),
                    name@,
                );
                match r {
                    Ok(p) => expected == Some(p@) && p.wf(),
                    Err(_) => expected is None,
                }
            }),
    {
        if hash.is_sha256() && matches!(methode, FileIngestionMethod::Recursive) {
            let path_type = self.make_type("source", refs, has_self_ref);
            self.make_store_path(path_type.as_str(), hash, name)
        } else {
            let mut s2 = String::from_str("fixed:out:");
            let sql = hash.to_sql_string();
            s2.append(sql.as_str());
            crate::strutil::push_char(&mut s2, ':');
            assert(s2@ =~= "fixed:out:sha256:"@ + hex_lower_of(hash@->Sha256_0) + seq![':']) by {
                reveal_strlit("fixed:out:");
                reveal_strlit("sha256:");
                reveal_strlit("fixed:out:sha256:");
            }
            let h2 = match crate::hash::Hash::hash_string_sha256(s2.as_str()) {
                Ok(h) => h,
                Err(e) => {
                    return Err(e);
                },
            };
            self.make_store_path("output:out", &h2, name)
        }
    }
}

/// The view of the recorded files: path, content, executable bit.
pub open spec fn mock_files_view(s: Seq<(String, MockFile)>) -> Seq<(Seq<char>, Seq<u8>, bool)> {
    s.map_values(|p: (String, MockFile)| (p.0@, p.1.content@, p.1.executable))
}

/// The view of the recorded symlinks: source, target.
pub open spec fn mock_links_view(s: Seq<(String, String)>) -> Seq<(Seq<char>, Seq<char>)> {
    s.map_values(|p: (String, String)| (p.0@, p.1@))
}

/// The view of the recorded directories.
pub open spec fn mock_dirs_view(s: Seq<String>) -> Seq<Seq<char>> {
    s.map_values(|p: String| p@)
}

/// One file recorded by the in-memory store.
#[derive(Debug)]
pub struct MockFile {
    pub content: Vec<u8>,
    pub executable: bool,
}

/// An in-memory store: it records written files, directories and symlinks,
/// and serves `/nix/store` as its store directory.
#[derive(Debug)]
pub struct MockStore {
    pub files: Vec<(String, MockFile)>,
    pub symlinks: Vec<(String, String)>,
    pub dirs: Vec<String>,
}

/// The index of the latest record for `path` among `files`.
pub open spec fn spec_find_file(files: Seq<(String, MockFile)>, path: Seq<char>) -> Option<int>
    decreases files.len(),
{
    if files.len() == 0 {
        None
    } else if files.last().0@ == path {
        Some(files.len() - 1)
    } else {
        spec_find_file(files.drop_last(), path)
    }
}

/// The index of the latest record for `path` among `symlinks`.
pub open spec fn spec_find_link(links: Seq<(String, String)>, path: Seq<char>) -> Option<int>
    decreases links.len(),
{
    if links.len() == 0 {
        None
    } else if links.last().0@ == path {
        Some(links.len() - 1)
    } else {
        spec_find_link(links.drop_last(), path)
    }
}

impl MockStore {
    /// An empty in-memory store.
    pub fn new() -> (r: Self)
        ensures
            r.files@.len() == 0,
            r.symlinks@.len() == 0,
            r.dirs@.len() == 0,
    {
        MockStore { files: Vec::new(), symlinks: Vec::new(), dirs: Vec::new() }
    }

    /// Records a file.
    pub fn write_file(&mut self, path: &str, data: &[u8], executable: bool)
        ensures
            final(self).files@.len() == old(self).files@.len() + 1,
            final(self).files@.last().0@ == path@,
            final(self).files@.last().1.content@ == data@,
            final(self).files@.last().1.executable == executable,
            final(self).symlinks == old(self).symlinks,
            final(self).dirs == old(self).dirs,
            forall|i: int|
                0 <= i < old(self).files@.len() ==> final(self).files@[i] == old(self).files@[i],
    {
        let rec = MockFile { content: vstd::slice::slice_to_vec(data), executable };
        self.files.push((path.to_owned(), rec));
    }

    /// Records a directory.
    pub fn make_directory(&mut self, path: &str)
        ensures
            final(self).dirs@.len() == old(self).dirs@.len() + 1,
            final(self).dirs@.last()@ == path@,
            forall|i: int|
                0 <= i < old(self).dirs@.len() ==> final(self).dirs@[i] == old(self).dirs@[i],
            final(self).files == old(self).files,
            final(self).symlinks == old(self).symlinks,
    {
        self.dirs.push(path.to_owned());
    }

    /// Records a symlink.
    pub fn make_symlink(&mut self, source: &str, target: &str)
        ensures
            final(self).symlinks@.len() == old(self).symlinks@.len() + 1,
            final(self).symlinks@.last().0@ == source@,
            final(self).symlinks@.last().1@ == target@,
            forall|i: int|
                0 <= i < old(self).symlinks@.len() ==> final(self).symlinks@[i] == old(
                    self,
                ).symlinks@[i],
            final(self).files == old(self).files,
            final(self).dirs == old(self).dirs,
    {
        self.symlinks.push((source.to_owned(), target.to_owned()));
    }

    /// Whether a file was recorded for `path`.
    pub fn file_exists(&self, path: &str) -> (r: bool)
        ensures
            r == (spec_find_file(self.files@, path@) is Some),
    {
        self.find_file(path).is_some()
    }

    /// The content of the latest record for `path`, read as text.
    pub fn file_as_string(&self, path: &str) -> (r: Option<String>)
        ensures
            match r {
                Some(s) => match spec_find_file(self.files@, path@) {
                    Option::Some(i) => vstd::utf8::valid_utf8(self.files@[i].1.content@)
                        ==> s@ == vstd::utf8::decode_utf8(self.files@[i].1.content@),
                    Option::None => false,
                },
                None => spec_find_file(self.files@, path@) is None,
            },
    {
        match self.find_file(path) {
            Some(f) => Some(bytes_to_string_lossy(&f.content)),
            None => None,
        }
    }

    /// Whether the latest record for `path` is executable.
    pub fn is_file_executable(&self, path: &str) -> (r: Option<bool>)
        ensures
            match r {
                Some(b) => match spec_find_file(self.files@, path@) {
                    Option::Some(i) => b == self.files@[i].1.executable,
                    Option::None => false,
                },
                None => spec_find_file(self.files@, path@) is None,
            },
    {
        match self.find_file(path) {
            Some(f) => Some(f.executable),
            None => None,
        }
    }

    /// Whether a symlink was recorded for `path`.
    pub fn link_exists(&self, path: &str) -> (r: bool)
        ensures
            r == (spec_find_link(self.symlinks@, path@) is Some),
    {
        let n = self.symlinks.len();
        let mut i: usize = n;
        assert(self.symlinks@.take(n as int) =~= self.symlinks@);
        while i > 0
            invariant
                i <= n,
                n == self.symlinks@.len(),
                spec_find_link(self.symlinks@, path@) == spec_find_link(
                    self.symlinks@.take(i as int),
                    path@,
                ),
            decreases i,
        {
            i = i - 1;
            assert(self.symlinks@.take(i + 1).last() == self.symlinks@[i as int]);
            assert(self.symlinks@.take(i + 1).drop_last() =~= self.symlinks@.take(i as int));
            if crate::strutil::str_eq(self.symlinks[i].0.as_str(), path) {
                return true;
            }
        }
        assert(self.symlinks@.take(0) =~= Seq::<(String, String)>::empty());
        false
    }

    /// What the latest symlink recorded for `path` points at.
    pub fn symlinks_points_at(&self, path: &str) -> (r: Option<String>)
        ensures
            match r {
                Some(s) => match spec_find_link(self.symlinks@, path@) {
                    Option::Some(i) => s@ == self.symlinks@[i].1@,
                    Option::None => false,
                },
                None => spec_find_link(self.symlinks@, path@) is None,
            },
    {
        let n = self.symlinks.len();
        let mut i: usize = n;
        assert(self.symlinks@.take(n as int) =~= self.symlinks@);
        while i > 0
            invariant
                i <= n,
                n == self.symlinks@.len(),
                spec_find_link(self.symlinks@, path@) == spec_find_link(
                    self.symlinks@.take(i as int),
                    path@,
                ),
            decreases i,
        {
            i = i - 1;
            assert(self.symlinks@.take(i + 1).last() == self.symlinks@[i as int]);
            assert(self.symlinks@.take(i + 1).drop_last() =~= self.symlinks@.take(i as int));
            if crate::strutil::str_eq(self.symlinks[i].0.as_str(), path) {
                return Some(self.symlinks[i].1.as_str().to_owned());
            }
        }
        assert(self.symlinks@.take(0) =~= Seq::<(String, String)>::empty());
        None
    }

    /// Whether a directory was recorded for `path`.
    pub fn dir_exists(&self, path: &str) -> (r: bool)
        ensures
            r == (exists|i: int| 0 <= i < self.dirs@.len() && (#[trigger] self.dirs@[i])@ == path@),
    {
        let n = self.dirs.len();
        let mut i: usize = 0;
        while i < n
            invariant
                i <= n,
                n == self.dirs@.len(),
                forall|k: int| 0 <= k < i ==> (#[trigger] self.dirs@[k])@ != path@,
            decreases n - i,
        {
            if crate::strutil::str_eq(self.dirs[i].as_str(), path) {
                return true;
            }
            i = i + 1;
        }
        false
    }

    fn find_file(&self, path: &str) -> (r: Option<&MockFile>)
        ensures
            match r {
                Some(f) => match spec_find_file(self.files@, path@) {
                    Option::Some(i) => f == self.files@[i].1,
                    Option::None => false,
                },
                None => spec_find_file(self.files@, path@) is None,
            },
    {
        let n = self.files.len();
        let mut i: usize = n;
        assert(self.files@.take(n as int) =~= self.files@);
        while i > 0
            invariant
                i <= n,
                n == self.files@.len(),
                spec_find_file(self.files@, path@) == spec_find_file(
                    self.files@.take(i as int),
                    path@,
                ),
            decreases i,
        {
            i = i - 1;
            assert(self.files@.take(i + 1).last() == self.files@[i as int]);
            assert(self.files@.take(i + 1).drop_last() =~= self.files@.take(i as int));
            if crate::strutil::str_eq(self.files[i].0.as_str(), path) {
                return Some(&self.files[i].1);
            }
        }
        assert(self.files@.take(0) =~= Seq::<(String, MockFile)>::empty());
        None
    }
}

impl Store for MockStore {
    open spec fn spec_has_store_dir(&self) -> bool {
        true
    }

    open spec fn spec_store_dir(&self) -> Seq<char> {
        "/nix/store"@
    }

    open spec fn spec_has_state_dir(&self) -> bool {
        false
    }

    open spec fn spec_state_dir(&self) -> Seq<char> {
        Seq::empty()
    }

    fn get_store_dir(&self) -> (r: Result<String, StoreError>) {
        Ok(String::from_str("/nix/store"))
    }

    fn get_state_dir(&self) -> (r: Result<String, StoreError>) {
        Err(StoreError::Unimplemented { msg: String::from_str("store: get_state_dir") })
    }
}

/// Relies on String::from_utf8_lossy: valid UTF-8 input is decoded exactly.
#[verifier::external_body]
pub fn bytes_to_string_lossy(b: &Vec<u8>) -> (r: String)
    ensures
        vstd::utf8::valid_utf8(b@) ==> r@ == vstd::utf8::decode_utf8(b@),
{
    String::from_utf8_lossy(b).into_owned()
}

/// Relies on String::from_utf8: succeeds exactly on valid UTF-8, which is
/// decoded exactly.
#[verifier::external_body]
pub fn bytes_to_string(b: Vec<u8>) -> (r: Option<String>)
    ensures
        match r {
            Some(s) => vstd::utf8::valid_utf8(b@) && s@ == vstd::utf8::decode_utf8(b@),
            None => !vstd::utf8::valid_utf8(b@),
        },
{
    match String::from_utf8(b) {
        Ok(s) => Some(s),
        Err(_) => None,
    }
}

} // verus!
