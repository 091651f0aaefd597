//! The metadata record for one store object: identity, archive digest and
//! size, references, signatures, and the optional remote-cache fields.

use vstd::prelude::*;
use vstd::utf8::encode_utf8;

use crate::crypto::{spec_good_sigs_none, spec_sig_ok, PublicKeys};
use crate::error::StoreError;
use crate::hash::HashV;
use crate::path::{spec_store_basename_ok, StorePath};
use crate::store::{spec_parse_basename, spec_print_path, views_of, Store};
use crate::strutil::{
    lines_of, spec_all_digits, spec_dec_value, spec_decimal, spec_lines, spec_split, spec_split2,
    spec_trim, split_char, str_eq, trim, u64_to_string,
};

verus! {

/// How a remote cache compresses the archive body.
#[derive(Debug, Clone, Copy, Eq, PartialEq, Structural)]
pub enum Compression {
    XZ,
    Uncompressed,
}

impl Compression {
    /// Reads a compression name; only `xz` is recognised.
    pub fn parse(v: &str) -> (r: Result<Self, StoreError>)
        ensures
            match r {
                Ok(c) => v@ == "xz"@ && c == Compression::XZ,
                Err(_) => v@ != "xz"@,
            },
    {
        if str_eq(v, "xz") {
            Ok(Compression::XZ)
        } else {
            Err(StoreError::Unimplemented { msg: String::from_str("non xz comperssion") })
        }
    }
}

/// The mathematical value of a [`BinaryPathInfo`].
#[verifier::ext_equal]
pub struct BinaryPathInfoV {
    pub compression: Compression,
    pub url: Seq<char>,
    pub file_hash: HashV,
    pub file_size: Option<u64>,
}

/// Remote-cache fields of a record that came from a binary store.
#[derive(Debug, Clone)]
pub struct BinaryPathInfo {
    pub compression: Compression,
    pub url: String,
    pub file_hash: crate::hash::Hash,
    pub file_size: Option<u64>,
}

impl View for BinaryPathInfo {
    type V = BinaryPathInfoV;

    open spec fn view(&self) -> BinaryPathInfoV {
        BinaryPathInfoV {
            compression: self.compression,
            url: self.url@,
            file_hash: self.file_hash@,
            file_size: self.file_size,
        }
    }
}

/// Whether every remote-cache field still holds its initial value.
pub open spec fn spec_bin_empty(b: BinaryPathInfoV) -> bool {
    b.compression == Compression::Uncompressed && b.url.len() == 0 && b.file_hash is Empty
        && b.file_size is None
}

impl BinaryPathInfo {
    /// All fields empty.
    pub fn new() -> (r: Self)
        ensures
            spec_bin_empty(r@),
            r@ == spec_bin_fresh(),
    {
        let r = BinaryPathInfo {
            compression: Compression::Uncompressed,
            url: String::new(),
            file_hash: crate::hash::Hash::Empty,
            file_size: None,
        };
        proof {
            assert(r@ =~= spec_bin_fresh());
        }
        r
    }

    /// Whether every field still holds its initial value.
    pub fn is_empty(&self) -> (r: bool)
        ensures
            r == spec_bin_empty(self@),
    {
        let comp_none = matches!(self.compression, Compression::Uncompressed);
        let hash_none = matches!(self.file_hash, crate::hash::Hash::Empty);
        comp_none && self.url.as_str().is_empty() && hash_none && self.file_size.is_none()
    }
}

impl PartialEq for BinaryPathInfo {
    fn eq(&self, other: &BinaryPathInfo) -> (r: bool) {
        self.file_hash.hash_eq(&other.file_hash)
    }
}

impl vstd::std_specs::cmp::PartialEqSpecImpl for BinaryPathInfo {
    open spec fn obeys_eq_spec() -> bool {
        true
    }

    open spec fn eq_spec(&self, other: &BinaryPathInfo) -> bool {
        self.file_hash@ == other.file_hash@
    }
}

impl Eq for BinaryPathInfo {}

/// The mathematical value of a [`ValidPathInfo`].
#[verifier::ext_equal]
pub struct ValidPathInfoV {
    pub path: Seq<char>,
    pub deriver: Option<Seq<char>>,
    pub nar_hash: HashV,
    pub references: Seq<Seq<char>>,
    pub registration_time: int,
    pub nar_size: Option<u64>,
    pub id: u64,
    pub ultimate: bool,
    pub sigs: Seq<Seq<char>>,
    pub ca: Option<Seq<char>>,
    pub binary_info: Option<BinaryPathInfoV>,
}

/// The metadata record for one store object.
#[derive(Debug, Clone)]
pub struct ValidPathInfo {
    pub path: StorePath,
    pub deriver: Option<StorePath>,
    pub nar_hash: crate::hash::Hash,
    pub references: Vec<StorePath>,
    /// Seconds since the epoch.
    pub registration_time: i64,
    pub nar_size: Option<u64>,
    /// Internal use only: the repository row id.
    pub id: u64,
    pub ultimate: bool,
    pub sigs: Vec<String>,
    pub ca: Option<String>,
    pub binary_info: Option<BinaryPathInfo>,
}

impl View for ValidPathInfo {
    type V = ValidPathInfoV;

    open spec fn view(&self) -> ValidPathInfoV {
        ValidPathInfoV {
            path: self.path@,
            deriver: match self.deriver {
                Option::Some(p) => Some(p@),
                Option::None => None,
            },
            nar_hash: self.nar_hash@,
            references: views_of(self.references@),
            registration_time: self.registration_time as int,
            nar_size: self.nar_size,
            id: self.id,
            ultimate: self.ultimate,
            sigs: self.sigs.deep_view(),
            ca: match self.ca {
                Option::Some(ref s) => Some(s@),
                Option::None => None,
            },
            binary_info: match self.binary_info {
                Option::Some(ref b) => Some(b@),
                Option::None => None,
            },
        }
    }
}

/// Relies on chrono::Utc::now: the wall clock, as seconds since the epoch.
/// Nothing is claimed of its value.
#[verifier::external_body]
fn current_time_secs() -> i64 {
    chrono::Utc::now().timestamp()
}

/// The comma-joined printed references of a fingerprint.
pub open spec fn spec_join_printed(dir: Seq<char>, refs: Seq<Seq<char>>) -> Seq<char>
    decreases refs.len(),
{
    if refs.len() == 0 {
        Seq::empty()
    } else if refs.len() == 1 {
        spec_print_path(dir, refs[0])
    } else {
        spec_join_printed(dir, refs.drop_last()) + seq![','] + spec_print_path(dir, refs.last())
    }
}

/// The fingerprint text that signatures are computed over:
/// `1;<printed path>;<base32 nar hash>;<nar size>;<joined references>`.
/// It reads the path, the archive hash and size, and the references in
/// their stored order — nothing else.
pub open spec fn spec_fingerprint(
    dir: Seq<char>,
    path: Seq<char>,
    nar_hash: HashV,
    nar_size: u64,
    refs: Seq<Seq<char>>,
) -> Seq<char> {
    "1;"@ + spec_print_path(dir, path) + seq![';'] + (match nar_hash {
        HashV::Sha256(b) => crate::hash::base32_rfc4648_of(b),
        _ => Seq::<char>::empty(),
    }) + seq![';'] + spec_decimal(nar_size as int) + seq![';'] + spec_join_printed(dir, refs)
}

/// The fingerprint of a record under a store directory.
pub open spec fn spec_fingerprint_of(dir: Seq<char>, info: &ValidPathInfo) -> Seq<char> {
    spec_fingerprint(
        dir,
        info.path@,
        info.nar_hash@,
        info.nar_size.unwrap_or(0u64),
        views_of(info.references@),
    )
}

/// Whether a record can be fingerprinted at all: it must know a non-zero
/// archive size and a non-empty archive hash.
pub open spec fn spec_can_fingerprint(info: &ValidPathInfo) -> bool {
    info.nar_size is Some && info.nar_size.unwrap() != 0 && !(info.nar_hash@ is Empty)
}

/// The fingerprint is stable under any change that keeps the path, the
/// archive hash and size, and the references in their order: signatures
/// and remote-cache fields do not enter it.
pub proof fn lemma_fingerprint_stable(dir: Seq<char>, a: &ValidPathInfo, b: &ValidPathInfo)
    requires
        a.path@ == b.path@,
        a.nar_hash@ == b.nar_hash@,
        a.nar_size == b.nar_size,
        views_of(a.references@) == views_of(b.references@),
    ensures
        spec_fingerprint_of(dir, a) == spec_fingerprint_of(dir, b),
{
}

/// A number as `str::parse::<u64>().ok()` reads it from plain digits.
pub open spec fn spec_parse_u64_opt(s: Seq<char>) -> Option<u64> {
    if s.len() > 0 && spec_all_digits(s) && spec_dec_value(s) <= u64::MAX {
        Some(spec_dec_value(s) as u64)
    } else {
        None
    }
}

/// One narinfo line applied to the record being assembled. `None` is a
/// parse failure.
pub open spec fn spec_narinfo_apply(
    v: ValidPathInfoV,
    b: BinaryPathInfoV,
    line: Seq<char>,
) -> Option<(ValidPathInfoV, BinaryPathInfoV)> {
    let parts = spec_split2(line, ':', ' ');
    if parts.len() != 2 {
        None
    } else {
        let key = spec_trim(parts[0]);
        let val = spec_trim(parts[1]);
        if key == "NarHash"@ {
            match crate::hash::spec_from_text(val) {
                Option::Some(bytes) => Some((ValidPathInfoV { nar_hash: HashV::Sha256(bytes), ..v }, b)),
                Option::None => None,
            }
        } else if key == "NarSize"@ {
            Some((ValidPathInfoV { nar_size: spec_parse_u64_opt(val), ..v }, b))
        } else if key == "References"@ {
            let pieces = spec_split(val, ' ');
            if forall|i: int| 0 <= i < pieces.len() ==> spec_store_basename_ok(#[trigger] pieces[i]) {
                Some((ValidPathInfoV { references: pieces, ..v }, b))
            } else {
                None
            }
        } else if key == "Deriver"@ {
            Some(
                (
                    ValidPathInfoV {
                        deriver: if spec_store_basename_ok(val) {
                            Some(val)
                        } else {
                            None
                        },
                        ..v
                    },
                    b,
                ),
            )
        } else if key == "Sig"@ {
            Some((ValidPathInfoV { sigs: spec_split(val, ' '), ..v }, b))
        } else if key == "URL"@ {
            Some((v, BinaryPathInfoV { url: val, ..b }))
        } else if key == "FileSize"@ {
            Some((v, BinaryPathInfoV { file_size: spec_parse_u64_opt(val), ..b }))
        } else if key == "Compression"@ {
            if val == "xz"@ {
                Some((v, BinaryPathInfoV { compression: Compression::XZ, ..b }))
            } else {
                None
            }
        } else if key == "FileHash"@ {
            match crate::hash::spec_from_text(val) {
                Option::Some(bytes) => Some(
                    (v, BinaryPathInfoV { file_hash: HashV::Sha256(bytes), ..b }),
                ),
                Option::None => None,
            }
        } else {
            Some((v, b))
        }
    }
}

/// The narinfo lines from `i` on, folded into the record.
pub open spec fn spec_narinfo_fold(
    v: ValidPathInfoV,
    b: BinaryPathInfoV,
    lines: Seq<Seq<char>>,
    i: int,
) -> Option<(ValidPathInfoV, BinaryPathInfoV)>
    decreases lines.len() - i,
{
    if i < 0 || i >= lines.len() {
        Some((v, b))
    } else {
        match spec_narinfo_apply(v, b, lines[i]) {
            Option::None => None,
            Option::Some((v2, b2)) => spec_narinfo_fold(v2, b2, lines, i + 1),
        }
    }
}

/// The full store path named by the first narinfo line, which must read
/// `StorePath: <path>`.
pub open spec fn spec_narinfo_first(lines: Seq<Seq<char>>) -> Option<Seq<char>> {
    if lines.len() >= 1 {
        let parts = spec_split2(lines[0], ':', ' ');
        if parts.len() == 2 && spec_trim(parts[0]) == "StorePath"@ {
            Some(spec_trim(parts[1]))
        } else {
            None
        }
    } else {
        None
    }
}

/// The record a fresh path starts from: no deriver, no hash, no size, no
/// signatures, registered at the epoch.
pub open spec fn spec_fresh_info(path: Seq<char>) -> ValidPathInfoV {
    ValidPathInfoV {
        path: path,
        deriver: None,
        nar_hash: HashV::Empty,
        references: Seq::empty(),
        registration_time: 0,
        nar_size: None,
        id: 0,
        ultimate: false,
        sigs: Seq::empty(),
        ca: None,
        binary_info: None,
    }
}

impl ValidPathInfo {
    /// A fresh record for `path`, with every other field empty.
    pub fn new(path: StorePath) -> (r: ValidPathInfo)
        ensures
            r@ == spec_fresh_info(path@),
    {
        let r = ValidPathInfo {
            path,
            deriver: None,
            nar_hash: crate::hash::Hash::Empty,
            references: Vec::new(),
            registration_time: 0,
            nar_size: None,
            id: 0,
            ultimate: false,
            sigs: Vec::new(),
            ca: None,
            binary_info: None,
        };
        proof {
            assert(views_of(r.references@) =~= Seq::<Seq<char>>::empty());
            assert(r.sigs.deep_view() =~= Seq::<Seq<char>>::empty());
        }
        r
    }

    /// A record for a path registered now, with the given archive hash
    /// and size. The registration time is the wall clock's.
    pub fn now(path: StorePath, hash: crate::hash::Hash, size: u64) -> (r: Result<
        ValidPathInfo,
        StoreError,
    >)
        ensures
            match r {
                Ok(info) => info.path == path && info.nar_hash == hash && info.nar_size == Some(
                    size,
                ) && info.deriver is None && info.references@.len() == 0 && info.id == 0
                    && !info.ultimate && info.sigs@.len() == 0 && info.ca is None
                    && info.binary_info is None,
                Err(_) => false,
            },
    {
        let now = current_time_secs();
        Ok(
            ValidPathInfo {
                path,
                deriver: None,
                nar_hash: hash,
                references: Vec::new(),
                registration_time: now,
                nar_size: Some(size),
                id: 0,
                ultimate: false,
                sigs: Vec::new(),
                ca: None,
                binary_info: None,
            },
        )
    }

    /// Reads a narinfo document: the `StorePath` line first, then
    /// `key: value` lines in any order, later lines overriding earlier
    /// ones.
    pub fn parse_str<S: Store>(text: &str, store: &S) -> (r: Result<ValidPathInfo, StoreError>)
        requires
            store.spec_has_store_dir(),
        ensures
            ({
                let lines = spec_lines(text@);
                match spec_narinfo_first(lines) {
                    Option::None => r is Err,
                    Option::Some(fullpath) => match spec_parse_basename(
                        store.spec_store_dir(),
                        fullpath,
                    ) {
                        Option::None => r is Err,
                        Option::Some(base) => if !spec_store_basename_ok(base) {
                            r is Err
                        } else {
                            match spec_narinfo_fold(
                                spec_fresh_info(base),
                                spec_bin_fresh(),
                                lines,
                                1,
                            ) {
                                Option::None => r is Err,
                                Option::Some((v, b)) => match r {
                                    Ok(info) => info@ == (ValidPathInfoV {
                                        binary_info: if spec_bin_empty(b) {
                                            None
                                        } else {
                                            Some(b)
                                        },
                                        ..v
                                    }),
                                    Err(_) => false,
                                },
                            }
                        },
                    },
                }
            }),
    {
        let lines = lines_of(text);
        if lines.len() == 0 {
            return Err(StoreError::Unimplemented {
                msg: String::from_str("narinfo: missing StorePath line"),
            });
        }
        assert(lines.deep_view()[0] == lines@[0]@);
        let first = crate::strutil::split_str2(lines[0].as_str(), ':', ' ');
        if first.len() != 2 {
            return Err(StoreError::Unimplemented {
                msg: String::from_str("narinfo: missing StorePath line"),
            });
        }
        assert(first.deep_view()[0] == first@[0]@);
        assert(first.deep_view()[1] == first@[1]@);
        let key0 = trim(first[0].as_str());
        if !str_eq(key0.as_str(), "StorePath") {
            return Err(StoreError::Unimplemented {
                msg: String::from_str("narinfo: missing StorePath line"),
            });
        }
        let val0 = trim(first[1].as_str());
        let store_path = store.parse_store_path(val0.as_str())?;

        let mut info = ValidPathInfo::new(store_path);
        let mut bin = BinaryPathInfo::new();
        let ghost lines_v = lines.deep_view();
        let ghost v0 = info@;
        let ghost b0 = bin@;

        proof {
            assert(lines_v == spec_lines(text@));
            assert(spec_narinfo_first(lines_v) == Some(val0@));
        }
        let mut i: usize = 1;
        while i < lines.len()
            invariant
                1 <= i <= lines@.len(),
                lines.deep_view() == lines_v,
                lines_v.len() == lines@.len(),
                lines_v == spec_lines(text@),
                store.spec_has_store_dir(),
                spec_narinfo_first(lines_v) is Some,
                spec_parse_basename(
                    store.spec_store_dir(),
                    spec_narinfo_first(lines_v).unwrap(),
                ) == Some(v0.path),
                spec_store_basename_ok(v0.path),
                v0 == spec_fresh_info(v0.path),
                b0 == spec_bin_fresh(),
                info.binary_info is None,
                spec_narinfo_fold(v0, b0, lines_v, 1) == spec_narinfo_fold(info@, bin@, lines_v, i as int),
            decreases lines@.len() - i,
        {
            assert(lines.deep_view()[i as int] == lines@[i as int]@);
            let parts = crate::strutil::split_str2(lines[i].as_str(), ':', ' ');
            if parts.len() != 2 {
                proof {
                    assert(spec_split2(lines_v[i as int], ':', ' ').len() == parts@.len());
                    lemma_fold_stuck(info@, bin@, lines_v, i as int);
                }
                return Err(StoreError::Unimplemented {
                    msg: String::from_str("narinfo: malformed line"),
                });
            }
            assert(parts.deep_view()[0] == parts@[0]@);
            assert(parts.deep_view()[1] == parts@[1]@);
            let key = trim(parts[0].as_str());
            let val = trim(parts[1].as_str());
            let ghost pre_v = info@;
            let ghost pre_b = bin@;
            if str_eq(key.as_str(), "NarHash") {
                match crate::hash::Hash::from_text(val.as_str()) {
                    Ok(h) => {
                        info.nar_hash = h;
                    },
                    Err(e) => {
                        proof {
                            lemma_fold_stuck(info@, bin@, lines_v, i as int);
                        }
                        return Err(e);
                    },
                }
            } else if str_eq(key.as_str(), "NarSize") {
                info.nar_size = crate::strutil::parse_u64(val.as_str());
            } else if str_eq(key.as_str(), "References") {
                match parse_reference_list(val.as_str()) {
                    Ok(refs) => {
                        info.references = refs;
                    },
                    Err(e) => {
                        proof {
                            lemma_fold_stuck(info@, bin@, lines_v, i as int);
                        }
                        return Err(e);
                    },
                }
            } else if str_eq(key.as_str(), "Deriver") {
                match StorePath::new(val.as_str()) {
                    Ok(p) => {
                        info.deriver = Some(p);
                    },
                    Err(_) => {
                        info.deriver = None;
                    },
                }
            } else if str_eq(key.as_str(), "Sig") {
                info.sigs = split_char(val.as_str(), ' ');
            } else if str_eq(key.as_str(), "URL") {
                bin.url = val;
            } else if str_eq(key.as_str(), "FileSize") {
                bin.file_size = crate::strutil::parse_u64(val.as_str());
            } else if str_eq(key.as_str(), "Compression") {
                match Compression::parse(val.as_str()) {
                    Ok(c) => {
                        bin.compression = c;
                    },
                    Err(e) => {
                        proof {
                            lemma_fold_stuck(info@, bin@, lines_v, i as int);
                        }
                        return Err(e);
                    },
                }
            } else if str_eq(key.as_str(), "FileHash") {
                match crate::hash::Hash::from_text(val.as_str()) {
                    Ok(h) => {
                        bin.file_hash = h;
                    },
                    Err(e) => {
                        proof {
                            lemma_fold_stuck(info@, bin@, lines_v, i as int);
                        }
                        return Err(e);
                    },
                }
            }
            proof {
                assert(spec_narinfo_apply(pre_v, pre_b, lines_v[i as int]) == Some(
                    (info@, bin@),
                ));
            }
            i = i + 1;
        }
        if !bin.is_empty() {
            info.binary_info = Some(bin);
        }
        Ok(info)
    }

    /// The fingerprint text of this record under the store's directory;
    /// refused when the archive size or hash is missing.
    pub fn fingerprint<S: Store>(&self, store: &S) -> (r: Result<String, StoreError>)
        requires
            store.spec_has_store_dir(),
            self.nar_hash@ is Sha256 ==> self.nar_hash@->Sha256_0.len() <= usize::MAX / 512,
        ensures
            match r {
                Ok(s) => spec_can_fingerprint(self) && s@ == spec_fingerprint_of(
                    store.spec_store_dir(),
                    self,
                ),
                Err(_) => !spec_can_fingerprint(self),
            },
            r is Err ==> r matches Err(StoreError::NoFingerprint { .. }),
    {
        let size_ok = match self.nar_size {
            Some(v) => v != 0,
            None => false,
        };
        let hash_missing = matches!(self.nar_hash, crate::hash::Hash::Empty);
        if !size_ok || hash_missing {
            return Err(StoreError::NoFingerprint { path: self.path.to_text() });
        }
        let sz: u64 = match self.nar_size {
            Some(v) => v,
            None => 0,
        };
        let mut s = String::from_str("1;");
        let printed = store.print_store_path(&self.path);
        s.append(printed.as_str());
        crate::strutil::push_char(&mut s, ';');
        match &self.nar_hash {
            crate::hash::Hash::SHA256(v) => {
                let b32 = crate::hash::base32_rfc4648_encode(v);
                s.append(b32.as_str());
            },
            _ => {},
        }
        crate::strutil::push_char(&mut s, ';');
        let szs = u64_to_string(sz);
        s.append(szs.as_str());
        crate::strutil::push_char(&mut s, ';');
        let mut k: usize = 0;
        let ghost pre = s@;
        while k < self.references.len()
            invariant
                k <= self.references@.len(),
                store.spec_has_store_dir(),
                s@ == pre + spec_join_printed(
                    store.spec_store_dir(),
                    views_of(self.references@).take(k as int),
                ) + if k > 0 && k < self.references@.len() {
                    seq![',']
                } else {
                    Seq::<char>::empty()
                },
            decreases self.references@.len() - k,
        {
            let printed_ref = store.print_store_path(&self.references[k]);
            s.append(printed_ref.as_str());
            if k + 1 < self.references.len() {
                crate::strutil::push_char(&mut s, ',');
            }
            proof {
                let vs = views_of(self.references@);
                assert(vs[k as int] == self.references@[k as int]@);
                assert(vs.take(k + 1).drop_last() =~= vs.take(k as int));
                assert(vs.take(k + 1).last() == vs[k as int]);
                assert(s@ =~= pre + spec_join_printed(store.spec_store_dir(), vs.take(k + 1))
                    + if k + 1 > 0 && k + 1 < self.references@.len() {
                    seq![',']
                } else {
                    Seq::<char>::empty()
                });
            }
            k = k + 1;
        }
        proof {
            let vs = views_of(self.references@);
            assert(vs.take(vs.len() as int) =~= vs);
            assert(s@ =~= spec_fingerprint_of(store.spec_store_dir(), self));
        }
        Ok(s)
    }

    /// Verifies one signature against this record's fingerprint.
    pub fn check_signature<S: Store>(
        &self,
        sig: &str,
        public_keys: &PublicKeys,
        store: &S,
    ) -> (r: Result<bool, StoreError>)
        requires
            store.spec_has_store_dir(),
            self.nar_hash@ is Sha256 ==> self.nar_hash@->Sha256_0.len() <= usize::MAX / 512,
        ensures
            match r {
                Ok(b) => spec_can_fingerprint(self) && spec_sig_ok(
                    public_keys.0@,
                    encode_utf8(spec_fingerprint_of(store.spec_store_dir(), self)),
                    sig@,
                ) == Some(b),
                Err(_) => !spec_can_fingerprint(self) || spec_sig_ok(
                    public_keys.0@,
                    encode_utf8(spec_fingerprint_of(store.spec_store_dir(), self)),
                    sig@,
                ) is None,
            },
    {
        let fp = self.fingerprint(store)?;
        public_keys.verify(fp.as_str().as_bytes(), sig)
    }

    /// Counts how many of this record's signatures verify against the
    /// trusted keys.
    pub fn check_signatures<S: Store>(&self, store: &S, public_keys: &PublicKeys) -> (r: Result<
        usize,
        StoreError,
    >)
        requires
            store.spec_has_store_dir(),
            self.nar_hash@ is Sha256 ==> self.nar_hash@->Sha256_0.len() <= usize::MAX / 512,
        ensures
            match r {
                Ok(n) => crate::crypto::spec_good_sigs(
                    public_keys.0@,
                    encode_utf8(spec_fingerprint_of(store.spec_store_dir(), self)),
                    self.sigs.deep_view(),
                ) == Some(n as int) && (self.sigs@.len() > 0 ==> spec_can_fingerprint(self)),
                Err(_) => !spec_can_fingerprint(self) || spec_good_sigs_none(
                    public_keys.0@,
                    encode_utf8(spec_fingerprint_of(store.spec_store_dir(), self)),
                    self.sigs.deep_view(),
                ),
            },
    {
        let ghost msg = encode_utf8(spec_fingerprint_of(store.spec_store_dir(), self));
        let mut good: usize = 0;
        let ghost sigs_v = self.sigs.deep_view();
        let mut i: usize = 0;
        proof {
            assert(sigs_v.skip(0) =~= sigs_v);
        }
        while i < self.sigs.len()
            invariant
                i <= self.sigs@.len(),
                good <= i,
                store.spec_has_store_dir(),
                self.nar_hash@ is Sha256 ==> self.nar_hash@->Sha256_0.len() <= usize::MAX / 512,
                sigs_v == self.sigs.deep_view(),
                sigs_v.len() == self.sigs@.len(),
                msg == encode_utf8(spec_fingerprint_of(store.spec_store_dir(), self)),
                i > 0 ==> spec_can_fingerprint(self),
                spec_can_fingerprint(self) ==> match crate::crypto::spec_good_sigs(
                    public_keys.0@,
                    msg,
                    sigs_v.skip(i as int),
                ) {
                    Option::Some(m) => crate::crypto::spec_good_sigs(public_keys.0@, msg, sigs_v)
                        == Some(m + good),
                    Option::None => spec_good_sigs_none(public_keys.0@, msg, sigs_v),
                },
            decreases self.sigs@.len() - i,
        {
            assert(sigs_v[i as int] == self.sigs@[i as int]@);
            proof {
                assert(sigs_v.skip(i as int)[0] == sigs_v[i as int]);
                assert(sigs_v.skip(i as int).drop_first() =~= sigs_v.skip(i + 1));
            }
            let ok = self.check_signature(self.sigs[i].as_str(), public_keys, store)?;
            if ok {
                good = good + 1;
            }
            i = i + 1;
        }
        proof {
            assert(sigs_v.skip(self.sigs@.len() as int) =~= Seq::<Seq<char>>::empty());
            if self.sigs@.len() == 0 {
                assert(sigs_v =~= Seq::<Seq<char>>::empty());
                assert(crate::crypto::spec_good_sigs(public_keys.0@, msg, sigs_v) == Some(0int));
            }
        }
        Ok(good)
    }
}

/// Reads a space-separated list of store basenames; one bad basename
/// fails the lot.
fn parse_reference_list(val: &str) -> (r: Result<Vec<StorePath>, StoreError>)
    ensures
        ({
            let sp = spec_split(val@, ' ');
            match r {
                Ok(refs) => (forall|j: int|
                    0 <= j < sp.len() ==> spec_store_basename_ok(#[trigger] sp[j])) && views_of(
                    refs@,
                ) == sp && (forall|j: int| 0 <= j < refs@.len() ==> (#[trigger] refs@[j]).wf()),
                Err(_) => !(forall|j: int|
                    0 <= j < sp.len() ==> spec_store_basename_ok(#[trigger] sp[j])),
            }
        }),
{
    let pieces = split_char(val, ' ');
    assert(pieces.deep_view().len() == pieces@.len());
    let mut refs: Vec<StorePath> = Vec::new();
    let mut k: usize = 0;
    while k < pieces.len()
        invariant
            k <= pieces@.len(),
            refs@.len() == k,
            pieces.deep_view() == spec_split(val@, ' '),
            pieces.deep_view().len() == pieces@.len(),
            forall|j: int|
                0 <= j < k ==> spec_store_basename_ok(#[trigger] pieces.deep_view()[j])
                    && refs@[j]@ == pieces.deep_view()[j] && refs@[j].wf(),
        decreases pieces@.len() - k,
    {
        assert(pieces.deep_view()[k as int] == pieces@[k as int]@);
        match StorePath::new(pieces[k].as_str()) {
            Ok(p) => {
                refs.push(p);
                proof {
                    assert(refs@[k as int]@ == pieces.deep_view()[k as int]);
                    assert(spec_store_basename_ok(pieces.deep_view()[k as int]));
                    assert(refs@[k as int].wf());
                    assert(forall|j: int|
                        0 <= j <= k ==> spec_store_basename_ok(
                            #[trigger] pieces.deep_view()[j],
                        ) && refs@[j]@ == pieces.deep_view()[j] && refs@[j].wf());
                }
            },
            Err(e) => {
                proof {
                    let sp = spec_split(val@, ' ');
                    assert(!(forall|j: int|
                        0 <= j < sp.len() ==> spec_store_basename_ok(#[trigger] sp[j]))) by {
                        assert(!spec_store_basename_ok(sp[k as int]));
                    }
                }
                return Err(e);
            },
        }
        k = k + 1;
    }
    proof {
        let sp = spec_split(val@, ' ');
        assert forall|j: int| 0 <= j < sp.len() implies spec_store_basename_ok(
            #[trigger] sp[j],
        ) by {
            assert(spec_store_basename_ok(pieces.deep_view()[j]));
        }
        assert forall|j: int| 0 <= j < refs@.len() implies (#[trigger] refs@[j]).wf() by {
            assert(spec_store_basename_ok(pieces.deep_view()[j]));
        }
        assert forall|j: int| 0 <= j < refs@.len() implies views_of(refs@)[j] == sp[j] by {
            assert(spec_store_basename_ok(pieces.deep_view()[j]));
        }
        assert(views_of(refs@) =~= pieces.deep_view());
    }
    Ok(refs)
}

/// A line the folder cannot read leaves the whole fold undefined.
proof fn lemma_fold_stuck(v: ValidPathInfoV, b: BinaryPathInfoV, lines: Seq<Seq<char>>, i: int)
    requires
        0 <= i < lines.len(),
        spec_narinfo_apply(v, b, lines[i]) is None,
    ensures
        spec_narinfo_fold(v, b, lines, i) is None,
{
}


/// What a substituter can say about a path: where it came from and how
/// big the transfer and the unpacked archive are.
#[derive(Debug, Clone)]
pub struct SubstitutablePathInfo {
    pub deriver: Option<StorePath>,
    pub references: Vec<StorePath>,
    pub donwload_size: Option<u64>,
    pub nar_size: Option<u64>,
}

impl SubstitutablePathInfo {
    /// The substituter's view of a full record: the transfer size comes
    /// from the remote-cache fields, when the record has them.
    pub fn from_info(v: ValidPathInfo) -> (r: SubstitutablePathInfo)
        ensures
            r.deriver == v.deriver,
            r.references == v.references,
            r.nar_size == v.nar_size,
            r.donwload_size == match v.binary_info {
                Option::Some(b) => b.file_size,
                Option::None => None,
            },
    {
        let donwload_size = match &v.binary_info {
            Some(b) => b.file_size,
            None => None,
        };
        SubstitutablePathInfo {
            deriver: v.deriver,
            references: v.references,
            donwload_size,
            nar_size: v.nar_size,
        }
    }
}

/// The remote-cache fields a fresh record starts from.
pub open spec fn spec_bin_fresh() -> BinaryPathInfoV {
    BinaryPathInfoV {
        compression: Compression::Uncompressed,
        url: Seq::empty(),
        file_hash: HashV::Empty,
        file_size: None,
    }
}

impl ValidPathInfo {
    /// A copy of this record with the same value.
    pub fn clone_info(&self) -> (r: ValidPathInfo)
        ensures
            r@ == self@,
    {
        let deriver = match &self.deriver {
            Some(p) => Some(p.clone_path()),
            None => None,
        };
        let mut references: Vec<StorePath> = Vec::new();
        let mut i: usize = 0;
        while i < self.references.len()
            invariant
                i <= self.references@.len(),
                references@.len() == i,
                forall|k: int| 0 <= k < i ==> references@[k]@ == self.references@[k]@,
            decreases self.references@.len() - i,
        {
            references.push(self.references[i].clone_path());
            i = i + 1;
        }
        let mut sigs: Vec<String> = Vec::new();
        let mut j: usize = 0;
        while j < self.sigs.len()
            invariant
                j <= self.sigs@.len(),
                sigs@.len() == j,
                forall|k: int| 0 <= k < j ==> sigs@[k]@ == self.sigs@[k]@,
            decreases self.sigs@.len() - j,
        {
            sigs.push(self.sigs[j].as_str().to_owned());
            j = j + 1;
        }
        let ca = match &self.ca {
            Some(s) => Some(s.as_str().to_owned()),
            None => None,
        };
        let binary_info = match &self.binary_info {
            Some(b) => Some(
                BinaryPathInfo {
                    compression: b.compression,
                    url: b.url.as_str().to_owned(),
                    file_hash: b.file_hash.clone_hash(),
                    file_size: b.file_size,
                },
            ),
            None => None,
        };
        let r = ValidPathInfo {
            path: self.path.clone_path(),
            deriver,
            nar_hash: self.nar_hash.clone_hash(),
            references,
            registration_time: self.registration_time,
            nar_size: self.nar_size,
            id: self.id,
            ultimate: self.ultimate,
            sigs,
            ca,
            binary_info,
        };
        proof {
            assert(views_of(r.references@) =~= views_of(self.references@));
            assert(r.sigs.deep_view() =~= self.sigs.deep_view());
            assert(r@ =~= self@);
        }
        r
    }
}

impl PartialEq for ValidPathInfo {
    fn eq(&self, other: &ValidPathInfo) -> (r: bool) {
        if !str_eq(self.path.to_text().as_str(), other.path.to_text().as_str()) {
            return false;
        }
        if !self.nar_hash.hash_eq(&other.nar_hash) {
            return false;
        }
        if self.references.len() != other.references.len() {
            proof {
                assert(views_of(self.references@).len() == self.references@.len());
                assert(views_of(other.references@).len() == other.references@.len());
            }
            return false;
        }
        let n = self.references.len();
        let mut i: usize = 0;
        while i < n
            invariant
                i <= n,
                n == self.references@.len(),
                n == other.references@.len(),
                self.path@ == other.path@,
                self.nar_hash@ == other.nar_hash@,
                forall|k: int| 0 <= k < i ==> self.references@[k]@ == other.references@[k]@,
            decreases n - i,
        {
            if !str_eq(
                self.references[i].to_text().as_str(),
                other.references[i].to_text().as_str(),
            ) {
                proof {
                    assert(views_of(self.references@)[i as int] == self.references@[i as int]@);
                    assert(views_of(other.references@)[i as int] == other.references@[i as int]@);
                }
                return false;
            }
            i = i + 1;
        }
        proof {
            assert(views_of(self.references@) =~= views_of(other.references@)) by {
                assert(forall|k: int|
                    0 <= k < n ==> views_of(self.references@)[k] == self.references@[k]@
                        && views_of(other.references@)[k] == other.references@[k]@);
            }
        }
        true
    }
}

impl vstd::std_specs::cmp::PartialEqSpecImpl for ValidPathInfo {
    open spec fn obeys_eq_spec() -> bool {
        true
    }

    open spec fn eq_spec(&self, other: &ValidPathInfo) -> bool {
        self.path@ == other.path@ && self.nar_hash@ == other.nar_hash@ && views_of(
            self.references@,
        ) == views_of(other.references@)
    }
}

impl Eq for ValidPathInfo {}

} // verus!
