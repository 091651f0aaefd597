//! Signature checking: named public keys and ed25519 verification over
//! fingerprint bytes.

use vstd::prelude::*;
use vstd::utf8::encode_utf8;

use crate::error::StoreError;
use crate::strutil::{split_char, str_eq};

verus! {

/// Whether ed25519 verification accepts `sig` as a signature of `msg`
/// under `key`. A pure function of its three byte strings.
pub uninterp spec fn ed25519_verifies(key: Seq<u8>, msg: Seq<u8>, sig: Seq<u8>) -> bool;

/// The base-64 decoding of a character string, or nothing when the string
/// is not well-formed base-64.
pub uninterp spec fn base64_decode_of(s: Seq<char>) -> Option<Seq<u8>>;

/// Relies on ring's UnparsedPublicKey::verify with ED25519: acceptance
/// depends on the key, message and signature bytes alone.
#[verifier::external_body]
fn ed25519_verify(key: &str, msg: &[u8], sig: &[u8]) -> (r: bool)
    ensures
        r == ed25519_verifies(encode_utf8(key@), msg@, sig@),
{
    ring::signature::UnparsedPublicKey::new(&ring::signature::ED25519, key).verify(
        msg,
        sig,
    ).is_ok()
}

/// Relies on data_encoding::BASE64.decode: the decoded bytes, or nothing
/// when the input is not well-formed padded base-64.
#[verifier::external_body]
fn base64_decode(s: &str) -> (r: Option<Vec<u8>>)
    requires
        s@.len() <= usize::MAX / 8,
    ensures
        match r {
            Some(b) => base64_decode_of(s@) == Some(b@),
            None => base64_decode_of(s@) is None,
        },
{
    match data_encoding::BASE64.decode(s.as_bytes()) {
        Ok(v) => Some(v),
        Err(_) => None,
    }
}

/// A named ed25519 public key, kept in its textual form.
#[derive(Debug, Clone)]
pub struct PublicKey {
    pub name: String,
    pub key: String,
}

impl PublicKey {
    /// Pairs a signer name with its key text.
    pub fn new(name: String, key: String) -> (r: Self)
        ensures
            r.name == name,
            r.key == key,
    {
        PublicKey { name, key }
    }

    /// Reads a key from `<name>:<key>`.
    pub fn parse(value: &str) -> (r: Result<Self, StoreError>)
        ensures
            ({
                let parts = crate::strutil::spec_split(value@, ':');
                match r {
                    Ok(k) => parts.len() == 2 && k.name@ == parts[0] && k.key@ == parts[1],
                    Err(_) => parts.len() != 2,
                }
            }),
    {
        let parts = split_char(value, ':');
        if parts.len() != 2 {
            return Err(StoreError::InvalidKey { key: value.to_owned() });
        }
        let mut parts = parts;
        let key = parts.pop().unwrap();
        let name = parts.pop().unwrap();
        assert(name@ == crate::strutil::spec_split(value@, ':')[0]);
        assert(key@ == crate::strutil::spec_split(value@, ':')[1]);
        Ok(PublicKey { name, key })
    }
}

/// The key text that `name` stands for, the latest entry winning.
pub open spec fn spec_lookup_key(keys: Seq<PublicKey>, name: Seq<char>) -> Option<Seq<char>>
    decreases keys.len(),
{
    if keys.len() == 0 {
        None
    } else if keys.last().name@ == name {
        Some(keys.last().key@)
    } else {
        spec_lookup_key(keys.drop_last(), name)
    }
}

/// What checking one `<signer>:<base64 signature>` string amounts to:
/// nothing for a malformed string, `false` for an unknown signer, and
/// otherwise ed25519's answer over the named key.
pub open spec fn spec_sig_ok(keys: Seq<PublicKey>, msg: Seq<u8>, sig: Seq<char>) -> Option<bool> {
    let parts = crate::strutil::spec_split(sig, ':');
    if parts.len() != 2 || parts[1].len() > usize::MAX / 8 {
        None
    } else {
        match base64_decode_of(parts[1]) {
            Option::None => None,
            Option::Some(sb) => Some(
                match spec_lookup_key(keys, parts[0]) {
                    Option::Some(k) => ed25519_verifies(encode_utf8(k), msg, sb),
                    Option::None => false,
                },
            ),
        }
    }
}

/// How many of `sigs` verify, or nothing when one of them is malformed.
pub open spec fn spec_good_sigs(keys: Seq<PublicKey>, msg: Seq<u8>, sigs: Seq<Seq<char>>) -> Option<
    int,
>
    decreases sigs.len(),
{
    if sigs.len() == 0 {
        Some(0int)
    } else {
        match spec_sig_ok(keys, msg, sigs[0]) {
            Option::None => None,
            Option::Some(b) => match spec_good_sigs(keys, msg, sigs.drop_first()) {
                Option::None => None,
                Option::Some(n) => Some(
                    n + if b {
                        1int
                    } else {
                        0int
                    },
                ),
            },
        }
    }
}

/// Whether counting the good signatures fails on a malformed entry.
pub open spec fn spec_good_sigs_none(
    keys: Seq<PublicKey>,
    msg: Seq<u8>,
    sigs: Seq<Seq<char>>,
) -> bool {
    spec_good_sigs(keys, msg, sigs) is None
}

/// The trusted public keys, looked up by signer name. A name given twice
/// keeps its later key.
#[derive(Debug)]
pub struct PublicKeys(pub Vec<PublicKey>);

impl PublicKeys {
    /// No trusted keys.
    pub fn new() -> (r: Self)
        ensures
            r.0@.len() == 0,
    {
        PublicKeys(Vec::new())
    }

    /// Reads keys from `<name>:<key>` strings; one bad entry fails the lot.
    pub fn parse(values: &Vec<String>) -> (r: Result<Self, StoreError>)
        ensures
            match r {
                Ok(ks) => {
                    &&& ks.0@.len() == values@.len()
                    &&& forall|i: int|
                        0 <= i < values@.len() ==> {
                            let parts = crate::strutil::spec_split(#[trigger] values@[i]@, ':');
                            parts.len() == 2 && ks.0@[i].name@ == parts[0] && ks.0@[i].key@
                                == parts[1]
                        }
                },
                Err(_) => exists|i: int|
                    0 <= i < values@.len() && crate::strutil::spec_split(
                        #[trigger] values@[i]@,
                        ':',
                    ).len() != 2,
            },
    {
        let mut out: Vec<PublicKey> = Vec::new();
        let mut i: usize = 0;
        while i < values.len()
            invariant
                i <= values@.len(),
                out@.len() == i,
                forall|k: int|
                    0 <= k < i ==> {
                        let parts = crate::strutil::spec_split(#[trigger] values@[k]@, ':');
                        parts.len() == 2 && out@[k].name@ == parts[0] && out@[k].key@ == parts[1]
                    },
            decreases values@.len() - i,
        {
            match PublicKey::parse(values[i].as_str()) {
                Ok(k) => out.push(k),
                Err(e) => {
                    return Err(e);
                },
            }
            i = i + 1;
        }
        Ok(PublicKeys(out))
    }

    fn lookup(&self, name: &str) -> (r: Option<&PublicKey>)
        ensures
            match r {
                Some(k) => spec_lookup_key(self.0@, name@) == Some(k.key@),
                None => spec_lookup_key(self.0@, name@) is None,
            },
    {
        let n = self.0.len();
        let mut i: usize = n;
        assert(self.0@.take(n as int) =~= self.0@);
        while i > 0
            invariant
                i <= n,
                n == self.0@.len(),
                spec_lookup_key(self.0@, name@) == spec_lookup_key(self.0@.take(i as int), name@),
            decreases i,
        {
            i = i - 1;
            assert(self.0@.take(i + 1).last() == self.0@[i as int]);
            assert(self.0@.take(i + 1).drop_last() =~= self.0@.take(i as int));
            if str_eq(self.0[i].name.as_str(), name) {
                return Some(&self.0[i]);
            }
        }
        assert(self.0@.take(0) =~= Seq::<PublicKey>::empty());
        None
    }

    /// Verifies one `<signer>:<base64 signature>` string against `message`.
    ///
    /// A malformed signature string is an error; an unknown signer is a
    /// clean `false`; otherwise the answer is ed25519's.
    pub fn verify(&self, message: &[u8], sig: &str) -> (r: Result<bool, StoreError>)
        ensures
            match r {
                Ok(b) => spec_sig_ok(self.0@, message@, sig@) == Some(b),
                Err(_) => spec_sig_ok(self.0@, message@, sig@) is None,
            },
    {
        let parts = split_char(sig, ':');
        if parts.len() != 2 {
            return Err(StoreError::InvalidKey { key: sig.to_owned() });
        }
        assert(parts.deep_view()[0] == parts@[0]@);
        assert(parts.deep_view()[1] == parts@[1]@);
        if parts[1].as_str().unicode_len() > usize::MAX / 8 {
            return Err(StoreError::InvalidKey { key: sig.to_owned() });
        }
        let sig_bytes = match base64_decode(parts[1].as_str()) {
            Some(b) => b,
            None => {
                return Err(StoreError::HashDecodeError {
                    error: String::from_str("signature is not base64"),
                });
            },
        };
        let key = match self.lookup(parts[0].as_str()) {
            Some(k) => k,
            None => {
                return Ok(false);
            },
        };
        Ok(ed25519_verify(key.key.as_str(), message, sig_bytes.as_slice()))
    }
}

} // verus!
