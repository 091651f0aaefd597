//! The remote read-only store's compute side: what opening a cache reads
//! from its `nix-cache-info` document. The transport that fetches it
//! lives outside the library.

use vstd::prelude::*;

use crate::strutil::{spec_lines, spec_split2, spec_trim, str_eq, trim};
use crate::valid_path::spec_parse_u64_opt;

verus! {

/// Opens remote read-only stores; the fetching itself is not part of the
/// library's logic.
#[derive(Debug)]
pub struct BinaryStoreOpener {}

impl BinaryStoreOpener {
    /// A fresh opener.
    pub fn new() -> (r: Box<BinaryStoreOpener>) {
        Box::new(BinaryStoreOpener {  })
    }
}

/// One `key: value` line of a cache-info document applied to the store
/// directory and priority gathered so far. Unreadable lines and unknown
/// keys change nothing.
pub open spec fn spec_cache_info_line(
    acc: (Seq<char>, u64),
    line: Seq<char>,
) -> (Seq<char>, u64) {
    let parts = spec_split2(line, ':', ' ');
    if parts.len() != 2 {
        acc
    } else {
        let key = spec_trim(parts[0]);
        let val = spec_trim(parts[1]);
        if key == "StoreDir"@ {
            (val, acc.1)
        } else if key == "Priority"@ {
            (
                acc.0,
                match spec_parse_u64_opt(val) {
                    Option::Some(v) => v,
                    Option::None => 100u64,
                },
            )
        } else {
            acc
        }
    }
}

/// The cache-info lines folded, from the first `k`.
pub open spec fn spec_cache_info(lines: Seq<Seq<char>>, k: int) -> (Seq<char>, u64)
    decreases k,
{
    if k <= 0 {
        (Seq::empty(), 0u64)
    } else {
        spec_cache_info_line(spec_cache_info(lines, k - 1), lines[k - 1])
    }
}

/// Reads a `nix-cache-info` document: its `StoreDir` and `Priority`
/// lines, later lines overriding earlier ones; a priority that does not
/// parse counts as one hundred.
pub fn parse_cache_info(body: &str) -> (r: (String, u64))
    ensures
        (r.0@, r.1) == spec_cache_info(spec_lines(body@), spec_lines(body@).len() as int),
{
    let lines = crate::strutil::lines_of(body);
    let ghost lv = lines.deep_view();
    let mut store_dir = String::new();
    let mut priority: u64 = 0;
    let mut i: usize = 0;
    while i < lines.len()
        invariant
            i <= lines@.len(),
            lines.deep_view() == lv,
            lv.len() == lines@.len(),
            (store_dir@, priority) == spec_cache_info(lv, i as int),
        decreases lines@.len() - i,
    {
        assert(lv[i as int] == lines@[i as int]@);
        let parts = crate::strutil::split_str2(lines[i].as_str(), ':', ' ');
        if parts.len() == 2 {
            assert(parts.deep_view()[0] == parts@[0]@);
            assert(parts.deep_view()[1] == parts@[1]@);
            let key = trim(parts[0].as_str());
            let val = trim(parts[1].as_str());
            if str_eq(key.as_str(), "StoreDir") {
                store_dir = val;
            } else if str_eq(key.as_str(), "Priority") {
                priority = match crate::strutil::parse_u64(val.as_str()) {
                    Some(v) => v,
                    None => 100,
                };
            }
        } else {
            assert(parts.deep_view().len() == parts@.len());
        }
        i = i + 1;
    }
    (store_dir, priority)
}

} // verus!
