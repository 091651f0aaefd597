//! The client/daemon wire protocol: framing over the archive primitives,
//! the handshake, opcodes, log markers, and per-operation encodings.

use vstd::prelude::*;
use vstd::utf8::{decode_utf8, encode_utf8, valid_utf8};

use crate::error::{CommandError, StoreError};
use crate::nar::{
    read_bytes_frame, read_le_u64, spec_frame_str, spec_le_bytes, spec_le_value, spec_pad_len,
    spec_read_frame, write_le_u64, write_str_frame,
};

verus! {

/// The magic number a client opens with.
pub const WORKER_MAGIC_1: u32 = 0x6e697863;

/// The magic number the daemon answers with.
pub const WORKER_MAGIC_2: u32 = 0x6478696f;

/// The protocol version the daemon speaks.
pub const PROTOCOL_VERSION: u16 = 0x115;

/// The oldest client version the daemon accepts.
pub const MINIMUM_CLIENT_VERSION: u16 = 0x10a;

/// Log frame markers sent between operations.
pub const STDERR_NEXT: u64 = 0x6f6c6d67;

pub const STDERR_READ: u64 = 0x64617461;

pub const STDERR_WRITE: u64 = 0x64617416;

pub const STDERR_LAST: u64 = 0x616c7473;

pub const STDERR_ERROR: u64 = 0x63787470;

pub const STDERR_START_ACTIVITY: u64 = 0x53545254;

pub const STDERR_STOP_ACTIVITY: u64 = 0x53544f50;

pub const STDERR_RESULT: u64 = 0x52534c54;

/// A log frame marker, by name.
#[derive(Debug, PartialEq, Eq, Structural, Clone, Copy)]
pub enum STDERR {
    NEXT,
    READ,
    WRITE,
    LAST,
    ERROR,
    START_ACTIVITY,
    STOP_ACTIVITY,
    RESULT,
}

impl STDERR {
    /// The marker's wire code.
    pub fn code(&self) -> (r: u64)
        ensures
            r == match self {
                STDERR::NEXT => STDERR_NEXT,
                STDERR::READ => STDERR_READ,
                STDERR::WRITE => STDERR_WRITE,
                STDERR::LAST => STDERR_LAST,
                STDERR::ERROR => STDERR_ERROR,
                STDERR::START_ACTIVITY => STDERR_START_ACTIVITY,
                STDERR::STOP_ACTIVITY => STDERR_STOP_ACTIVITY,
                STDERR::RESULT => STDERR_RESULT,
            },
    {
        match self {
            STDERR::NEXT => STDERR_NEXT,
            STDERR::READ => STDERR_READ,
            STDERR::WRITE => STDERR_WRITE,
            STDERR::LAST => STDERR_LAST,
            STDERR::ERROR => STDERR_ERROR,
            STDERR::START_ACTIVITY => STDERR_START_ACTIVITY,
            STDERR::STOP_ACTIVITY => STDERR_STOP_ACTIVITY,
            STDERR::RESULT => STDERR_RESULT,
        }
    }
}

/// The operations of the command loop.
#[derive(Debug, PartialEq, Eq, Structural, Clone, Copy)]
pub enum WorkerOp {
    WopInvalidRequest,
    WopIsValidPath,
    WopHasSubstitutes,
    WopQueryPathHash,
    WopQueryReferences,
    WopQueryReferrers,
    WopAddToStore,
    WopAddTextToStore,
    WopBuildPaths,
    WopEnsurePath,
    WopAddTempRoot,
    WopAddIndirectRoot,
    WopSyncWithGC,
    WopFindRoots,
    WopExportPath,
    WopQueryDeriver,
    WopSetOptions,
    WopCollectGarbage,
    WopQuerySubstitutablePathInfo,
    WopQueryDerivationOutputs,
    WopQueryAllValidPaths,
    WopQueryFailedPaths,
    WopClearFailedPaths,
    WopQueryPathInfo,
    WopImportPaths,
    WopQueryDerivationOutputNames,
    WopQueryPathFromHashPart,
    WopQuerySubstitutablePathInfos,
    WopQueryValidPaths,
    WopQuerySubstitutablePaths,
    WopQueryValidDerivers,
    WopOptimiseStore,
    WopVerifyStore,
    WopBuildDerivation,
    WopAddSignatures,
    WopNarFromPath,
    WopAddToStoreNar,
    WopQueryMissing,
}

/// The operation a wire code names; anything unknown is the invalid
/// request.
pub open spec fn spec_worker_op(num: u32) -> WorkerOp {
    if num == 1 {
        WorkerOp::WopIsValidPath
    } else if num == 3 {
        WorkerOp::WopHasSubstitutes
    } else if num == 4 {
        WorkerOp::WopQueryPathHash
    } else if num == 5 {
        WorkerOp::WopQueryReferences
    } else if num == 6 {
        WorkerOp::WopQueryReferrers
    } else if num == 7 {
        WorkerOp::WopAddToStore
    } else if num == 8 {
        WorkerOp::WopAddTextToStore
    } else if num == 9 {
        WorkerOp::WopBuildPaths
    } else if num == 10 {
        WorkerOp::WopEnsurePath
    } else if num == 11 {
        WorkerOp::WopAddTempRoot
    } else if num == 12 {
        WorkerOp::WopAddIndirectRoot
    } else if num == 13 {
        WorkerOp::WopSyncWithGC
    } else if num == 14 {
        WorkerOp::WopFindRoots
    } else if num == 16 {
        WorkerOp::WopExportPath
    } else if num == 18 {
        WorkerOp::WopQueryDeriver
    } else if num == 19 {
        WorkerOp::WopSetOptions
    } else if num == 20 {
        WorkerOp::WopCollectGarbage
    } else if num == 21 {
        WorkerOp::WopQuerySubstitutablePathInfo
    } else if num == 22 {
        WorkerOp::WopQueryDerivationOutputs
    } else if num == 23 {
        WorkerOp::WopQueryAllValidPaths
    } else if num == 24 {
        WorkerOp::WopQueryFailedPaths
    } else if num == 25 {
        WorkerOp::WopClearFailedPaths
    } else if num == 26 {
        WorkerOp::WopQueryPathInfo
    } else if num == 27 {
        WorkerOp::WopImportPaths
    } else if num == 28 {
        WorkerOp::WopQueryDerivationOutputNames
    } else if num == 29 {
        WorkerOp::WopQueryPathFromHashPart
    } else if num == 30 {
        WorkerOp::WopQuerySubstitutablePathInfos
    } else if num == 31 {
        WorkerOp::WopQueryValidPaths
    } else if num == 32 {
        WorkerOp::WopQuerySubstitutablePaths
    } else if num == 33 {
        WorkerOp::WopQueryValidDerivers
    } else if num == 34 {
        WorkerOp::WopOptimiseStore
    } else if num == 35 {
        WorkerOp::WopVerifyStore
    } else if num == 36 {
        WorkerOp::WopBuildDerivation
    } else if num == 37 {
        WorkerOp::WopAddSignatures
    } else if num == 38 {
        WorkerOp::WopNarFromPath
    } else if num == 39 {
        WorkerOp::WopAddToStoreNar
    } else if num == 40 {
        WorkerOp::WopQueryMissing
    } else {
        WorkerOp::WopInvalidRequest
    }
}

impl WorkerOp {
    /// Reads an operation from its wire code.
    pub fn from_u32(num: u32) -> (r: WorkerOp)
        ensures
            r == spec_worker_op(num),
    {
        match num {
            1 => WorkerOp::WopIsValidPath,
            3 => WorkerOp::WopHasSubstitutes,
            4 => WorkerOp::WopQueryPathHash,
            5 => WorkerOp::WopQueryReferences,
            6 => WorkerOp::WopQueryReferrers,
            7 => WorkerOp::WopAddToStore,
            8 => WorkerOp::WopAddTextToStore,
            9 => WorkerOp::WopBuildPaths,
            10 => WorkerOp::WopEnsurePath,
            11 => WorkerOp::WopAddTempRoot,
            12 => WorkerOp::WopAddIndirectRoot,
            13 => WorkerOp::WopSyncWithGC,
            14 => WorkerOp::WopFindRoots,
            16 => WorkerOp::WopExportPath,
            18 => WorkerOp::WopQueryDeriver,
            19 => WorkerOp::WopSetOptions,
            20 => WorkerOp::WopCollectGarbage,
            21 => WorkerOp::WopQuerySubstitutablePathInfo,
            22 => WorkerOp::WopQueryDerivationOutputs,
            23 => WorkerOp::WopQueryAllValidPaths,
            24 => WorkerOp::WopQueryFailedPaths,
            25 => WorkerOp::WopClearFailedPaths,
            26 => WorkerOp::WopQueryPathInfo,
            27 => WorkerOp::WopImportPaths,
            28 => WorkerOp::WopQueryDerivationOutputNames,
            29 => WorkerOp::WopQueryPathFromHashPart,
            30 => WorkerOp::WopQuerySubstitutablePathInfos,
            31 => WorkerOp::WopQueryValidPaths,
            32 => WorkerOp::WopQuerySubstitutablePaths,
            33 => WorkerOp::WopQueryValidDerivers,
            34 => WorkerOp::WopOptimiseStore,
            35 => WorkerOp::WopVerifyStore,
            36 => WorkerOp::WopBuildDerivation,
            37 => WorkerOp::WopAddSignatures,
            38 => WorkerOp::WopNarFromPath,
            39 => WorkerOp::WopAddToStoreNar,
            40 => WorkerOp::WopQueryMissing,
            _ => WorkerOp::WopInvalidRequest,
        }
    }
}

/// Log verbosity levels, as sent by `SetOptions`.
#[derive(Debug, PartialEq, Eq, Structural, Clone, Copy)]
pub enum Verbosity {
    LVLError,
    LVLWarn,
    LVLInfo,
    LVLTalkative,
    LVLChatty,
    LVLDebug,
    LVLVomit,
}

/// The verbosity a wire code names; anything unknown is the error level.
pub open spec fn spec_verbosity(v: u32) -> Verbosity {
    if v == 1 {
        Verbosity::LVLWarn
    } else if v == 2 {
        Verbosity::LVLInfo
    } else if v == 3 {
        Verbosity::LVLTalkative
    } else if v == 4 {
        Verbosity::LVLChatty
    } else if v == 5 {
        Verbosity::LVLDebug
    } else if v == 6 {
        Verbosity::LVLVomit
    } else {
        Verbosity::LVLError
    }
}

impl Verbosity {
    /// Reads a verbosity from its wire code; anything unknown is the
    /// error level.
    pub fn from_u32(v: u32) -> (r: Verbosity)
        ensures
            r == spec_verbosity(v),
    {
        match v {
            1 => Verbosity::LVLWarn,
            2 => Verbosity::LVLInfo,
            3 => Verbosity::LVLTalkative,
            4 => Verbosity::LVLChatty,
            5 => Verbosity::LVLDebug,
            6 => Verbosity::LVLVomit,
            _ => Verbosity::LVLError,
        }
    }
}

/// How an operation ended: cleanly, or with a message and status.
pub enum WorkFinish {
    Done,
    Error(String, usize),
}

/// The frames that close an operation: `STDERR_LAST` on success, or
/// `STDERR_ERROR`, the message, and a non-zero status.
pub open spec fn spec_stop_work_frames(state: &WorkFinish) -> Seq<u8> {
    match state {
        WorkFinish::Done => spec_le_bytes(STDERR_LAST),
        WorkFinish::Error(msg, s) => spec_le_bytes(STDERR_ERROR) + spec_frame_str(msg@) + if *s
            != 0 {
            spec_le_bytes(*s as u64)
        } else {
            Seq::<u8>::empty()
        },
    }
}

/// Writes the frames that close an operation.
pub fn stop_work_frames(state: &WorkFinish) -> (r: Vec<u8>)
    ensures
        r@ == spec_stop_work_frames(state),
{
    let mut out: Vec<u8> = Vec::new();
    match state {
        WorkFinish::Done => {
            write_le_u64(&mut out, STDERR_LAST);
        },
        WorkFinish::Error(msg, s) => {
            write_le_u64(&mut out, STDERR_ERROR);
            write_str_frame(&mut out, msg.as_str());
            if *s != 0 {
                write_le_u64(&mut out, *s as u64);
            }
        },
    }
    proof {
        assert(out@ =~= spec_stop_work_frames(state));
    }
    out
}

/// The frames the tunnel emits before pulling `n` payload bytes from the
/// client: the read marker, then the count.
pub open spec fn spec_tunnel_request(n: u64) -> Seq<u8> {
    spec_le_bytes(STDERR_READ) + spec_le_bytes(n)
}

/// Writes the tunnel read request for `n` bytes.
pub fn tunnel_request(n: u64) -> (r: Vec<u8>)
    ensures
        r@ == spec_tunnel_request(n),
{
    let mut out: Vec<u8> = Vec::new();
    write_le_u64(&mut out, STDERR_READ);
    write_le_u64(&mut out, n);
    proof {
        assert(out@ =~= spec_tunnel_request(n));
    }
    out
}

/// Refuses a client that opens with the wrong magic number.
pub fn check_client_magic(magic: u32) -> (r: Result<(), CommandError>)
    ensures
        r is Ok <==> magic == WORKER_MAGIC_1,
        r is Err ==> r == Err::<(), CommandError>(CommandError::InvalidMagic),
{
    if magic == WORKER_MAGIC_1 {
        Ok(())
    } else {
        Err(CommandError::InvalidMagic)
    }
}

/// Refuses a client older than the minimum version.
pub fn check_client_version(version: u16) -> (r: Result<(), CommandError>)
    ensures
        r is Ok <==> version >= MINIMUM_CLIENT_VERSION,
        r is Err ==> r == Err::<(), CommandError>(CommandError::InvalidVersion),
{
    if version >= MINIMUM_CLIENT_VERSION {
        Ok(())
    } else {
        Err(CommandError::InvalidVersion)
    }
}

/// The bytes the daemon answers the handshake with: its magic, four
/// reserved bytes, its version, six reserved bytes.
pub open spec fn spec_server_hello() -> Seq<u8> {
    seq![
        (WORKER_MAGIC_2 & 0xff) as u8,
        ((WORKER_MAGIC_2 >> 8u32) & 0xff) as u8,
        ((WORKER_MAGIC_2 >> 16u32) & 0xff) as u8,
        ((WORKER_MAGIC_2 >> 24u32) & 0xff) as u8,
        0u8,
        0u8,
        0u8,
        0u8,
        (PROTOCOL_VERSION & 0xff) as u8,
        ((PROTOCOL_VERSION >> 8u16) & 0xff) as u8,
        0u8,
        0u8,
        0u8,
        0u8,
        0u8,
        0u8,
    ]
}

/// Writes the daemon's handshake answer.
pub fn server_hello() -> (r: Vec<u8>)
    ensures
        r@ == spec_server_hello(),
{
    let m = WORKER_MAGIC_2;
    let v = PROTOCOL_VERSION;
    let mut out: Vec<u8> = Vec::new();
    out.push((m & 0xff) as u8);
    out.push(((m >> 8) & 0xff) as u8);
    out.push(((m >> 16) & 0xff) as u8);
    out.push(((m >> 24) & 0xff) as u8);
    out.push(0);
    out.push(0);
    out.push(0);
    out.push(0);
    out.push((v & 0xff) as u8);
    out.push(((v >> 8) & 0xff) as u8);
    out.push(0);
    out.push(0);
    out.push(0);
    out.push(0);
    out.push(0);
    out.push(0);
    proof {
        assert(out@ =~= spec_server_hello());
    }
    out
}

/// Reads one framed unsigned number.
pub fn read_u64(data: &Vec<u8>, pos: usize) -> (r: Result<(u64, usize), StoreError>)
    ensures
        match r {
            Ok((v, end)) => pos + 8 <= data@.len() && end == pos + 8 && v == spec_le_value(
                data@.subrange(pos as int, pos + 8),
            ),
            Err(_) => pos + 8 > data@.len(),
        },
{
    match read_le_u64(data, pos) {
        Ok(v) => Ok(v),
        Err(_) => Err(StoreError::Io { msg: String::from_str("unexpected end of input") }),
    }
}

/// Reads one framed boolean: any non-zero value is true, matching what
/// the writer emits, so booleans round-trip over the wire.
pub fn read_bool(data: &Vec<u8>, pos: usize) -> (r: Result<(bool, usize), StoreError>)
    ensures
        match r {
            Ok((v, end)) => pos + 8 <= data@.len() && end == pos + 8 && v == (spec_le_value(
                data@.subrange(pos as int, pos + 8),
            ) != 0),
            Err(_) => pos + 8 > data@.len(),
        },
{
    let (v, end) = read_u64(data, pos)?;
    Ok((v != 0, end))
}

/// Reads one framed byte string, padding checked.
pub fn read_os_string(data: &Vec<u8>, pos: usize) -> (r: Result<(Vec<u8>, usize), StoreError>)
    ensures
        match r {
            Ok((b, end)) => spec_read_frame(data@, pos as int) == Some((b@, end as int)) && pos
                < end <= data@.len(),
            Err(_) => spec_read_frame(data@, pos as int) is None,
        },
{
    match read_bytes_frame(data, pos) {
        Ok(v) => Ok(v),
        Err(_) => Err(StoreError::Io { msg: String::from_str("unexpected end of input") }),
    }
}

/// Reads one framed string, invalid UTF-8 replaced.
pub fn read_string(data: &Vec<u8>, pos: usize) -> (r: Result<(String, usize), StoreError>)
    ensures
        match r {
            Ok((s, end)) => pos < end <= data@.len() && match spec_read_frame(
                data@,
                pos as int,
            ) {
                Option::Some((b, e)) => end == e && (valid_utf8(b) ==> s@ == decode_utf8(b)),
                Option::None => false,
            },
            Err(_) => spec_read_frame(data@, pos as int) is None,
        },
{
    let (b, end) = read_os_string(data, pos)?;
    let s = crate::store::bytes_to_string_lossy(&b);
    Ok((s, end))
}

/// What reading `n` strings from `pos` gives: the strings' byte values
/// and the next position, or nothing when a frame is broken.
pub open spec fn spec_read_byte_strings(data: Seq<u8>, pos: int, n: int) -> Option<
    (Seq<Seq<u8>>, int),
>
    decreases n,
{
    if n <= 0 {
        Some((Seq::empty(), pos))
    } else {
        match spec_read_frame(data, pos) {
            Option::None => None,
            Option::Some((b, e)) => match spec_read_byte_strings(data, e, n - 1) {
                Option::None => None,
                Option::Some((rest, end)) => Some((seq![b] + rest, end)),
            },
        }
    }
}

/// Reads a framed list of strings: a count, then that many strings. It
/// fails exactly when the count frame is short, the count does not fit,
/// or one of the counted string frames is broken.
pub fn read_strings(data: &Vec<u8>, pos: usize) -> (r: Result<(Vec<String>, usize), StoreError>)
    ensures
        match r {
            Ok((v, end)) => pos < end <= data@.len() && pos + 8 <= data@.len() && ({
                let n = spec_le_value(data@.subrange(pos as int, pos + 8));
                match spec_read_byte_strings(data@, pos + 8, n as int) {
                    Option::Some((bs, e)) => end == e && v@.len() == bs.len() && (forall|i: int|
                        0 <= i < bs.len() ==> valid_utf8(#[trigger] bs[i]) ==> v.deep_view()[i]
                            == decode_utf8(bs[i])),
                    Option::None => false,
                }
            }),
            Err(_) => pos + 8 > data@.len() || ({
                let n = spec_le_value(data@.subrange(pos as int, pos + 8));
                n > usize::MAX || spec_read_byte_strings(data@, pos + 8, n as int) is None
            }),
        },
{
    let (n, start) = read_u64(data, pos)?;
    let mut out: Vec<String> = Vec::new();
    let mut k: u64 = 0;
    let mut p: usize = start;
    if n > (usize::MAX as u64) {
        return Err(StoreError::Io { msg: String::from_str("list is too long") });
    }
    let ghost mut done_bs: Seq<Seq<u8>> = Seq::empty();
    proof {
        assert(Seq::<Seq<u8>>::empty() + (match spec_read_byte_strings(
            data@,
            start as int,
            n as int,
        ) {
            Option::Some((bs, _)) => bs,
            Option::None => Seq::<Seq<u8>>::empty(),
        }) =~= (match spec_read_byte_strings(data@, start as int, n as int) {
            Option::Some((bs, _)) => bs,
            Option::None => Seq::<Seq<u8>>::empty(),
        }));
    }
    while k < n
        invariant
            k <= n,
            pos + 8 <= data@.len(),
            start == pos + 8,
            n == spec_le_value(data@.subrange(pos as int, pos + 8)),
            n <= usize::MAX,
            pos < p <= data@.len(),
            out@.len() == k,
            done_bs.len() == k,
            forall|i: int|
                0 <= i < k ==> valid_utf8(#[trigger] done_bs[i]) ==> out.deep_view()[i]
                    == decode_utf8(done_bs[i]),
            match spec_read_byte_strings(data@, p as int, (n - k) as int) {
                Option::Some((rest, e)) => spec_read_byte_strings(
                    data@,
                    start as int,
                    n as int,
                ) == Some((done_bs + rest, e)),
                Option::None => spec_read_byte_strings(data@, start as int, n as int) is None,
            },
        decreases n - k,
    {
        let (s, p2) = read_string(data, p)?;
        proof {
            let frame = spec_read_frame(data@, p as int);
            assert(frame is Some);
            done_bs = done_bs.push(frame.unwrap().0);
        }
        out.push(s);
        p = p2;
        k = k + 1;
        proof {
            match spec_read_byte_strings(data@, p as int, (n - k) as int) {
                Option::Some((rest, e)) => {
                    assert(done_bs + rest =~= done_bs.drop_last() + (seq![done_bs.last()]
                        + rest));
                },
                Option::None => {},
            }
        }
    }
    proof {
        assert(spec_read_byte_strings(data@, p as int, 0) == Some(
            (Seq::<Seq<u8>>::empty(), p as int),
        ));
        match spec_read_byte_strings(data@, start as int, n as int) {
            Option::Some((bs, e)) => {
                assert(done_bs + Seq::<Seq<u8>>::empty() =~= done_bs);
            },
            Option::None => {},
        }
    }
    Ok((out, p))
}

/// What a framed source holds: length-prefixed chunks up to an empty
/// one, concatenated, with the position after the terminator. Nothing
/// when a length or a chunk runs past the end.
pub open spec fn spec_framed_source(data: Seq<u8>, pos: int) -> Option<(Seq<u8>, int)>
    decreases data.len() - pos,
{
    if pos + 8 > data.len() {
        None
    } else {
        let n = spec_le_value(data.subrange(pos, pos + 8)) as int;
        if n == 0 {
            Some((Seq::empty(), pos + 8))
        } else if pos + 8 + n > data.len() {
            None
        } else {
            match spec_framed_source(data, pos + 8 + n) {
                Option::Some((rest, e)) => Some((data.subrange(pos + 8, pos + 8 + n) + rest, e)),
                Option::None => None,
            }
        }
    }
}

/// Joins a framed source: chunks each led by their length, ended by an
/// empty one. It fails exactly when the framing is broken.
pub fn read_framed_source(data: &Vec<u8>, pos: usize) -> (r: Result<(Vec<u8>, usize), StoreError>)
    ensures
        match r {
            Ok((b, end)) => pos < end <= data@.len() && spec_framed_source(data@, pos as int)
                == Some((b@, end as int)),
            Err(_) => spec_framed_source(data@, pos as int) is None,
        },
{
    if pos > data.len() {
        return Err(StoreError::Io { msg: String::from_str("unexpected end of input") });
    }
    let mut out: Vec<u8> = Vec::new();
    let mut p: usize = pos;
    proof {
        assert(Seq::<u8>::empty() + (match spec_framed_source(data@, pos as int) {
            Option::Some((b, _)) => b,
            Option::None => Seq::<u8>::empty(),
        }) =~= (match spec_framed_source(data@, pos as int) {
            Option::Some((b, _)) => b,
            Option::None => Seq::<u8>::empty(),
        }));
    }
    loop
        invariant
            pos <= p <= data@.len(),
            data@.len() <= usize::MAX,
            match spec_framed_source(data@, p as int) {
                Option::Some((rest, e)) => spec_framed_source(data@, pos as int) == Some(
                    (out@ + rest, e),
                ),
                Option::None => spec_framed_source(data@, pos as int) is None,
            },
        decreases data@.len() - p,
    {
        let (n, p1) = read_u64(data, p)?;
        if n == 0 {
            proof {
                assert(out@ + Seq::<u8>::empty() =~= out@);
            }
            return Ok((out, p1));
        }
        if n > (usize::MAX as u64) - 8 {
            proof {
                assert(data@.len() <= usize::MAX);
                assert(p1 + n as int > data@.len());
                assert(spec_framed_source(data@, p as int) is None);
            }
            return Err(StoreError::Io { msg: String::from_str("framed chunk is too long") });
        }
        if (n as usize) > data.len() - p1 {
            proof {
                assert(p1 + n as int > data@.len());
                assert(spec_framed_source(data@, p as int) is None);
            }
            return Err(StoreError::Io { msg: String::from_str("framed chunk is too long") });
        }
        let ghost out0 = out@;
        let mut i: usize = 0;
        while i < n as usize
            invariant
                i <= n,
                n <= data@.len() - p1,
                p1 + n <= data@.len(),
                data@.len() <= usize::MAX,
                out@ == out0 + data@.subrange(p1 as int, p1 + i),
            decreases n - i,
        {
            proof {
                assert(p1 + i < data@.len());
                assert(out0 + data@.subrange(p1 as int, p1 + i + 1) =~= (out0 + data@.subrange(
                    p1 as int,
                    p1 + i,
                )).push(data@[p1 + i]));
            }
            out.push(data[p1 + i]);
            i = i + 1;
        }
        proof {
            let full = spec_framed_source(data@, pos as int);
            match spec_framed_source(data@, p1 + n) {
                Option::Some((rest, e)) => {
                    assert(out0 + (data@.subrange(p1 as int, p1 + n) + rest) =~= out@ + rest);
                },
                Option::None => {},
            }
        }
        p = p1 + n as usize;
    }
}

/// Appends one framed unsigned number.
pub fn write_u64(out: &mut Vec<u8>, v: u64)
    ensures
        final(out)@ == old(out)@ + spec_le_bytes(v),
{
    write_le_u64(out, v);
}

/// Appends one framed boolean: one for true, zero for false.
pub fn write_bool(out: &mut Vec<u8>, v: bool)
    ensures
        final(out)@ == old(out)@ + spec_le_bytes(
            if v {
                1u64
            } else {
                0u64
            },
        ),
{
    if v {
        write_le_u64(out, 1);
    } else {
        write_le_u64(out, 0);
    }
}

/// Appends one framed string.
pub fn write_string(out: &mut Vec<u8>, s: &str)
    ensures
        final(out)@ == old(out)@ + spec_frame_str(s@),
{
    write_str_frame(out, s);
}

/// The framed form of a list of strings: the count, then each framed.
pub open spec fn spec_frame_strings(items: Seq<Seq<char>>, k: int) -> Seq<u8>
    decreases k,
{
    if k <= 0 {
        Seq::empty()
    } else {
        spec_frame_strings(items, k - 1) + spec_frame_str(items[k - 1])
    }
}

/// Appends a framed list of strings.
pub fn write_strings(out: &mut Vec<u8>, items: &Vec<String>)
    ensures
        final(out)@ == old(out)@ + spec_le_bytes(items@.len() as u64) + spec_frame_strings(
            items.deep_view(),
            items@.len() as int,
        ),
{
    write_le_u64(out, items.len() as u64);
    let ghost mid = out@;
    let ghost iv = items.deep_view();
    let mut i: usize = 0;
    while i < items.len()
        invariant
            i <= items@.len(),
            items.deep_view() == iv,
            iv.len() == items@.len(),
            out@ == mid + spec_frame_strings(iv, i as int),
        decreases items@.len() - i,
    {
        assert(iv[i as int] == items@[i as int]@);
        write_str_frame(out, items[i].as_str());
        assert(out@ =~= mid + spec_frame_strings(iv, i + 1));
        i = i + 1;
    }
}

/// Reading a framed string gives back exactly the string written:
/// the frame of `s` followed by anything parses to the UTF-8 bytes of
/// `s`, ending right after the frame.
pub proof fn lemma_string_round_trip(s: Seq<char>, rest: Seq<u8>)
    requires
        encode_utf8(s).len() <= usize::MAX,
    ensures
        ({
            let frame = spec_frame_str(s);
            spec_read_frame(frame + rest, 0) == Some((encode_utf8(s), frame.len() as int))
        }),
{
    let b = encode_utf8(s);
    let frame = spec_frame_str(s);
    let data = frame + rest;
    crate::nar::lemma_le_round_trip(b.len() as u64);
    assert(data.subrange(0, 8) =~= spec_le_bytes(b.len() as u64));
    assert(spec_le_value(data.subrange(0, 8)) == b.len() as u64);
    let len = b.len() as int;
    let pad = spec_pad_len(len);
    assert(data.subrange(8, 8 + len) =~= b);
    assert(forall|m: int| 8 + len <= m < 8 + len + pad ==> #[trigger] data[m] == 0u8);
    assert(spec_read_frame(data, 0) == Some((b, 8 + len + pad)));
}

/// Writing a string and reading it back yields the same characters.
pub proof fn lemma_write_read_string(s: Seq<char>, rest: Seq<u8>)
    requires
        encode_utf8(s).len() <= usize::MAX,
    ensures
        ({
            let frame = spec_frame_str(s);
            match spec_read_frame(frame + rest, 0) {
                Option::Some((b, _)) => valid_utf8(b) && decode_utf8(b) == s,
                Option::None => false,
            }
        }),
{
    broadcast use vstd::utf8::encode_utf8_valid_utf8;
    broadcast use vstd::utf8::encode_utf8_decode_utf8;

    lemma_string_round_trip(s, rest);
}


/// The printed references of a response, each framed.
pub open spec fn spec_framed_paths(dir: Seq<char>, refs: Seq<Seq<char>>, k: int) -> Seq<u8>
    decreases k,
{
    if k <= 0 {
        Seq::empty()
    } else {
        spec_framed_paths(dir, refs, k - 1) + spec_frame_str(
            crate::store::spec_print_path(dir, refs[k - 1]),
        )
    }
}

/// The answer to a path-info query: a zero for a miss; for a hit a one,
/// the printed deriver or the empty string, the archive hash in hex, the
/// counted printed references, the registration time, the archive size
/// or zero, the trust flag, the signatures, and the content address or
/// the empty string.
pub open spec fn spec_query_path_info_response(
    dir: Seq<char>,
    found: Option<crate::valid_path::ValidPathInfoV>,
) -> Seq<u8> {
    match found {
        Option::None => spec_le_bytes(0),
        Option::Some(v) => spec_le_bytes(1) + spec_frame_str(
            match v.deriver {
                Option::Some(d) => crate::store::spec_print_path(dir, d),
                Option::None => Seq::<char>::empty(),
            },
        ) + spec_frame_str(crate::hash::hex_lower_of(v.nar_hash->Sha256_0)) + spec_le_bytes(
            v.references.len() as u64,
        ) + spec_framed_paths(dir, v.references, v.references.len() as int) + spec_le_bytes(
            v.registration_time as u64,
        ) + spec_le_bytes(v.nar_size.unwrap_or(0u64)) + spec_le_bytes(
            if v.ultimate {
                1u64
            } else {
                0u64
            },
        ) + spec_le_bytes(v.sigs.len() as u64) + spec_frame_strings(
            v.sigs,
            v.sigs.len() as int,
        ) + spec_frame_str(
            match v.ca {
                Option::Some(c) => c,
                Option::None => Seq::<char>::empty(),
            },
        ),
    }
}

/// Writes the answer to a path-info query.
#[verifier::rlimit(100)]
pub fn encode_query_path_info_response<S: crate::store::Store>(
    store: &S,
    found: Option<&crate::valid_path::ValidPathInfo>,
) -> (r: Vec<u8>)
    requires
        store.spec_has_store_dir(),
        found matches Some(info) ==> info.nar_hash@ is Sha256
            && info.nar_hash@->Sha256_0.len() <= usize::MAX / 512 && info.registration_time >= 0,
    ensures
        r@ == spec_query_path_info_response(
            store.spec_store_dir(),
            match found {
                Option::Some(info) => Some(info@),
                Option::None => None,
            },
        ),
{
    let ghost dir = store.spec_store_dir();
    let mut out: Vec<u8> = Vec::new();
    let info = match found {
        Some(info) => info,
        None => {
            write_le_u64(&mut out, 0);
            assert(out@ =~= spec_query_path_info_response(dir, None::<
                crate::valid_path::ValidPathInfoV,
            >));
            return out;
        },
    };
    write_le_u64(&mut out, 1);
    match &info.deriver {
        Some(d) => {
            let printed = store.print_store_path(d);
            write_str_frame(&mut out, printed.as_str());
        },
        None => {
            write_str_frame(&mut out, "");
            proof {
                reveal_strlit("");
                assert(""@ =~= Seq::<char>::empty());
            }
        },
    }
    let hex = match &info.nar_hash {
        crate::hash::Hash::SHA256(v) => crate::hash::hex_encode_lower(v),
        _ => {
            proof {
                assert(false);
            }
            String::new()
        },
    };
    write_str_frame(&mut out, hex.as_str());
    write_le_u64(&mut out, info.references.len() as u64);
    let ghost mid = out@;
    let mut i: usize = 0;
    while i < info.references.len()
        invariant
            i <= info.references@.len(),
            store.spec_has_store_dir(),
            dir == store.spec_store_dir(),
            out@ == mid + spec_framed_paths(
                dir,
                crate::store::views_of(info.references@),
                i as int,
            ),
        decreases info.references@.len() - i,
    {
        let printed = store.print_store_path(&info.references[i]);
        write_str_frame(&mut out, printed.as_str());
        proof {
            assert(crate::store::views_of(info.references@)[i as int] == info.references@[
                i as int
            ]@);
            assert(out@ =~= mid + spec_framed_paths(
                dir,
                crate::store::views_of(info.references@),
                i + 1,
            ));
        }
        i = i + 1;
    }
    write_le_u64(&mut out, info.registration_time as u64);
    match info.nar_size {
        Some(sz) => write_le_u64(&mut out, sz),
        None => write_le_u64(&mut out, 0),
    }
    write_bool(&mut out, info.ultimate);
    write_strings(&mut out, &info.sigs);
    match &info.ca {
        Some(c) => write_str_frame(&mut out, c.as_str()),
        None => {
            write_str_frame(&mut out, "");
            proof {
                reveal_strlit("");
                assert(""@ =~= Seq::<char>::empty());
            }
        },
    }
    proof {
        assert(out@ =~= spec_query_path_info_response(dir, Some(info@)));
    }
    out
}

/// The bytes of the frame at `pos`, empty when the frame is broken.
pub open spec fn spec_frame_bytes_at(data: Seq<u8>, pos: int) -> Seq<u8> {
    match spec_read_frame(data, pos) {
        Option::Some((b, _)) => b,
        Option::None => Seq::empty(),
    }
}

/// Where the frame at `pos` ends; `pos` itself when it is broken.
pub open spec fn spec_frame_end_at(data: Seq<u8>, pos: int) -> int {
    match spec_read_frame(data, pos) {
        Option::Some((_, e)) => e,
        Option::None => pos,
    }
}

/// Whether a counted string list starts at `pos`: a count frame and that
/// many whole string frames.
pub open spec fn spec_counted_strings_ok(data: Seq<u8>, pos: int) -> bool {
    &&& pos + 8 <= data.len()
    &&& spec_read_byte_strings(
        data,
        pos + 8,
        spec_le_value(data.subrange(pos, pos + 8)) as int,
    ) is Some
}

/// The byte strings of the counted list at `pos`, empty when broken.
pub open spec fn spec_counted_strings_at(data: Seq<u8>, pos: int) -> Seq<Seq<u8>> {
    if pos + 8 <= data.len() {
        match spec_read_byte_strings(
            data,
            pos + 8,
            spec_le_value(data.subrange(pos, pos + 8)) as int,
        ) {
            Option::Some((bs, _)) => bs,
            Option::None => Seq::empty(),
        }
    } else {
        Seq::empty()
    }
}

/// Where the counted list at `pos` ends; `pos` when it is broken.
pub open spec fn spec_counted_strings_end_at(data: Seq<u8>, pos: int) -> int {
    if pos + 8 <= data.len() {
        match spec_read_byte_strings(
            data,
            pos + 8,
            spec_le_value(data.subrange(pos, pos + 8)) as int,
        ) {
            Option::Some((_, e)) => e,
            Option::None => pos,
        }
    } else {
        pos
    }
}

/// Reads the record and flags of an add-by-archive request: the path,
/// the deriver, the archive hash in hex, the references, the
/// registration time, the archive size, the trust flag, the signatures,
/// the content address, then the repair and no-signature-check flags.
///
/// A peer that is not trusted never gets a trusted record and never
/// escapes the signature check, whatever it sent.
#[verifier::rlimit(100)]
pub fn decode_add_to_store_nar<S: crate::store::Store>(
    store: &S,
    data: &Vec<u8>,
    pos: usize,
    trusted: bool,
) -> (r: Result<(crate::valid_path::ValidPathInfo, bool, bool, usize), StoreError>)
    requires
        store.spec_has_store_dir(),
    ensures
        match r {
            Ok((info, repair, dont_check_sigs, end)) => pos < end <= data@.len() && (!trusted
                ==> !info.ultimate && !dont_check_sigs) && info.path.wf() && ({
                let dir = store.spec_store_dir();
                let q0 = pos as int;
                let pb = spec_frame_bytes_at(data@, q0);
                let p0 = spec_frame_end_at(data@, q0);
                let db = spec_frame_bytes_at(data@, p0);
                let p1 = spec_frame_end_at(data@, p0);
                let hb = spec_frame_bytes_at(data@, p1);
                let p2 = spec_frame_end_at(data@, p1);
                let rbs = spec_counted_strings_at(data@, p2);
                let p3 = spec_counted_strings_end_at(data@, p2);
                let p6 = p3 + 24;
                let sbs = spec_counted_strings_at(data@, p6);
                let p7 = spec_counted_strings_end_at(data@, p6);
                let cb = spec_frame_bytes_at(data@, p7);
                let p8 = spec_frame_end_at(data@, p7);
                &&& spec_read_frame(data@, q0) is Some
                &&& spec_read_frame(data@, p0) is Some
                &&& spec_read_frame(data@, p1) is Some
                &&& spec_counted_strings_ok(data@, p2)
                &&& spec_counted_strings_ok(data@, p6)
                &&& spec_read_frame(data@, p7) is Some
                &&& end == p8 + 16
                &&& (valid_utf8(pb) ==> crate::store::spec_parse_basename(dir, decode_utf8(pb))
                    == Some(info.path@))
                &&& (valid_utf8(db) ==> match info.deriver {
                    Option::Some(d) => crate::store::spec_parse_basename(dir, decode_utf8(db))
                        == Some(d@),
                    Option::None => match crate::store::spec_parse_basename(
                        dir,
                        decode_utf8(db),
                    ) {
                        Option::Some(base) => !crate::path::spec_store_basename_ok(base),
                        Option::None => true,
                    },
                })
                &&& (valid_utf8(hb) ==> {
                    let ht = decode_utf8(hb);
                    &&& crate::hash::spec_hex_decode_lower(ht) is Some
                    &&& ht.len() == 64
                    &&& info.nar_hash@ == crate::hash::HashV::Sha256(
                        crate::hash::spec_hex_decode_lower(ht).unwrap(),
                    )
                })
                &&& info.references@.len() == rbs.len()
                &&& (forall|i: int|
                    0 <= i < rbs.len() ==> valid_utf8(#[trigger] rbs[i])
                        ==> crate::store::spec_parse_basename(dir, decode_utf8(rbs[i])) == Some(
                        info.references@[i]@,
                    ))
                &&& info.registration_time == spec_le_value(
                    data@.subrange(p3, p3 + 8),
                ) as i64
                &&& info.nar_size == Some(spec_le_value(data@.subrange(p3 + 8, p3 + 16)))
                &&& (trusted ==> info.ultimate == (spec_le_value(
                    data@.subrange(p3 + 16, p3 + 24),
                ) != 0))
                &&& info.sigs@.len() == sbs.len()
                &&& (forall|i: int|
                    0 <= i < sbs.len() ==> valid_utf8(#[trigger] sbs[i]) ==> info.sigs@[i]@
                        == decode_utf8(sbs[i]))
                &&& match info.ca {
                    Option::Some(c) => valid_utf8(cb) ==> c@ == decode_utf8(cb),
                    Option::None => false,
                }
                &&& repair == (spec_le_value(data@.subrange(p8, p8 + 8)) != 0)
                &&& (trusted ==> dont_check_sigs == (spec_le_value(
                    data@.subrange(p8 + 8, p8 + 16),
                ) != 0))
            }),
            Err(_) => true,
        },
{
    let (path_text, p0) = read_string(data, pos)?;
    let path = store.parse_store_path(path_text.as_str())?;
    let mut info = crate::valid_path::ValidPathInfo::new(path);

    let (deriver_text, p1) = read_string(data, p0)?;
    info.deriver = match store.parse_store_path(deriver_text.as_str()) {
        Ok(p) => Some(p),
        Err(_) => None,
    };

    let (hash_text, p2) = read_string(data, p1)?;
    info.nar_hash = crate::hash::Hash::from_sha256(hash_text.as_str())?;

    let (ref_texts, p3) = read_strings(data, p2)?;
    let mut refs: Vec<crate::path::StorePath> = Vec::new();
    let mut i: usize = 0;
    while i < ref_texts.len()
        invariant
            i <= ref_texts@.len(),
            refs@.len() == i,
            store.spec_has_store_dir(),
            forall|j: int|
                0 <= j < i ==> crate::store::spec_parse_basename(
                    store.spec_store_dir(),
                    (#[trigger] ref_texts@[j])@,
                ) == Some(refs@[j]@),
        decreases ref_texts@.len() - i,
    {
        let p = store.parse_store_path(ref_texts[i].as_str())?;
        refs.push(p);
        i = i + 1;
    }
    info.references = refs;

    let (reg_time, p4) = read_u64(data, p3)?;
    info.registration_time = #[verifier::truncate] (reg_time as i64);
    let (nar_size, p5) = read_u64(data, p4)?;
    info.nar_size = Some(nar_size);
    let (ultimate, p6) = read_u64(data, p5)?;
    info.ultimate = ultimate != 0;
    let (sigs, p7) = read_strings(data, p6)?;
    info.sigs = sigs;
    let (ca, p8) = read_string(data, p7)?;
    info.ca = Some(ca);

    let (repair_v, p9) = read_u64(data, p8)?;
    let repair = repair_v != 0;
    let (dcs_v, p10) = read_u64(data, p9)?;
    let mut dont_check_sigs = dcs_v != 0;
    if !trusted && dont_check_sigs {
        dont_check_sigs = false;
    }
    if !trusted {
        info.ultimate = false;
        if dont_check_sigs {
            dont_check_sigs = false;
        }
    }
    proof {
        assert forall|j: int|
            0 <= j < info.references@.len() && valid_utf8(
                #[trigger] spec_counted_strings_at(data@, p2 as int)[j],
            ) implies crate::store::spec_parse_basename(
            store.spec_store_dir(),
            decode_utf8(spec_counted_strings_at(data@, p2 as int)[j]),
        ) == Some(info.references@[j]@) by {
            assert(ref_texts.deep_view()[j] == ref_texts@[j]@);
        }
        assert forall|j: int|
            0 <= j < info.sigs@.len() && valid_utf8(
                #[trigger] spec_counted_strings_at(data@, p6 as int)[j],
            ) implies info.sigs@[j]@ == decode_utf8(
            spec_counted_strings_at(data@, p6 as int)[j],
        ) by {
            assert(info.sigs.deep_view()[j] == info.sigs@[j]@);
        }
    }
    Ok((info, repair, dont_check_sigs, p10))
}


/// A digest and a byte count realised while a stream went past.
pub struct HashResult {
    pub hash: crate::hash::Hash,
    pub size: usize,
}


/// A work-scoped logger: messages sent while no operation is open are
/// queued, and drained when one starts.
pub trait Logger {
    /// Whether log frames may go out right now.
    fn can_send(&self) -> (r: bool);

    /// Opens or closes the sending window.
    fn set_can_send(&mut self, can: bool)
        ensures
            final(self).spec_pending() == old(self).spec_pending(),
    ;

    /// The messages waiting for the window to open.
    spec fn spec_pending(&self) -> Seq<Seq<char>>;

    /// Queues a message.
    fn enqueu(&mut self, msg: String)
        ensures
            final(self).spec_pending() == old(self).spec_pending().push(msg@),
    ;

    /// Hands out all queued messages, leaving the queue empty.
    fn dequeu(&mut self) -> (r: Vec<String>)
        ensures
            r.deep_view() == old(self).spec_pending(),
            final(self).spec_pending().len() == 0,
    ;
}

/// A logger that holds its queue in memory.
#[derive(Debug)]
pub struct QueueLogger {
    pub can_send_flag: bool,
    pub pending: Vec<String>,
}

impl QueueLogger {
    /// A closed logger with nothing queued.
    pub fn new() -> (r: QueueLogger)
        ensures
            !r.can_send_flag,
            r.spec_pending().len() == 0,
    {
        let r = QueueLogger { can_send_flag: false, pending: Vec::new() };
        proof {
            assert(r.pending.deep_view() =~= Seq::<Seq<char>>::empty());
        }
        r
    }
}

impl Logger for QueueLogger {
    fn can_send(&self) -> (r: bool) {
        self.can_send_flag
    }

    fn set_can_send(&mut self, can: bool) {
        self.can_send_flag = can;
    }

    open spec fn spec_pending(&self) -> Seq<Seq<char>> {
        self.pending.deep_view()
    }

    fn enqueu(&mut self, msg: String) {
        let ghost pre = self.pending.deep_view();
        let ghost m = msg@;
        self.pending.push(msg);
        proof {
            assert(self.pending.deep_view() =~= pre.push(m));
        }
    }

    fn dequeu(&mut self) -> (r: Vec<String>) {
        let mut out: Vec<String> = Vec::new();
        std::mem::swap(&mut out, &mut self.pending);
        out
    }
}

/// The client settings read by `SetOptions`.
#[derive(Debug)]
pub struct ClientSettings {
    pub keep_failed: bool,
    pub keep_going: bool,
    pub try_fallback: bool,
    pub verbosity: Verbosity,
    pub max_build_jobs: u32,
    pub max_silent_time: u32,
    pub build_cores: u32,
    pub use_substitutes: bool,
    pub overrides: Vec<(String, String)>,
}

impl ClientSettings {
    /// Settings before anything is read: everything off, zero, quiet.
    pub fn new() -> (r: Self)
        ensures
            !r.keep_failed,
            !r.keep_going,
            !r.try_fallback,
            r.verbosity == Verbosity::LVLError,
            r.max_build_jobs == 0,
            r.max_silent_time == 0,
            r.build_cores == 0,
            !r.use_substitutes,
            r.overrides@.len() == 0,
    {
        ClientSettings {
            keep_failed: false,
            keep_going: false,
            try_fallback: false,
            verbosity: Verbosity::LVLError,
            max_build_jobs: 0,
            max_silent_time: 0,
            build_cores: 0,
            use_substitutes: false,
            overrides: Vec::new(),
        }
    }

    /// Reads the `SetOptions` payload: twelve numbers — three flags, the
    /// verbosity, two limits, four obsolete slots, the core count, the
    /// substitute flag — then counted name/value override pairs. It
    /// fails exactly when the numbers run past the end, the pair count
    /// does not fit, or one of the counted string frames is broken.
    #[verifier::rlimit(100)]
    pub fn parse(data: &Vec<u8>, pos: usize) -> (r: Result<(ClientSettings, usize), StoreError>)
        ensures
            match r {
                Ok((cs, end)) => pos + 104 <= data@.len() && pos < end <= data@.len() && ({
                    let u = |k: int| spec_le_value(data@.subrange(pos + 8 * k, pos + 8 * k + 8));
                    &&& cs.keep_failed == (u(0) != 0)
                    &&& cs.keep_going == (u(1) != 0)
                    &&& cs.try_fallback == (u(2) != 0)
                    &&& cs.verbosity == spec_verbosity(u(3) as u32)
                    &&& cs.max_build_jobs == u(4) as u32
                    &&& cs.max_silent_time == u(5) as u32
                    &&& cs.build_cores == u(10) as u32
                    &&& cs.use_substitutes == (u(11) != 0)
                    &&& match spec_read_byte_strings(data@, pos + 104, 2 * (u(12) as int)) {
                        Option::Some((bs, e)) => {
                            &&& end == e
                            &&& cs.overrides@.len() == u(12)
                            &&& forall|i: int|
                                0 <= i < u(12) as int ==> {
                                    let pr = #[trigger] cs.overrides@[i];
                                    &&& (valid_utf8(bs[2 * i]) ==> pr.0@ == decode_utf8(
                                        bs[2 * i],
                                    ))
                                    &&& (valid_utf8(bs[2 * i + 1]) ==> pr.1@ == decode_utf8(
                                        bs[2 * i + 1],
                                    ))
                                }
                        },
                        Option::None => false,
                    }
                }),
                Err(_) => pos + 104 > data@.len() || ({
                    let u = |k: int| spec_le_value(data@.subrange(pos + 8 * k, pos + 8 * k + 8));
                    u(12) > usize::MAX || spec_read_byte_strings(
                        data@,
                        pos + 104,
                        2 * (u(12) as int),
                    ) is None
                }),
            },
    {
        let (v0, p0) = read_u64(data, pos)?;
        let (v1, p1) = read_u64(data, p0)?;
        let (v2, p2) = read_u64(data, p1)?;
        let (v3, p3) = read_u64(data, p2)?;
        let (v4, p4) = read_u64(data, p3)?;
        let (v5, p5) = read_u64(data, p4)?;
        let (_o1, p6) = read_u64(data, p5)?;
        let (_o2, p7) = read_u64(data, p6)?;
        let (_o3, p8) = read_u64(data, p7)?;
        let (_o4, p9) = read_u64(data, p8)?;
        let (v10, p10) = read_u64(data, p9)?;
        let (v11, p11) = read_u64(data, p10)?;
        let (n, mut p) = read_u64(data, p11)?;
        proof {
            assert(data@.subrange(pos as int, pos + 8) =~= data@.subrange(
                pos + 8 * 0,
                pos + 8 * 0 + 8,
            ));
            assert(data@.subrange(pos + 8, pos + 16) =~= data@.subrange(
                pos + 8 * 1,
                pos + 8 * 1 + 8,
            ));
            assert(data@.subrange(pos + 16, pos + 24) =~= data@.subrange(
                pos + 8 * 2,
                pos + 8 * 2 + 8,
            ));
            assert(data@.subrange(pos + 24, pos + 32) =~= data@.subrange(
                pos + 8 * 3,
                pos + 8 * 3 + 8,
            ));
            assert(data@.subrange(pos + 32, pos + 40) =~= data@.subrange(
                pos + 8 * 4,
                pos + 8 * 4 + 8,
            ));
            assert(data@.subrange(pos + 40, pos + 48) =~= data@.subrange(
                pos + 8 * 5,
                pos + 8 * 5 + 8,
            ));
            assert(data@.subrange(pos + 80, pos + 88) =~= data@.subrange(
                pos + 8 * 10,
                pos + 8 * 10 + 8,
            ));
            assert(data@.subrange(pos + 88, pos + 96) =~= data@.subrange(
                pos + 8 * 11,
                pos + 8 * 11 + 8,
            ));
            assert(data@.subrange(pos + 96, pos + 104) =~= data@.subrange(
                pos + 8 * 12,
                pos + 8 * 12 + 8,
            ));
        }
        if n > (usize::MAX as u64) {
            return Err(StoreError::Io { msg: String::from_str("list is too long") });
        }
        let ghost n_int = n as int;
        let ghost start_ov = p as int;
        let mut overrides: Vec<(String, String)> = Vec::new();
        let mut k: u64 = 0;
        let ghost mut done_bs: Seq<Seq<u8>> = Seq::empty();
        proof {
            match spec_read_byte_strings(data@, start_ov, 2 * n_int) {
                Option::Some((bs, e)) => {
                    assert(Seq::<Seq<u8>>::empty() + bs =~= bs);
                },
                Option::None => {},
            }
        }
        while k < n
            invariant
                k <= n,
                n <= usize::MAX,
                pos + 104 <= data@.len(),
                start_ov == pos + 104,
                n_int == n,
                n == spec_le_value(data@.subrange(pos + 96, pos + 104)),
                pos < p <= data@.len(),
                overrides@.len() == k,
                done_bs.len() == 2 * k,
                forall|i: int|
                    0 <= i < k ==> {
                        let pr = #[trigger] overrides@[i];
                        &&& (valid_utf8(done_bs[2 * i]) ==> pr.0@ == decode_utf8(done_bs[2 * i]))
                        &&& (valid_utf8(done_bs[2 * i + 1]) ==> pr.1@ == decode_utf8(
                            done_bs[2 * i + 1],
                        ))
                    },
                match spec_read_byte_strings(data@, p as int, 2 * (n_int - k)) {
                    Option::Some((rest, e)) => spec_read_byte_strings(data@, start_ov, 2 * n_int)
                        == Some((done_bs + rest, e)),
                    Option::None => spec_read_byte_strings(data@, start_ov, 2 * n_int) is None,
                },
            decreases n - k,
        {
            let ghost p_old = p as int;
            let ghost m = n_int - k;
            let (name, q1) = read_string(data, p)?;
            let (value, q2) = match read_string(data, q1) {
                Ok(v) => v,
                Err(e) => {
                    proof {
                        assert(spec_read_byte_strings(data@, q1 as int, 2 * m - 1) is None);
                        assert(spec_read_byte_strings(data@, p_old, 2 * m) is None);
                    }
                    return Err(e);
                },
            };
            overrides.push((name, value));
            p = q2;
            k = k + 1;
            proof {
                let f1 = spec_read_frame(data@, p_old);
                let f2 = spec_read_frame(data@, q1 as int);
                assert(f1 is Some && f2 is Some);
                let b1 = f1.unwrap().0;
                let b2 = f2.unwrap().0;
                assert(spec_read_byte_strings(data@, p_old, 2 * m) == (
                match spec_read_byte_strings(data@, q1 as int, 2 * m - 1) {
                    Option::None => None::<(Seq<Seq<u8>>, int)>,
                    Option::Some((rest, end)) => Some((seq![b1] + rest, end)),
                }));
                assert(spec_read_byte_strings(data@, q1 as int, 2 * m - 1) == (
                match spec_read_byte_strings(data@, q2 as int, 2 * m - 2) {
                    Option::None => None::<(Seq<Seq<u8>>, int)>,
                    Option::Some((rest, end)) => Some((seq![b2] + rest, end)),
                }));
                let ghost done_old = done_bs;
                done_bs = done_old.push(b1).push(b2);
                assert(done_bs[2 * (k as int - 1)] == b1);
                assert(done_bs[2 * (k as int - 1) + 1] == b2);
                assert forall|i: int|
                    0 <= i < k implies ({
                    let pr = #[trigger] overrides@[i];
                    &&& (valid_utf8(done_bs[2 * i]) ==> pr.0@ == decode_utf8(done_bs[2 * i]))
                    &&& (valid_utf8(done_bs[2 * i + 1]) ==> pr.1@ == decode_utf8(
                        done_bs[2 * i + 1],
                    ))
                }) by {
                    if i < k as int - 1 {
                        assert(done_bs[2 * i] == done_old[2 * i]);
                        assert(done_bs[2 * i + 1] == done_old[2 * i + 1]);
                    }
                }
                assert(2 * (n_int - k) == 2 * m - 2);
                match spec_read_byte_strings(data@, p as int, 2 * (n_int - k)) {
                    Option::Some((rest, e)) => {
                        assert(done_bs + rest =~= done_old + (seq![b1] + (seq![b2] + rest)));
                    },
                    Option::None => {},
                }
            }
        }
        proof {
            assert(spec_read_byte_strings(data@, p as int, 0) == Some(
                (Seq::<Seq<u8>>::empty(), p as int),
            ));
            match spec_read_byte_strings(data@, start_ov, 2 * n_int) {
                Option::Some((bs, e)) => {
                    assert(done_bs + Seq::<Seq<u8>>::empty() =~= done_bs);
                },
                Option::None => {},
            }
        }
        let cs = ClientSettings {
            keep_failed: v0 != 0,
            keep_going: v1 != 0,
            try_fallback: v2 != 0,
            verbosity: Verbosity::from_u32(#[verifier::truncate] (v3 as u32)),
            max_build_jobs: #[verifier::truncate] (v4 as u32),
            max_silent_time: #[verifier::truncate] (v5 as u32),
            build_cores: #[verifier::truncate] (v10 as u32),
            use_substitutes: v11 != 0,
            overrides,
        };
        Ok((cs, p))
    }
}

} // verus!
