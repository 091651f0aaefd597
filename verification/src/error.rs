//! Error types shared across the store, the archive codec, the derivation
//! parser, the build coordinator and the daemon frontend.

use vstd::prelude::*;

verus! {

/// Errors raised by store operations: path parsing, hashing, registration,
/// and the wire protocol's store-facing dispatch.
#[derive(Debug, Clone, PartialEq, Eq)]
pub enum StoreError {
    /// An I/O failure reported by the surrounding runtime.
    Io { msg: String },
    /// A store URI that no backend recognises.
    InvalidStoreUri { uri: String },
    /// A path whose parent is not the store directory, or a malformed basename.
    NotInStore { path: String },
    /// A record that lacks the hash an operation needs.
    MissingHash { path: String },
    /// A malformed `<name>:<key>` or `<name>:<signature>` string.
    InvalidKey { key: String },
    /// A fingerprint was requested of a record without hash or size.
    NoFingerprint { path: String },
    /// A textual hash that could not be decoded.
    HashDecodeError { error: String },
    /// A textual hash with a bad algorithm tag or bad digits.
    HashDecodePartialError { error: String },
    /// A file-ingestion method code outside the known range.
    InvalidFileIngestionMethode { methode: u8 },
    /// A malformed archive byte stream.
    BadArchive { msg: String },
    /// Builds are needed but no build slots are configured.
    NoBuildJobs { jobs: usize },
    /// A store basename whose hash part holds a forbidden character.
    InvalidHashPart { path: String, hash_part: String },
    /// A textual derivation that breaks the derivation grammar.
    InvalidDerivation { msg: String },
    /// An operation this implementation does not offer.
    Unimplemented { msg: String },
}

/// Errors raised by the archive (nar) parser.
#[derive(Debug, Clone, PartialEq, Eq)]
pub enum NarError {
    /// The stream does not open with the archive magic string.
    NotAArchive,
    /// An expected `(` framing string is missing.
    MissingOpenTag,
    /// A node carries more than one `type` field.
    MultipleTypeFieleds,
    /// A `type` value that is not `regular`, `directory` or `symlink`.
    UnknownFileType { file: String },
    /// An `executable` marker with a non-empty value.
    InvalidExecutableMarker,
    /// A read past the end of the stream, or non-zero padding.
    ReadError { msg: String },
    /// A directory entry named `.`, `..`, empty, or holding `/` or NUL.
    InvalidFileName { name: String },
    /// Directory entries that are not in strictly ascending byte order.
    NotSorted,
    /// An `entry` whose `node` arrives before its `name`.
    MissingName,
    /// A symlink node without the `target` marker.
    InvalidSymlinkMarker { marker: String },
    /// A field that is not meaningful for the node's type.
    InvalidState,
}

/// Errors raised by the build coordinator and the build-user allocator.
#[derive(Debug, Clone, PartialEq, Eq)]
pub enum BuildError {
    /// An I/O failure reported by the surrounding runtime.
    Io { msg: String },
    /// Every member of the build-user group is already locked.
    NoFreeUsers,
    /// No build-user group is configured, or the group is empty.
    NoBuildUsers,
    /// A group member that is not a known user.
    UserNotExisting { user: String },
    /// The daemon's own user may not serve as a build user.
    UserInGroup { group: String },
    /// A failed system call.
    SysError { msg: String },
}

/// Errors raised by the daemon frontend, each mapped to a process exit code.
#[derive(Debug, Clone, PartialEq, Eq)]
pub enum CommandError {
    /// An I/O failure; exit code 2.
    Io { msg: String },
    /// A configuration file that would not parse; exit code 3.
    UtilParse { msg: String },
    /// A failure to join a background task; exit code 4.
    Join { msg: String },
    /// A peer that is not in `allowed-users`; exit code 200.
    DisallowedUser { user: String },
    /// A client that opened with the wrong magic number; exit code 2.
    InvalidMagic,
    /// A client older than the protocol allows; exit code 2.
    InvalidVersion,
}

impl CommandError {
    /// The process exit code reported for this error.
    pub fn get_code(&self) -> (code: i32)
        ensures
            code == match self {
                CommandError::Io { .. } => 2int,
                CommandError::UtilParse { .. } => 3int,
                CommandError::Join { .. } => 4int,
                CommandError::DisallowedUser { .. } => 200int,
                CommandError::InvalidMagic => 2int,
                CommandError::InvalidVersion => 2int,
            },
    {
        match self {
            CommandError::Io { .. } => 2,
            CommandError::UtilParse { .. } => 3,
            CommandError::Join { .. } => 4,
            CommandError::DisallowedUser { .. } => 200,
            CommandError::InvalidMagic => 2,
            CommandError::InvalidVersion => 2,
        }
    }
}

/// Errors raised by the configuration parser.
#[derive(Debug, Clone, PartialEq, Eq)]
pub enum ParseError {
    /// A free-form failure message.
    Message { msg: String },
    /// Input left over after the configuration was read.
    TrailingCharacters,
    /// A line that does not end where a setting must end.
    ExpectedMapNewline,
    /// A line without ` = ` between key and value.
    ExpectedMapEquals,
    /// A value that is not `true` or `false` where a flag is expected.
    ExpectedBool,
    /// A value that does not start with a digit where a number is expected.
    ExpectedInteger,
    /// The input ended in the middle of a setting.
    Eof,
}

} // verus!
