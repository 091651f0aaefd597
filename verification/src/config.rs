//! The resolved daemon configuration: the settings struct the core
//! consumes, its defaults, the scalar readers of the `key = value` file
//! form, and the peer checks against the allowed and trusted user lists.

use vstd::prelude::*;

use crate::error::{CommandError, ParseError};
use crate::strutil::{
    spec_dec_val, spec_dec_value, spec_is_space, spec_lines, spec_starts_with, spec_trim,
    starts_with, str_eq, trim,
};

verus! {

/// The resolved settings the core reads.
#[derive(Debug, Clone)]
pub struct NixConfig {
    pub store: String,
    pub nix_state_dir: String,
    pub nix_daemon_socket_file: String,
    pub keep_failed: bool,
    pub keep_going: bool,
    pub fallback: bool,
    pub verbose_build: bool,
    pub log_lines: usize,
    pub max_jobs: String,
    pub cores: usize,
    pub read_only: bool,
    pub system: String,
    pub max_silent_time: usize,
    pub timeout: usize,
    pub build_hook: String,
    pub substitute: bool,
    pub build_users_group: String,
    pub build_poll_interval: usize,
    pub sandbox: String,
    pub sandbox_paths: Vec<String>,
    pub sandbox_fallback: bool,
    pub extra_sandbox_paths: Vec<String>,
    pub build_repeat: usize,
    pub sandbox_build_dir: String,
    pub enforce_determinism: bool,
    pub trusted_public_keys: Vec<String>,
    pub tarball_ttl: usize,
    pub require_sigs: bool,
    pub extra_platforms: Vec<String>,
    pub system_features: Vec<String>,
    pub substituters: Vec<String>,
    pub extra_substituters: Vec<String>,
    pub trusted_substituters: Vec<String>,
    pub trusted_users: Vec<String>,
    pub narinfo_cache_negative_ttl: usize,
    pub narinfo_cache_positive_ttl: usize,
    pub allowed_users: Vec<String>,
    pub min_free: usize,
    pub max_free: usize,
    pub min_free_check_interval: usize,
    pub plugin_files: Vec<String>,
    pub experimental_features: Vec<String>,
}

/// The default state directory.
pub fn default_state_dir() -> (r: String)
    ensures
        r@ == "/nix/var/nix"@,
{
    String::from_str("/nix/var/nix")
}

/// The default daemon socket path.
pub fn default_socket_path() -> (r: String)
    ensures
        r@ == "/nix/var/nix/daemon-socket/socket"@,
{
    String::from_str("/nix/var/nix/daemon-socket/socket")
}

/// The default number of build slots.
pub fn default_max_jobs() -> (r: String)
    ensures
        r@ == "1"@,
{
    String::from_str("1")
}

/// The extra platforms a host can serve: 32-bit builds on the common
/// 64-bit system.
pub fn default_extra_platforms(system: &str) -> (r: Vec<String>)
    ensures
        system@ == "x86_64-linux"@ ==> r.deep_view() == seq!["i686-linux"@],
        system@ != "x86_64-linux"@ ==> r@.len() == 0,
{
    let mut v: Vec<String> = Vec::new();
    if str_eq(system, "x86_64-linux") {
        v.push(String::from_str("i686-linux"));
        assert(v.deep_view() =~= seq!["i686-linux"@]);
    }
    v
}

/// The default remote-build helper path.
pub fn default_build_hook() -> (r: String)
    ensures
        r@ == "/run/current-system/sw/bin/nix/build-remote"@,
{
    String::from_str("/run/current-system/sw/bin/nix/build-remote")
}

/// The default trusted public keys.
pub fn default_trusted_pub_keys() -> (r: Vec<String>)
    ensures
        r.deep_view() == seq![
            "cache.nixos.org-1:6NCHdD59X431o0gWypbMrAURkbJ16ZPMQFGspcDShjY="@,
        ],
{
    let mut v: Vec<String> = Vec::new();
    v.push(String::from_str("cache.nixos.org-1:6NCHdD59X431o0gWypbMrAURkbJ16ZPMQFGspcDShjY="));
    assert(v.deep_view() =~= seq![
        "cache.nixos.org-1:6NCHdD59X431o0gWypbMrAURkbJ16ZPMQFGspcDShjY="@,
    ]);
    v
}

/// The default substituters.
pub fn default_substiturers() -> (r: Vec<String>)
    ensures
        r.deep_view() == seq!["https://cache.nixos.org/"@],
{
    let mut v: Vec<String> = Vec::new();
    v.push(String::from_str("https://cache.nixos.org/"));
    assert(v.deep_view() =~= seq!["https://cache.nixos.org/"@]);
    v
}

/// The default hashed mirrors.
pub fn default_hashed_mirrors() -> (r: Vec<String>)
    ensures
        r.deep_view() == seq!["http://tarballs.nixos.org/"@],
{
    let mut v: Vec<String> = Vec::new();
    v.push(String::from_str("http://tarballs.nixos.org/"));
    assert(v.deep_view() =~= seq!["http://tarballs.nixos.org/"@]);
    v
}

/// The default flake registry location.
pub fn default_flake_registries() -> (r: String)
    ensures
        r@ == "https://github.com/NixOS/flake-registry/raw/master/flake-registry.json"@,
{
    String::from_str("https://github.com/NixOS/flake-registry/raw/master/flake-registry.json")
}

/// The default trusted users: only root.
pub fn default_trusted_users() -> (r: Vec<String>)
    ensures
        r.deep_view() == seq!["root"@],
{
    let mut v: Vec<String> = Vec::new();
    v.push(String::from_str("root"));
    assert(v.deep_view() =~= seq!["root"@]);
    v
}

/// The default allowed users: everyone.
pub fn default_allowed_users() -> (r: Vec<String>)
    ensures
        r.deep_view() == seq!["*"@],
{
    let mut v: Vec<String> = Vec::new();
    v.push(String::from_str("*"));
    assert(v.deep_view() =~= seq!["*"@]);
    v
}

/// How long downloaded files stay fresh: an hour.
pub fn default_tarball_ttl() -> (r: usize)
    ensures
        r == 3600,
{
    3600
}

/// The default for settings that are on unless switched off.
pub fn default_true() -> (r: bool)
    ensures
        r,
{
    true
}

/// The default for small counters.
pub fn default_ten() -> (r: usize)
    ensures
        r == 10,
{
    10
}

/// How long a missing narinfo answer is cached: an hour.
pub fn default_narinfo_cache_negative_ttl() -> (r: usize)
    ensures
        r == 3600,
{
    3600
}

/// How long a found narinfo answer is cached: thirty days.
pub fn default_narinfo_cache_positive_ttl() -> (r: usize)
    ensures
        r == 2592000,
{
    2592000
}

/// How often free disk space is checked, in seconds.
pub fn default_min_free_checking_intervall() -> (r: usize)
    ensures
        r == 5,
{
    5
}

/// The size of the sandbox's shared-memory mount.
pub fn default_sandbox_dev_shm_size() -> (r: String)
    ensures
        r@ == "50%"@,
{
    String::from_str("50%")
}

/// The build directory inside the sandbox.
pub fn default_sandbox_build_dir() -> (r: String)
    ensures
        r@ == "/build"@,
{
    String::from_str("/build")
}

/// The features a host offers by default; `kvm` only where the device
/// exists.
pub fn default_system_features(has_kvm: bool) -> (r: Vec<String>)
    ensures
        !has_kvm ==> r.deep_view() == seq![
            "nixos-test"@,
            "benchmark"@,
            "big-parallel"@,
            "recursive-nix"@,
        ],
        has_kvm ==> r.deep_view() == seq![
            "nixos-test"@,
            "benchmark"@,
            "big-parallel"@,
            "recursive-nix"@,
            "kvm"@,
        ],
{
    let mut v: Vec<String> = Vec::new();
    v.push(String::from_str("nixos-test"));
    v.push(String::from_str("benchmark"));
    v.push(String::from_str("big-parallel"));
    v.push(String::from_str("recursive-nix"));
    if has_kvm {
        v.push(String::from_str("kvm"));
        assert(v.deep_view() =~= seq![
            "nixos-test"@,
            "benchmark"@,
            "big-parallel"@,
            "recursive-nix"@,
            "kvm"@,
        ]);
    } else {
        assert(v.deep_view() =~= seq![
            "nixos-test"@,
            "benchmark"@,
            "big-parallel"@,
            "recursive-nix"@,
        ]);
    }
    v
}

/// A line the pre-pass keeps: not a comment, not empty, not an include.
pub open spec fn spec_keep_line(l: Seq<char>) -> bool {
    &&& !spec_starts_with(l, "#"@)
    &&& l.len() > 0
    &&& !spec_starts_with(l, "include"@)
    &&& !spec_starts_with(l, "!include"@)
}

/// The kept lines of the configuration text, each with a newline.
pub open spec fn spec_pre_text(lines: Seq<Seq<char>>, k: int) -> Seq<char>
    decreases k,
{
    if k <= 0 {
        Seq::empty()
    } else {
        spec_pre_text(lines, k - 1) + if spec_keep_line(lines[k - 1]) {
            lines[k - 1] + seq!['\n']
        } else {
            Seq::<char>::empty()
        }
    }
}

impl NixConfig {
    /// The configuration with every setting at its default.
    pub fn default_config() -> (r: NixConfig)
        ensures
            r.store@ == "auto"@,
            r.nix_state_dir@ == "/nix/var/nix"@,
            r.allowed_users.deep_view() == seq!["*"@],
            r.trusted_users.deep_view() == seq!["root"@],
            r.max_jobs@ == "1"@,
            !r.keep_failed,
            !r.keep_going,
            r.substitute,
            r.require_sigs,
            r.file_view() == spec_default_file_view(),
    {
        let c = NixConfig {
            store: String::from_str("auto"),
            nix_state_dir: default_state_dir(),
            nix_daemon_socket_file: default_socket_path(),
            keep_failed: false,
            keep_going: false,
            fallback: false,
            verbose_build: default_true(),
            log_lines: default_ten(),
            max_jobs: default_max_jobs(),
            cores: 1,
            read_only: false,
            system: String::new(),
            max_silent_time: 0,
            timeout: 0,
            build_hook: default_build_hook(),
            substitute: default_true(),
            build_users_group: String::new(),
            build_poll_interval: default_ten(),
            sandbox: String::new(),
            sandbox_paths: Vec::new(),
            sandbox_fallback: default_true(),
            extra_sandbox_paths: Vec::new(),
            build_repeat: 0,
            sandbox_build_dir: default_sandbox_build_dir(),
            enforce_determinism: default_true(),
            trusted_public_keys: default_trusted_pub_keys(),
            tarball_ttl: default_tarball_ttl(),
            require_sigs: default_true(),
            extra_platforms: Vec::new(),
            system_features: default_system_features(false),
            substituters: default_substiturers(),
            extra_substituters: Vec::new(),
            trusted_substituters: Vec::new(),
            trusted_users: default_trusted_users(),
            narinfo_cache_negative_ttl: default_narinfo_cache_negative_ttl(),
            narinfo_cache_positive_ttl: default_narinfo_cache_positive_ttl(),
            allowed_users: default_allowed_users(),
            min_free: 0,
            max_free: 0,
            min_free_check_interval: default_min_free_checking_intervall(),
            plugin_files: Vec::new(),
            experimental_features: Vec::new(),
        };
        proof {
            assert(c.extra_platforms.deep_view() =~= Seq::<Seq<char>>::empty());
            assert(c.file_view() =~~= spec_default_file_view());
        }
        c
    }

    /// Strips comments, blank lines and include directives from the
    /// configuration text, keeping every other line with its newline.
    pub fn pre_text(text: String) -> (r: Result<String, ParseError>)
        ensures
            r matches Ok(s) && s@ == spec_pre_text(
                spec_lines(text@),
                spec_lines(text@).len() as int,
            ),
    {
        let lines = crate::strutil::lines_of(text.as_str());
        let ghost lv = lines.deep_view();
        let mut out = String::new();
        let mut i: usize = 0;
        while i < lines.len()
            invariant
                i <= lines@.len(),
                lines.deep_view() == lv,
                lv.len() == lines@.len(),
                out@ == spec_pre_text(lv, i as int),
            decreases lines@.len() - i,
        {
            assert(lv[i as int] == lines@[i as int]@);
            let l = lines[i].as_str();
            let keep = !starts_with(l, "#") && !l.is_empty() && !starts_with(l, "include")
                && !starts_with(l, "!include");
            if keep {
                out.append(l);
                crate::strutil::push_char(&mut out, '\n');
            }
            assert(out@ =~= spec_pre_text(lv, i + 1));
            i = i + 1;
        }
        Ok(out)
    }

    /// Whether a peer with this user and group may ask for unsafe
    /// operations: a listed name, the wildcard, or a listed `@group`.
    pub fn is_trusted_user(&self, user: &str, group: &str) -> (r: bool)
        ensures
            r == spec_user_listed(self.trusted_users.deep_view(), user@, group@),
    {
        user_listed(&self.trusted_users, user, group)
    }

    /// Whether a peer with this user and group may connect at all.
    pub fn is_allowed_user(&self, user: &str, group: &str) -> (r: bool)
        ensures
            r == spec_user_listed(self.allowed_users.deep_view(), user@, group@),
    {
        user_listed(&self.allowed_users, user, group)
    }
}

/// Whether an entry of a user list matches: the wildcard, the user's
/// name, or `@` followed by the group's name.
pub open spec fn spec_user_entry_matches(entry: Seq<char>, user: Seq<char>, group: Seq<char>) -> bool {
    ||| entry == "*"@
    ||| entry == user
    ||| (spec_starts_with(entry, "@"@) && entry.skip(1) == group)
}

/// Whether any entry of a user list matches.
pub open spec fn spec_user_listed(list: Seq<Seq<char>>, user: Seq<char>, group: Seq<char>) -> bool {
    exists|i: int| 0 <= i < list.len() && spec_user_entry_matches(#[trigger] list[i], user, group)
}

fn user_listed(list: &Vec<String>, user: &str, group: &str) -> (r: bool)
    ensures
        r == spec_user_listed(list.deep_view(), user@, group@),
{
    let mut i: usize = 0;
    while i < list.len()
        invariant
            i <= list@.len(),
            list.deep_view().len() == list@.len(),
            forall|k: int|
                0 <= k < i ==> !spec_user_entry_matches(
                    #[trigger] list.deep_view()[k],
                    user@,
                    group@,
                ),
        decreases list@.len() - i,
    {
        assert(list.deep_view()[i as int] == list@[i as int]@);
        let entry = list[i].as_str();
        if str_eq(entry, "*") || str_eq(entry, user) {
            return true;
        }
        if starts_with(entry, "@") {
            let n = entry.unicode_len();
            proof {
                reveal_strlit("@");
            }
            let rest = entry.substring_char(1, n);
            assert(rest@ =~= list@[i as int]@.skip(1));
            if str_eq(rest, group) {
                return true;
            }
        }
        i = i + 1;
    }
    false
}

/// Decides whether a peer may use the daemon, and with how much trust:
/// a peer in the allowed list connects, and is trusted when it is also
/// in the trusted list; anyone else is turned away.
pub fn authorize_peer(config: &NixConfig, user: &str, group: &str) -> (r: Result<
    bool,
    CommandError,
>)
    ensures
        match r {
            Ok(trusted) => spec_user_listed(config.allowed_users.deep_view(), user@, group@)
                && trusted == spec_user_listed(config.trusted_users.deep_view(), user@, group@),
            Err(e) => !spec_user_listed(config.allowed_users.deep_view(), user@, group@)
                && e matches CommandError::DisallowedUser { .. },
        },
{
    let trusted = config.is_trusted_user(user, group);
    if !config.is_allowed_user(user, group) {
        return Err(CommandError::DisallowedUser { user: user.to_owned() });
    }
    Ok(trusted)
}


/// One `key = value` line applied to the settings. A line without the
/// separator, and a value of the wrong shape for its key, are refused;
/// an unknown key changes nothing.
pub open spec fn spec_apply_setting(c: NixConfigV, line: Seq<char>) -> Option<NixConfigV> {
    let parts = crate::strutil::spec_split2(line, ' ', '=');
    if parts.len() != 2 {
        None
    } else {
        let key = spec_trim(parts[0]);
        let val = spec_trim(parts[1]);
        if key == "store"@ {
            Some(NixConfigV { store: val, ..c })
        } else if key == "nix-state-dir"@ {
            Some(NixConfigV { nix_state_dir: val, ..c })
        } else if key == "nix-daemon-socket-file"@ {
            Some(NixConfigV { nix_daemon_socket_file: val, ..c })
        } else if key == "max-jobs"@ {
            Some(NixConfigV { max_jobs: val, ..c })
        } else if key == "system"@ {
            Some(NixConfigV { system: val, ..c })
        } else if key == "build-users-group"@ {
            Some(NixConfigV { build_users_group: val, ..c })
        } else if key == "sandbox-build-dir"@ {
            Some(NixConfigV { sandbox_build_dir: val, ..c })
        } else if key == "allowed-users"@ {
            Some(NixConfigV { allowed_users: crate::strutil::spec_split(val, ' '), ..c })
        } else if key == "trusted-users"@ {
            Some(NixConfigV { trusted_users: crate::strutil::spec_split(val, ' '), ..c })
        } else if key == "trusted-public-keys"@ {
            Some(NixConfigV { trusted_public_keys: crate::strutil::spec_split(val, ' '), ..c })
        } else if key == "substituters"@ {
            Some(NixConfigV { substituters: crate::strutil::spec_split(val, ' '), ..c })
        } else if key == "system-features"@ {
            Some(NixConfigV { system_features: crate::strutil::spec_split(val, ' '), ..c })
        } else if key == "extra-platforms"@ {
            Some(NixConfigV { extra_platforms: crate::strutil::spec_split(val, ' '), ..c })
        } else if key == "keep-failed"@ {
            match spec_bool_value(val) {
                Option::Some(b) => Some(NixConfigV { keep_failed: b, ..c }),
                Option::None => None,
            }
        } else if key == "keep-going"@ {
            match spec_bool_value(val) {
                Option::Some(b) => Some(NixConfigV { keep_going: b, ..c }),
                Option::None => None,
            }
        } else if key == "require-sigs"@ {
            match spec_bool_value(val) {
                Option::Some(b) => Some(NixConfigV { require_sigs: b, ..c }),
                Option::None => None,
            }
        } else if key == "cores"@ {
            match spec_usize_value(val) {
                Option::Some(v) => Some(NixConfigV { cores: v, ..c }),
                Option::None => None,
            }
        } else if key == "timeout"@ {
            match spec_usize_value(val) {
                Option::Some(v) => Some(NixConfigV { timeout: v, ..c }),
                Option::None => None,
            }
        } else if key == "max-silent-time"@ {
            match spec_usize_value(val) {
                Option::Some(v) => Some(NixConfigV { max_silent_time: v, ..c }),
                Option::None => None,
            }
        } else {
            Some(c)
        }
    }
}

/// The value of a flag setting.
pub open spec fn spec_bool_value(val: Seq<char>) -> Option<bool> {
    if val == "true"@ {
        Some(true)
    } else if val == "false"@ {
        Some(false)
    } else {
        None
    }
}

/// The value of a numeric setting, when it fits the machine word.
pub open spec fn spec_usize_value(val: Seq<char>) -> Option<usize> {
    if val.len() > 0 && crate::strutil::spec_all_digits(val) && crate::strutil::spec_dec_value(
        val,
    ) <= usize::MAX {
        Some(crate::strutil::spec_dec_value(val) as usize)
    } else {
        None
    }
}

/// The settings read so far after the first `k` lines.
pub open spec fn spec_config_fold(c: NixConfigV, lines: Seq<Seq<char>>, k: int) -> Option<
    NixConfigV,
>
    decreases k,
{
    if k <= 0 {
        Some(c)
    } else {
        match spec_config_fold(c, lines, k - 1) {
            Option::None => None,
            Option::Some(c2) => spec_apply_setting(c2, lines[k - 1]),
        }
    }
}

/// The fields of the settings that the file reader can change.
#[verifier::ext_equal]
pub struct NixConfigV {
    pub store: Seq<char>,
    pub nix_state_dir: Seq<char>,
    pub nix_daemon_socket_file: Seq<char>,
    pub max_jobs: Seq<char>,
    pub system: Seq<char>,
    pub build_users_group: Seq<char>,
    pub sandbox_build_dir: Seq<char>,
    pub allowed_users: Seq<Seq<char>>,
    pub trusted_users: Seq<Seq<char>>,
    pub trusted_public_keys: Seq<Seq<char>>,
    pub substituters: Seq<Seq<char>>,
    pub system_features: Seq<Seq<char>>,
    pub extra_platforms: Seq<Seq<char>>,
    pub keep_failed: bool,
    pub keep_going: bool,
    pub require_sigs: bool,
    pub cores: usize,
    pub timeout: usize,
    pub max_silent_time: usize,
}

/// The file-readable fields at their defaults.
pub open spec fn spec_default_file_view() -> NixConfigV {
    NixConfigV {
        store: "auto"@,
        nix_state_dir: "/nix/var/nix"@,
        nix_daemon_socket_file: "/nix/var/nix/daemon-socket/socket"@,
        max_jobs: "1"@,
        system: Seq::empty(),
        build_users_group: Seq::empty(),
        sandbox_build_dir: "/build"@,
        allowed_users: seq!["*"@],
        trusted_users: seq!["root"@],
        trusted_public_keys: seq![
            "cache.nixos.org-1:6NCHdD59X431o0gWypbMrAURkbJ16ZPMQFGspcDShjY="@,
        ],
        substituters: seq!["https://cache.nixos.org/"@],
        system_features: seq!["nixos-test"@, "benchmark"@, "big-parallel"@, "recursive-nix"@],
        extra_platforms: Seq::empty(),
        keep_failed: false,
        keep_going: false,
        require_sigs: true,
        cores: 1,
        timeout: 0,
        max_silent_time: 0,
    }
}

impl NixConfig {
    /// The file-readable fields of these settings.
    pub open spec fn file_view(&self) -> NixConfigV {
        NixConfigV {
            store: self.store@,
            nix_state_dir: self.nix_state_dir@,
            nix_daemon_socket_file: self.nix_daemon_socket_file@,
            max_jobs: self.max_jobs@,
            system: self.system@,
            build_users_group: self.build_users_group@,
            sandbox_build_dir: self.sandbox_build_dir@,
            allowed_users: self.allowed_users.deep_view(),
            trusted_users: self.trusted_users.deep_view(),
            trusted_public_keys: self.trusted_public_keys.deep_view(),
            substituters: self.substituters.deep_view(),
            system_features: self.system_features.deep_view(),
            extra_platforms: self.extra_platforms.deep_view(),
            keep_failed: self.keep_failed,
            keep_going: self.keep_going,
            require_sigs: self.require_sigs,
            cores: self.cores,
            timeout: self.timeout,
            max_silent_time: self.max_silent_time,
        }
    }

    /// Reads settings from cleaned configuration text: one `key = value`
    /// line at a time, over the defaults. Unknown keys are left alone;
    /// malformed lines and ill-shaped values are refused.
    pub fn from_str(text: &str) -> (r: Result<NixConfig, ParseError>)
        ensures
            match r {
                Ok(c) => spec_config_fold(
                    spec_default_file_view(),
                    spec_lines(text@),
                    spec_lines(text@).len() as int,
                ) == Some(c.file_view()),
                Err(_) => spec_config_fold(
                    spec_default_file_view(),
                    spec_lines(text@),
                    spec_lines(text@).len() as int,
                ) is None,
            },
    {
        let mut config = NixConfig::default_config();
        let lines = crate::strutil::lines_of(text);
        let ghost lv = lines.deep_view();
        let ghost c0 = config.file_view();
        let mut i: usize = 0;
        while i < lines.len()
            invariant
                i <= lines@.len(),
                lines.deep_view() == lv,
                lv.len() == lines@.len(),
                spec_config_fold(c0, lv, i as int) == Some(config.file_view()),
                c0 == spec_default_file_view(),
                lv == spec_lines(text@),
            decreases lines@.len() - i,
        {
            assert(lv[i as int] == lines@[i as int]@);
            let ghost pre = config.file_view();
            let parts = crate::strutil::split_str2(lines[i].as_str(), ' ', '=');
            if parts.len() != 2 {
                proof {
                    assert(parts.deep_view().len() == parts@.len());
                    lemma_config_fold_stuck(c0, lv, i as int);
                }
                return Err(ParseError::ExpectedMapEquals);
            }
            assert(parts.deep_view()[0] == parts@[0]@);
            assert(parts.deep_view()[1] == parts@[1]@);
            let key = trim(parts[0].as_str());
            let val = trim(parts[1].as_str());
            if str_eq(key.as_str(), "store") {
                config.store = val;
            } else if str_eq(key.as_str(), "nix-state-dir") {
                config.nix_state_dir = val;
            } else if str_eq(key.as_str(), "nix-daemon-socket-file") {
                config.nix_daemon_socket_file = val;
            } else if str_eq(key.as_str(), "max-jobs") {
                config.max_jobs = val;
            } else if str_eq(key.as_str(), "system") {
                config.system = val;
            } else if str_eq(key.as_str(), "build-users-group") {
                config.build_users_group = val;
            } else if str_eq(key.as_str(), "sandbox-build-dir") {
                config.sandbox_build_dir = val;
            } else if str_eq(key.as_str(), "allowed-users") {
                config.allowed_users = crate::strutil::split_char(val.as_str(), ' ');
            } else if str_eq(key.as_str(), "trusted-users") {
                config.trusted_users = crate::strutil::split_char(val.as_str(), ' ');
            } else if str_eq(key.as_str(), "trusted-public-keys") {
                config.trusted_public_keys = crate::strutil::split_char(val.as_str(), ' ');
            } else if str_eq(key.as_str(), "substituters") {
                config.substituters = crate::strutil::split_char(val.as_str(), ' ');
            } else if str_eq(key.as_str(), "system-features") {
                config.system_features = crate::strutil::split_char(val.as_str(), ' ');
            } else if str_eq(key.as_str(), "extra-platforms") {
                config.extra_platforms = crate::strutil::split_char(val.as_str(), ' ');
            } else if str_eq(key.as_str(), "keep-failed") {
                config.keep_failed = parse_flag(val.as_str(), Ghost(c0), Ghost(lv), Ghost(i))?;
            } else if str_eq(key.as_str(), "keep-going") {
                config.keep_going = parse_flag(val.as_str(), Ghost(c0), Ghost(lv), Ghost(i))?;
            } else if str_eq(key.as_str(), "require-sigs") {
                config.require_sigs = parse_flag(val.as_str(), Ghost(c0), Ghost(lv), Ghost(i))?;
            } else if str_eq(key.as_str(), "cores") {
                config.cores = parse_count(val.as_str(), Ghost(c0), Ghost(lv), Ghost(i))?;
            } else if str_eq(key.as_str(), "timeout") {
                config.timeout = parse_count(val.as_str(), Ghost(c0), Ghost(lv), Ghost(i))?;
            } else if str_eq(key.as_str(), "max-silent-time") {
                config.max_silent_time = parse_count(val.as_str(), Ghost(c0), Ghost(lv), Ghost(i))?;
            }
            proof {
                assert(spec_apply_setting(pre, lv[i as int]) =~~= Some(config.file_view()));
            }
            i = i + 1;
        }
        Ok(config)
    }
}

/// A fold refused at line `i` is refused as a whole.
proof fn lemma_config_fold_stuck(c0: NixConfigV, lines: Seq<Seq<char>>, i: int)
    requires
        0 <= i < lines.len(),
        match spec_config_fold(c0, lines, i) {
            Option::Some(c) => spec_apply_setting(c, lines[i]) is None,
            Option::None => true,
        },
    ensures
        spec_config_fold(c0, lines, lines.len() as int) is None,
    decreases lines.len() - i,
{
    if i < lines.len() - 1 {
        lemma_config_fold_stuck(c0, lines, i + 1);
    }
}

fn parse_flag(
    val: &str,
    Ghost(c0): Ghost<NixConfigV>,
    Ghost(lv): Ghost<Seq<Seq<char>>>,
    Ghost(i): Ghost<usize>,
) -> (r: Result<bool, ParseError>)
    requires
        0 <= i < lv.len(),
        match spec_config_fold(c0, lv, i as int) {
            Option::Some(c) => spec_bool_value(val@) is None ==> spec_apply_setting(
                c,
                lv[i as int],
            ) is None,
            Option::None => true,
        },
    ensures
        match r {
            Ok(b) => spec_bool_value(val@) == Some(b),
            Err(_) => spec_config_fold(c0, lv, lv.len() as int) is None,
        },
{
    if str_eq(val, "true") {
        Ok(true)
    } else if str_eq(val, "false") {
        Ok(false)
    } else {
        proof {
            lemma_config_fold_stuck(c0, lv, i as int);
        }
        Err(ParseError::ExpectedBool)
    }
}

fn parse_count(
    val: &str,
    Ghost(c0): Ghost<NixConfigV>,
    Ghost(lv): Ghost<Seq<Seq<char>>>,
    Ghost(i): Ghost<usize>,
) -> (r: Result<usize, ParseError>)
    requires
        0 <= i < lv.len(),
        match spec_config_fold(c0, lv, i as int) {
            Option::Some(c) => spec_usize_value(val@) is None ==> spec_apply_setting(
                c,
                lv[i as int],
            ) is None,
            Option::None => true,
        },
    ensures
        match r {
            Ok(v) => spec_usize_value(val@) == Some(v),
            Err(_) => spec_config_fold(c0, lv, lv.len() as int) is None,
        },
{
    match crate::strutil::parse_u64(val) {
        Some(v) => {
            if v <= (usize::MAX as u64) {
                Ok(v as usize)
            } else {
                proof {
                    lemma_config_fold_stuck(c0, lv, i as int);
                }
                Err(ParseError::ExpectedInteger)
            }
        },
        None => {
            proof {
                lemma_config_fold_stuck(c0, lv, i as int);
            }
            Err(ParseError::ExpectedInteger)
        },
    }
}

/// A reader of the configuration file's scalar values, consuming its
/// input from the front.
#[derive(Debug)]
pub struct Deserializer {
    pub input: String,
}

impl Deserializer {
    /// A reader over the whole text.
    pub fn from_str(input: &str) -> (r: Deserializer)
        ensures
            r.input@ == input@,
    {
        Deserializer { input: input.to_owned() }
    }

    /// Reads a value up to the next whitespace; input without any
    /// whitespace left is at its end.
    pub fn parse_string(&mut self) -> (r: Result<String, ParseError>)
        ensures
            match r {
                Ok(s) => (exists|j: int|
                    0 <= j < old(self).input@.len() && spec_is_space(
                        #[trigger] old(self).input@[j],
                    )) && {
                    let cut = spec_first_space(old(self).input@, 0);
                    s@ == old(self).input@.take(cut) && final(self).input@ == old(
                        self,
                    ).input@.skip(cut)
                },
                Err(_) => !(exists|j: int|
                    0 <= j < old(self).input@.len() && spec_is_space(
                        #[trigger] old(self).input@[j],
                    )) && final(self).input@ == old(self).input@,
            },
    {
        let n = self.input.as_str().unicode_len();
        let mut i: usize = 0;
        while i < n
            invariant
                i <= n,
                n == self.input@.len(),
                self.input@ == old(self).input@,
                forall|k: int| 0 <= k < i ==> !spec_is_space(#[trigger] self.input@[k]),
                spec_first_space(self.input@, 0) == spec_first_space(self.input@, i as int),
            decreases n - i,
        {
            if is_space_char(self.input.as_str().get_char(i)) {
                let s = self.input.as_str().substring_char(0, i).to_owned();
                let rest = self.input.as_str().substring_char(i, n).to_owned();
                assert(s@ =~= self.input@.take(i as int));
                assert(rest@ =~= self.input@.skip(i as int));
                self.input = rest;
                return Ok(s);
            }
            i = i + 1;
        }
        Err(ParseError::Eof)
    }

    /// Reads `true` or `false` from the front of the input.
    pub fn parse_bool(&mut self) -> (r: Result<bool, ParseError>)
        ensures
            match r {
                Ok(b) => (b ==> spec_starts_with(old(self).input@, "true"@) && final(self).input@
                    == old(self).input@.skip(4)) && (!b ==> spec_starts_with(
                    old(self).input@,
                    "false"@,
                ) && final(self).input@ == old(self).input@.skip(5)),
                Err(_) => !spec_starts_with(old(self).input@, "true"@) && !spec_starts_with(
                    old(self).input@,
                    "false"@,
                ) && final(self).input@ == old(self).input@,
            },
    {
        let n = self.input.as_str().unicode_len();
        if starts_with(self.input.as_str(), "true") {
            proof {
                reveal_strlit("true");
            }
            let rest = self.input.as_str().substring_char(4, n).to_owned();
            assert(rest@ =~= self.input@.skip(4));
            self.input = rest;
            return Ok(true);
        }
        if starts_with(self.input.as_str(), "false") {
            proof {
                reveal_strlit("false");
            }
            let rest = self.input.as_str().substring_char(5, n).to_owned();
            assert(rest@ =~= self.input@.skip(5));
            self.input = rest;
            return Ok(false);
        }
        Err(ParseError::ExpectedBool)
    }

    /// Reads an unsigned number from the front of the input: at least
    /// one digit, stopping before the first non-digit. A value too big
    /// for the machine word is refused.
    pub fn parse_unsigned(&mut self) -> (r: Result<usize, ParseError>)
        ensures
            match r {
                Ok(v) => old(self).input@.len() > 0 && spec_dec_val(old(self).input@[0]).is_some()
                    && ({
                    let cut = spec_first_nondigit(old(self).input@, 0);
                    v == spec_dec_value(old(self).input@.take(cut)) && final(self).input@ == old(
                        self,
                    ).input@.skip(cut)
                }),
                Err(_) => final(self).input@ == old(self).input@,
            },
    {
        let n = self.input.as_str().unicode_len();
        if n == 0 {
            return Err(ParseError::Eof);
        }
        let c0 = self.input.as_str().get_char(0);
        if dec_val_char(c0).is_none() {
            return Err(ParseError::ExpectedInteger);
        }
        let mut i: usize = 0;
        let mut acc: usize = 0;
        while i < n && dec_val_char(self.input.as_str().get_char(i)).is_some()
            invariant
                i <= n,
                n == self.input@.len(),
                self.input@ == old(self).input@,
                crate::strutil::spec_all_digits(self.input@.take(i as int)),
                acc == spec_dec_value(self.input@.take(i as int)),
                spec_first_nondigit(self.input@, 0) == spec_first_nondigit(
                    self.input@,
                    i as int,
                ),
            decreases n - i,
        {
            let c = self.input.as_str().get_char(i);
            let d = match dec_val_char(c) {
                Some(d) => d,
                None => {
                    proof {
                        assert(false);
                    }
                    0
                },
            };
            if acc > (usize::MAX - (d as usize)) / 10 {
                return Err(ParseError::ExpectedInteger);
            }
            proof {
                assert(self.input@.take(i + 1).drop_last() =~= self.input@.take(i as int));
                assert(self.input@.take(i + 1).last() == self.input@[i as int]);
            }
            acc = acc * 10 + (d as usize);
            i = i + 1;
        }
        proof {
            if i < n {
                assert(!spec_dec_val(self.input@[i as int]).is_some());
            }
            assert(spec_first_nondigit(self.input@, 0) == i as int);
        }
        let rest = self.input.as_str().substring_char(i, n).to_owned();
        assert(rest@ =~= self.input@.skip(i as int));
        let ghost pre = self.input@;
        self.input = rest;
        Ok(acc)
    }

    /// Reads a signed number. The configuration holds no signed
    /// settings, so nothing arrives here; the reader reports it rather
    /// than read anything.
    pub fn parse_signed(&mut self) -> (r: Result<i64, ParseError>)
        ensures
            r is Err,
            final(self).input@ == old(self).input@,
    {
        Err(ParseError::Message { msg: String::from_str("signed settings are not used") })
    }
}

/// The first whitespace position at or after `i`, or the length.
pub open spec fn spec_first_space(s: Seq<char>, i: int) -> int
    decreases s.len() - i,
{
    if i < 0 || i >= s.len() {
        s.len() as int
    } else if spec_is_space(s[i]) {
        i
    } else {
        spec_first_space(s, i + 1)
    }
}

/// The first non-digit position at or after `i`, or the length.
pub open spec fn spec_first_nondigit(s: Seq<char>, i: int) -> int
    decreases s.len() - i,
{
    if i < 0 || i >= s.len() {
        s.len() as int
    } else if spec_dec_val(s[i]).is_none() {
        i
    } else {
        spec_first_nondigit(s, i + 1)
    }
}

fn is_space_char(c: char) -> (r: bool)
    ensures
        r == spec_is_space(c),
{
    c == ' ' || c == '\t' || c == '\r' || c == '\n'
}

fn dec_val_char(c: char) -> (d: Option<u8>)
    ensures
        d == spec_dec_val(c),
{
    match c {
        '0' => Some(0),
        '1' => Some(1),
        '2' => Some(2),
        '3' => Some(3),
        '4' => Some(4),
        '5' => Some(5),
        '6' => Some(6),
        '7' => Some(7),
        '8' => Some(8),
        '9' => Some(9),
        _ => None,
    }
}

} // verus!
