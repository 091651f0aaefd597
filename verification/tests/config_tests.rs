use nixstore::config::{authorize_peer, Deserializer, NixConfig};
use nixstore::error::CommandError;

#[test]
fn pre_text_strips_comments_and_includes() {
    let text = "# comment\nmax-jobs = 4\n\ninclude other.conf\n!include maybe.conf\ncores = 2\n";
    let out = NixConfig::pre_text(text.to_string()).unwrap();
    assert_eq!(out, "max-jobs = 4\ncores = 2\n");
}

#[test]
fn user_lists_honor_wildcard_and_groups() {
    let mut config = NixConfig::default_config();
    assert!(config.is_allowed_user("anyone", "users"));
    assert!(!config.is_trusted_user("anyone", "users"));
    assert!(config.is_trusted_user("root", "wheel"));

    config.allowed_users = vec!["@wheel".to_string(), "alice".to_string()];
    assert!(config.is_allowed_user("alice", "users"));
    assert!(config.is_allowed_user("bob", "wheel"));
    assert!(!config.is_allowed_user("bob", "users"));
}

#[test]
fn disallowed_peer_is_turned_away_with_code_200() {
    let mut config = NixConfig::default_config();
    config.allowed_users = vec!["alice".to_string()];

    let ok = authorize_peer(&config, "alice", "users").unwrap();
    assert!(!ok);

    let err = authorize_peer(&config, "bob", "users").unwrap_err();
    assert!(matches!(err, CommandError::DisallowedUser { .. }));
    assert_eq!(err.get_code(), 200);
}

#[test]
fn trusted_peer_is_reported_trusted() {
    let mut config = NixConfig::default_config();
    config.trusted_users = vec!["alice".to_string()];
    let trusted = authorize_peer(&config, "alice", "users").unwrap();
    assert!(trusted);
}

#[test]
fn scalar_readers() {
    let mut d = Deserializer::from_str("true rest");
    assert_eq!(d.parse_bool().unwrap(), true);

    let mut d2 = Deserializer::from_str("false rest");
    assert_eq!(d2.parse_bool().unwrap(), false);

    let mut d3 = Deserializer::from_str("1234 rest");
    assert_eq!(d3.parse_unsigned().unwrap(), 1234);
    assert_eq!(d3.parse_string().unwrap(), "");

    let mut d4 = Deserializer::from_str("value\nnext");
    assert_eq!(d4.parse_string().unwrap(), "value");

    let mut d5 = Deserializer::from_str("x");
    assert!(d5.parse_unsigned().is_err());
    assert!(d5.parse_bool().is_err());
    assert!(d5.parse_signed().is_err());
}

#[test]
fn defaults_match_the_documented_values() {
    let config = NixConfig::default_config();
    assert_eq!(config.store, "auto");
    assert_eq!(config.nix_state_dir, "/nix/var/nix");
    assert_eq!(config.max_jobs, "1");
    assert_eq!(config.allowed_users, vec!["*".to_string()]);
    assert_eq!(config.trusted_users, vec!["root".to_string()]);
    assert_eq!(nixstore::config::default_tarball_ttl(), 3600);
    assert_eq!(
        nixstore::config::default_sandbox_build_dir(),
        "/build"
    );
    assert_eq!(
        nixstore::config::default_extra_platforms("x86_64-linux"),
        vec!["i686-linux".to_string()]
    );
    assert!(nixstore::config::default_extra_platforms("aarch64-linux").is_empty());
    let feats = nixstore::config::default_system_features(true);
    assert_eq!(feats.last().unwrap(), "kvm");
}

#[test]
fn from_str_reads_settings_over_defaults() {
    let text = "max-jobs = 4\nallowed-users = alice @wheel\nkeep-going = true\ncores = 8\n";
    let config = NixConfig::from_str(text).unwrap();
    assert_eq!(config.max_jobs, "4");
    assert_eq!(
        config.allowed_users,
        vec!["alice".to_string(), "@wheel".to_string()]
    );
    assert!(config.keep_going);
    assert_eq!(config.cores, 8);
    assert_eq!(config.store, "auto");

    assert!(NixConfig::from_str("keep-going = maybe\n").is_err());
    assert!(NixConfig::from_str("just-a-key\n").is_err());
    let unknown = NixConfig::from_str("no-such-setting = 1\n").unwrap();
    assert_eq!(unknown.store, "auto");
}
