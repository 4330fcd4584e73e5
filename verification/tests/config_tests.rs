use dockerops::config::{Config, ImagePullPolicy};
use dockerops::fingerprint::md5_hex;
use dockerops::repository::{normalize_clone_url, parse_github_url};
use dockerops::errors::EngineError;
use dockerops::strings::{split_str_at_char, starts_with, str_eq};

#[test]
fn pull_policy_parses_case_insensitively() {
    assert_eq!(ImagePullPolicy::from_str("always"), Ok(ImagePullPolicy::Always));
    assert_eq!(ImagePullPolicy::from_str("Always"), Ok(ImagePullPolicy::Always));
    assert_eq!(ImagePullPolicy::from_str("ALWAYS"), Ok(ImagePullPolicy::Always));
    assert_eq!(ImagePullPolicy::from_str("ifnotpresent"), Ok(ImagePullPolicy::IfNotPresent));
    assert_eq!(ImagePullPolicy::from_str("IfNotPresent"), Ok(ImagePullPolicy::IfNotPresent));
    assert_eq!(ImagePullPolicy::from_str("if_not_present"), Ok(ImagePullPolicy::IfNotPresent));
    assert_eq!(ImagePullPolicy::from_str("sometimes"), Err("sometimes".to_string()));
}

#[test]
fn pull_policy_decides_when_a_pull_is_required() {
    assert!(ImagePullPolicy::Always.requires_pull(true));
    assert!(ImagePullPolicy::Always.requires_pull(false));
    assert!(!ImagePullPolicy::IfNotPresent.requires_pull(true));
    assert!(ImagePullPolicy::IfNotPresent.requires_pull(false));
}

#[test]
fn config_defaults_to_if_not_present() {
    assert_eq!(Config::new().image_pull_policy, ImagePullPolicy::IfNotPresent);
    assert_eq!(Config::default().image_pull_policy, ImagePullPolicy::IfNotPresent);
    assert_eq!(ImagePullPolicy::default(), ImagePullPolicy::IfNotPresent);
}

#[test]
fn github_urls_split_into_owner_and_repository() {
    assert_eq!(
        parse_github_url("https://github.com/acme/stacks"),
        Ok(("acme".to_string(), "stacks".to_string()))
    );
    assert_eq!(
        parse_github_url("http://github.com/acme/stacks.git"),
        Ok(("acme".to_string(), "stacks".to_string()))
    );
    assert_eq!(
        parse_github_url("github.com/acme/stacks/extra"),
        Ok(("acme".to_string(), "stacks".to_string()))
    );
    assert_eq!(parse_github_url("just-one-part"), Err("just-one-part".to_string()));
}

#[test]
fn clone_urls_gain_a_scheme_only_when_bare() {
    assert_eq!(
        normalize_clone_url("https://github.com/acme/stacks"),
        "https://github.com/acme/stacks"
    );
    assert_eq!(
        normalize_clone_url("github.com/acme/stacks"),
        "https://github.com/acme/stacks"
    );
    assert_eq!(normalize_clone_url("git@example.com:x/y"), "git@example.com:x/y");
}

#[test]
fn fingerprint_is_the_known_hex_digest() {
    // the reference digest of "abc" from the MD5 specification
    assert_eq!(md5_hex("abc"), "900150983cd24fb0d6963f7d28e17f72");
    assert_eq!(md5_hex("").len(), 32);
    assert_ne!(md5_hex("a"), md5_hex("b"));
}

#[test]
fn string_utilities_behave_like_their_specifications() {
    assert!(str_eq("abc", "abc"));
    assert!(!str_eq("abc", "abd"));
    assert!(!str_eq("abc", "ab"));
    assert!(starts_with("abcdef", "abc"));
    assert!(!starts_with("ab", "abc"));
    let parts = split_str_at_char("a:b:c", ':');
    assert_eq!(parts, vec!["a", "b", "c"]);
    assert_eq!(split_str_at_char("no-colon", ':'), vec!["no-colon"]);
    assert_eq!(split_str_at_char("x:", ':'), vec!["x", ""]);
    assert_eq!(split_str_at_char("", ':'), vec![""]);
}

#[test]
fn error_descriptions_name_the_resource() {
    assert_eq!(EngineError::Parse.describe(), "manifest failed to parse");
    assert_eq!(
        EngineError::StacksManifestMissing.describe(),
        "stacks.yaml not found in repository"
    );
    assert_eq!(EngineError::NfsConfigMissing.describe(), "nfs.yaml not found in repository");
}
