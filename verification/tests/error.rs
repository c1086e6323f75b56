use seatbelt::allow_paths::AllowAccess;
use seatbelt::error::{ErrorOf, FileContext, ResolveContext, SeatbeltError};
use seatbelt::paths::CanonicalPathBuf;
use seatbelt::text::str_contains;

fn os(value: &str) -> Vec<u8> {
    value.as_bytes().to_vec()
}

fn message(error: SeatbeltError) -> String {
    error.to_string()
}

#[test]
fn error_messages() {
    assert_eq!(message(ErrorOf::NotAFile(FileContext::DefaultConfig, os("/d.yaml"))), "default config file not found: /d.yaml");
    assert_eq!(message(ErrorOf::ResolveFailed(ResolveContext::Home, os("/h"))), "failed to resolve HOME: /h");
    assert_eq!(message(ErrorOf::ResolveFailed(ResolveContext::AllowPath(AllowAccess::Read), os("x"))), "failed to resolve --allow-read path: x");
    assert_eq!(message(ErrorOf::ResolveFailed(ResolveContext::GitRoot, os("/r"))), "failed to resolve Git root: /r");
    assert_eq!(message(ErrorOf::ResolveFailed(ResolveContext::Tmpdir, os("/t"))), "failed to resolve TMPDIR: /t");
    assert_eq!(message(ErrorOf::ResolveFailed(ResolveContext::CurrentDirectory, os("/c"))), "failed to resolve current directory: /c");
    assert_eq!(message(ErrorOf::HomeHasNoParent(os("/"))), "resolved HOME has no parent: /");
    assert_eq!(message(ErrorOf::ConfigNotFoundChecked(os("acme"), vec![os("/a.yaml"), os("/a.yml")])), "config file not found: acme (checked: /a.yaml, /a.yml)");
    assert_eq!(message(ErrorOf::ConfigParseFailed(os("/c.yaml"))), "failed to parse config file: /c.yaml");
    assert_eq!(message(ErrorOf::NoProfiles), "config must contain at least one profile");
    assert_eq!(message(ErrorOf::BroadDirectory(AllowAccess::Write, os("/"))), "--allow-write directory is too broad: /");
    assert_eq!(message(ErrorOf::EnvNotSet("TOKEN".to_owned())), "environment variable is not set: TOKEN");
    assert_eq!(message(ErrorOf::RequiredEnvNotSet("HOME".to_owned())), "required environment variable is not set: HOME");
    assert_eq!(message(ErrorOf::CurrentDirFailed), "failed to read current directory");
    assert_eq!(message(ErrorOf::GitRootNotUtf8), "git root path was not valid UTF-8");
}

#[test]
fn error_paths_are_displayed_lossily() {
    assert_eq!(message(ErrorOf::ConfigNotFound(vec![b'/', 0xff, b'x'])), "config file not found: /\u{fffd}x");
    assert_eq!(CanonicalPathBuf::assume_canonical_for_test(vec![0xe2, 0x82]).display(), "\u{fffd}");
    assert_eq!(CanonicalPathBuf::assume_canonical_for_test("café".as_bytes().to_vec()).display(), "café");
    assert_eq!(CanonicalPathBuf::assume_canonical_for_test(vec![b'/', 0x80]).display(), "/\u{fffd}");
}

#[test]
fn text_contains_finds_runs_of_characters() {
    assert!(str_contains("(allow file-read*", "file-read"));
    assert!(str_contains("abc", ""));
    assert!(!str_contains("ab", "abc"));
    assert!(str_contains("café au lait", "é a"));
}
