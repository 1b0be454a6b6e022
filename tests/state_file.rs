use vers::command::{commit_args, push_args, split_args, tags_args};
use vers::number::{decimal_string, parse_u32};
use vers::state::{update, Config, Rw, Suffix, UpdateError};
use vers::text::{replace_all, split};
use vers::version::Version;

fn v(major: u32, minor: u32, patch: u32) -> Version {
    Version { major, minor, patch }
}

fn bumped(mut x: Version) -> Version {
    x.incr();
    x
}

#[test]
fn incr_raises_patch_below_nine() {
    assert_eq!(bumped(v(3, 4, 0)), v(3, 4, 1));
    assert_eq!(bumped(v(3, 4, 8)), v(3, 4, 9));
    assert_eq!(bumped(v(0, 0, 5)), v(0, 0, 6));
}

#[test]
fn incr_carries_patch_into_minor() {
    assert_eq!(bumped(v(2, 3, 9)), v(2, 4, 0));
    assert_eq!(bumped(v(2, 8, 9)), v(2, 9, 0));
}

#[test]
fn incr_carries_minor_into_major() {
    assert_eq!(bumped(v(1, 9, 9)), v(2, 0, 0));
    assert_eq!(bumped(v(41, 9, 9)), v(42, 0, 0));
}

#[test]
fn round_trip_reproduces_state() {
    for suffix in [Suffix::Dev, Suffix::Test, Suffix::Rel, Suffix::Alpha, Suffix::Beta] {
        let version = v(12, 7, 305);
        let conf = Config { suffix: suffix.to_string(), version: String::new() };
        let text = Rw(conf).serialize(&version);
        let loaded = Config::parse(&text);
        assert_eq!(loaded.suffix, suffix.to_string());
        assert!(Version::is_version(&loaded.version));
        let reread = Version::parse(&loaded.version);
        assert_eq!(reread, version);
        assert_eq!(Rw(loaded).serialize(&reread), text);
    }
}

#[test]
fn empty_file_gives_default_state() {
    let conf = Config::parse("");
    assert_eq!(conf.suffix, "dev");
    assert_eq!(conf.version, "1.0.0");
    assert!(Version::is_version(&conf.version));
    assert_eq!(Version::parse(&conf.version), v(1, 0, 0));
}

#[test]
fn missing_suffix_gives_default_state() {
    let conf = Config::parse("version = 4.5.6\n");
    assert_eq!(conf.suffix, "dev");
    assert_eq!(conf.version, "1.0.0");
}

#[test]
fn fields_found_among_other_lines() {
    let conf = Config::parse("# state\nversion = 2.3.4\nname = x\nsuffix = rel\n");
    assert_eq!(conf.suffix, "rel");
    assert_eq!(conf.version, "2.3.4");
    assert!(Version::is_version(&conf.version));
    assert_eq!(Version::parse(&conf.version), v(2, 3, 4));
}

#[test]
fn suffix_before_version_is_not_found() {
    let conf = Config::parse("suffix = rel\nversion = 2.3.4\n");
    assert_eq!(conf.suffix, "dev");
    assert_eq!(conf.version, "1.0.0");
}

#[test]
fn first_matching_lines_win() {
    let conf = Config::parse("version = 1.1.1\nversion = 2.2.2\nsuffix = beta\nsuffix = rel");
    assert_eq!(conf.version, "1.1.1");
    assert_eq!(conf.suffix, "beta");
}

#[test]
fn commit_defaults_to_stage_all() {
    assert_eq!(commit_args("fix", split_args("")), vec!["commit", "-m", "fix", "-a"]);
    assert_eq!(
        commit_args("fix", split_args("--amend --no-edit")),
        vec!["commit", "-m", "fix", "--amend", "--no-edit"]
    );
}

#[test]
fn push_defaults_to_origin_main() {
    assert_eq!(push_args(split_args("")), vec!["push", "origin", "main"]);
    assert_eq!(push_args(split_args("up dev")), vec!["push", "up", "dev"]);
    assert_eq!(tags_args(), vec!["push", "--tag"]);
}

#[test]
fn update_rolls_patch_into_minor() {
    assert_eq!(
        update("version = 1.2.9\nsuffix = dev\n"),
        Ok("version = 1.3.0\nsuffix = dev\n".to_string())
    );
}

#[test]
fn update_keeps_suffix() {
    assert_eq!(
        update("version = 0.9.9\nsuffix = alpha\n"),
        Ok("version = 1.0.0\nsuffix = alpha\n".to_string())
    );
}

#[test]
fn update_on_empty_file_starts_from_default() {
    assert_eq!(update(""), Ok("version = 1.0.1\nsuffix = dev\n".to_string()));
}

#[test]
fn update_rejects_malformed_version() {
    assert_eq!(update("version = 1.2\nsuffix = dev\n"), Err(UpdateError::MalformedVersion));
    assert_eq!(update("version = 1.x.3\nsuffix = dev\n"), Err(UpdateError::MalformedVersion));
    assert_eq!(update("version = 1.2.3.4\nsuffix = dev\n"), Err(UpdateError::MalformedVersion));
}

#[test]
fn update_reports_overflow() {
    assert_eq!(
        update("version = 4294967295.9.9\nsuffix = dev\n"),
        Err(UpdateError::Overflow)
    );
    assert!(!v(1, 2, u32::MAX).fits_increment());
}

#[test]
fn numbers_read_and_render() {
    assert_eq!(decimal_string(0), "0");
    assert_eq!(decimal_string(4294967295), "4294967295");
    assert_eq!(parse_u32("+17"), Some(17));
    assert_eq!(parse_u32("007"), Some(7));
    assert_eq!(parse_u32("4294967296"), None);
    assert_eq!(parse_u32(""), None);
    assert_eq!(parse_u32("+"), None);
    assert_eq!(parse_u32("-1"), None);
}

#[test]
fn split_and_replace() {
    assert_eq!(split("a..b", '.'), vec!["a", "", "b"]);
    assert_eq!(split("", '.'), vec![""]);
    assert_eq!(replace_all("x = x = y", "x = ", ""), "y");
    assert_eq!(replace_all("aaa", "aa", "b"), "ba");
}

#[test]
fn suffix_labels_and_lines() {
    assert_eq!(Suffix::default(), Suffix::Dev);
    assert_eq!(Suffix::Beta.to_string(), "beta");
    assert_eq!(v(1, 2, 3).to_line(), "version = 1.2.3");
    let conf = Config { suffix: "test".to_string(), version: "1.2.3".to_string() };
    assert_eq!(conf.suffix_line(), "suffix = test\n");
}

#[test]
fn malformed_versions_are_not_versions() {
    assert!(!Version::is_version("1.2"));
    assert!(!Version::is_version("1.x.3"));
    assert!(!Version::is_version("1.2.3.4"));
    assert!(!Version::is_version(""));
    assert!(Version::is_version("10.0.4294967295"));
    assert_eq!(Version::parse("10.0.4294967295"), v(10, 0, 4294967295));
}
