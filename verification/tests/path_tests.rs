use ftp_fighter::paths::validate_and_normalize_path;

fn validation_works(before: &str, after: &str) {
    let result = validate_and_normalize_path(before).unwrap();
    assert_eq!(result, after);
}

fn validation_fails(before: &str) {
    let result = validate_and_normalize_path(before);
    assert!(result.is_err());
}

#[test]
fn test_path_normalization() {
    validation_works("/abc/test/../thing.png", "/abc/thing.png");
    validation_works("/abc/def/../../thing.png", "/thing.png");
    validation_works("/home/dys/test", "/home/dys/test");
    validation_works("/home/dys", "/home/dys");
    validation_works("/home/dys/", "/home/dys/");
    validation_works("/home/dys/..", "/home");
    validation_works("/home/dys/../", "/home/");
    validation_works("π/2", "π/2");
    validation_works(
        "/home/dys/dev/broot/../../../canop/test",
        "/home/canop/test",
    );
    validation_works("/.", "/");
    validation_works("/./", "/");
    // fails
    validation_fails("./test");
    validation_fails("../test");
    validation_fails("/abc/../../thing.png");
    validation_fails("/home/dys/../../../test");
    validation_fails("/..");
    validation_fails("../");
}

use ftp_fighter::paths::{get_parent_and_name, normalize_path};
use ftp_fighter::errors::FtpErrorKind;

#[test]
fn normalization_is_idempotent_on_samples() {
    for p in [
        "/abc/test/../thing.png",
        "/home/dys/",
        "/.",
        "/./",
        "a/b/../c",
        "../x",
        "..",
        ".",
        "",
        "/",
        "π/2",
        "a//b///c",
    ] {
        let once = normalize_path(p);
        let twice = normalize_path(&once);
        assert_eq!(once, twice);
    }
}

#[test]
fn normalization_keeps_unpoppable_parent_segments() {
    assert_eq!(normalize_path("/.."), "/..");
    assert_eq!(normalize_path("../"), "../");
    assert_eq!(normalize_path("../../"), "");
    assert_eq!(normalize_path("./a/.."), ".");
}

#[test]
fn validated_paths_have_no_relative_segments() {
    for p in ["/abc/test/../thing.png", "/home/dys/", "a/b/../c", "/x/y/z"] {
        let n = validate_and_normalize_path(p).unwrap();
        for seg in n.split('/') {
            assert_ne!(seg, ".");
            assert_ne!(seg, "..");
        }
    }
}

#[test]
fn parent_and_name_split() {
    let (parent, name) = get_parent_and_name("/a/x").unwrap();
    assert_eq!(parent, "/a");
    assert_eq!(name, "x");
    let (parent, name) = get_parent_and_name("/x").unwrap();
    assert_eq!(parent, "/");
    assert_eq!(name, "x");
    let (parent, name) = get_parent_and_name("x").unwrap();
    assert_eq!(parent, "");
    assert_eq!(name, "x");
    let (parent, name) = get_parent_and_name("/a/b/").unwrap();
    assert_eq!(parent, "/a");
    assert_eq!(name, "b");
}

#[test]
fn parent_and_name_rejects_undecomposable_paths() {
    for p in ["", "/", ".", "..", "/a/.."] {
        let err = get_parent_and_name(p).unwrap_err();
        assert_eq!(err.kind, FtpErrorKind::FileNameNotAllowedError);
        assert_eq!(
            err.message,
            "Path for creating a directory must contain a parent and child component"
        );
    }
}
