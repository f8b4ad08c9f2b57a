use godrick::machine::limb::{parse_hex_u64, EXTENSION};
use godrick::{parse_limb, Error, LimbSpec};
use std::str::FromStr;

#[test]
fn path_without_offset_gets_extension() {
    let spec = parse_limb("libfoo").unwrap();
    assert_eq!(spec.path(), &format!("libfoo.{}", EXTENSION));
    assert_eq!(spec.offset(), None);
}

#[test]
fn path_with_extension_is_kept() {
    let spec = parse_limb("plugins/libbar.dylib@10").unwrap();
    assert_eq!(spec.path(), "plugins/libbar.dylib");
    assert_eq!(spec.offset(), Some(0x10));
}

#[test]
fn hex_offset_with_prefix() {
    let spec = parse_limb("libfoo@0x1000").unwrap();
    assert_eq!(spec.path(), "libfoo.so");
    assert_eq!(spec.offset(), Some(0x1000));
}

#[test]
fn repeated_prefix_is_stripped() {
    let spec = parse_limb("a.so@0x0xff").unwrap();
    assert_eq!(spec.offset(), Some(255));
}

#[test]
fn only_first_at_splits() {
    match parse_limb("a@b@1") {
        Err(Error::Limb(m)) => assert_eq!(m, "Invalid offset in: {s}"),
        _ => panic!("expected an error"),
    }
}

#[test]
fn bad_offsets_fail() {
    for arg in ["x@", "x@0x", "x@zz", "x@-1", "x@+", "x@10000000000000000"] {
        match parse_limb(arg) {
            Err(Error::Limb(m)) => assert_eq!(m, "Invalid offset in: {s}"),
            _ => panic!("expected an error for {arg}"),
        }
    }
}

#[test]
fn plus_sign_and_upper_case() {
    let spec = parse_limb("x.so@+FfF").unwrap();
    assert_eq!(spec.offset(), Some(0xfff));
}

#[test]
fn from_str_and_new() {
    let spec = LimbSpec::from_str("lib@0x2").unwrap();
    assert_eq!(spec.offset(), Some(2));
    let made = LimbSpec::new("p".to_string(), Some(7));
    assert_eq!(made.path(), "p");
    assert_eq!(made.offset(), Some(7));
}

#[test]
fn hex_reader_matches_std() {
    for text in ["0", "ff", "+1A", "ffffffffffffffff", "10000000000000000", "", "+", "g", "-2"] {
        let chars: Vec<char> = text.chars().collect();
        assert_eq!(parse_hex_u64(&chars), u64::from_str_radix(text, 16).ok(), "{text}");
    }
}

#[test]
fn error_text() {
    assert_eq!(Error::Limb("bad".to_string()).to_string(), "Limb error:\n bad");
    assert_eq!(Error::Program("x".to_string()).to_string(), "Program error:\n x");
    let io = Error::Io(std::io::Error::new(std::io::ErrorKind::Other, "disk"));
    assert_eq!(io.to_string(), "IO error:\n disk");
}

#[test]
fn all_readers_agree() {
    for arg in ["lib@0x10", "lib.so", "x@zz"] {
        let a = parse_limb(arg).ok();
        let b = arg.parse::<LimbSpec>().ok();
        let c = LimbSpec::try_from(arg).ok();
        let d = LimbSpec::try_from(arg.to_string()).ok();
        assert_eq!(a, b);
        assert_eq!(a, c);
        assert_eq!(a, d);
    }
}

#[test]
fn specs_compare_paths_by_components() {
    let a = LimbSpec::new("a//b.so".to_string(), Some(1));
    let b = LimbSpec::new("a/b.so".to_string(), Some(1));
    let c = LimbSpec::new("a/b.so".to_string(), None);
    let d = LimbSpec::new("a/c.so".to_string(), Some(1));
    assert!(a == b);
    assert!(b != c);
    assert!(b != d);
    assert!(a == a.clone());
}

#[test]
fn io_report_text() {
    assert_eq!(godrick::error::io_error_report("no such file"), "IO error:\n no such file");
}
