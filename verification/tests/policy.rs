use contain::validate::{
    contains_key, lies_in_scheme, lies_in_some_scheme, select, to_keys, validate_config, Criterion,
};
use contain::{ContainConfig, ContainError};

fn strings(items: &[&str]) -> Vec<String> {
    items.iter().map(|s| s.to_string()).collect()
}

fn host() -> Vec<String> {
    strings(&["file", "null", "rand", "tcp", "thisproc", "udp", "pty"])
}

#[test]
fn defaults_hold_the_documented_lists() {
    let c = ContainConfig::use_defaults();
    assert_eq!(c.root, None);
    assert_eq!(c.pass_schemes, strings(&["rand", "null", "tcp", "udp", "thisproc"]));
    assert_eq!(c.sandbox_schemes, strings(&["file"]));
    assert_eq!(c.files, strings(&["file:/dev/null"]));
    assert_eq!(c.dirs, strings(&["file:/bin"]));
    assert_eq!(c.rofiles, strings(&["file:/etc/passwd", "file:/etc/hostname", "file:/tmp"]));
    assert_eq!(c.rodirs, strings(&["file:/bin"]));
}

#[test]
fn default_is_empty() {
    let c = ContainConfig::default();
    assert_eq!(c.root, None);
    assert!(c.pass_schemes.is_empty());
    assert!(c.sandbox_schemes.is_empty());
    assert!(c.files.is_empty());
    assert!(c.dirs.is_empty());
    assert!(c.rofiles.is_empty());
    assert!(c.rodirs.is_empty());
}

#[test]
fn mutators_append_and_replace() {
    let mut c = ContainConfig::default();
    c.add_dir("file:/home/user");
    c.add_dir("file:/tmp");
    c.add_rodir("file:/usr");
    c.add_chroot("file:/jail");
    c.add_chroot("file:/jail2");
    assert_eq!(c.dirs, strings(&["file:/home/user", "file:/tmp"]));
    assert_eq!(c.rodirs, strings(&["file:/usr"]));
    assert_eq!(c.root, Some("file:/jail2".to_string()));
    assert!(c.files.is_empty());
}

#[test]
fn clone_copies_every_field() {
    let mut c = ContainConfig::use_defaults();
    c.add_chroot("file:/jail");
    let d = c.clone();
    assert_eq!(d.root, c.root);
    assert_eq!(d.pass_schemes, c.pass_schemes);
    assert_eq!(d.sandbox_schemes, c.sandbox_schemes);
    assert_eq!(d.files, c.files);
    assert_eq!(d.dirs, c.dirs);
    assert_eq!(d.rofiles, c.rofiles);
    assert_eq!(d.rodirs, c.rodirs);
}

#[test]
fn validation_sorts_and_removes_duplicates() {
    let mut c = ContainConfig::default();
    c.pass_schemes = strings(&["udp", "rand", "udp", "null", "rand"]);
    c.sandbox_schemes = strings(&["file", "file"]);
    c.files = strings(&["file:/z", "file:/a", "file:/z", "file:/m"]);
    let v = validate_config(c, &host()).unwrap();
    assert_eq!(v.pass_schemes, strings(&["null", "rand", "udp"]));
    assert_eq!(v.sandbox_schemes, strings(&["file"]));
    assert_eq!(v.files, strings(&["file:/a", "file:/m", "file:/z"]));
}

#[test]
fn validation_drops_unregistered_schemes() {
    let mut c = ContainConfig::default();
    c.pass_schemes = strings(&["rand", "nosuch", "null"]);
    c.sandbox_schemes = strings(&["file", "ghost"]);
    c.dirs = strings(&["ghost:/x", "file:/tmp"]);
    let v = validate_config(c, &host()).unwrap();
    assert_eq!(v.pass_schemes, strings(&["null", "rand"]));
    assert_eq!(v.sandbox_schemes, strings(&["file"]));
    assert_eq!(v.dirs, strings(&["file:/tmp"]));
}

#[test]
fn validation_keeps_only_resources_of_sandboxed_schemes() {
    let mut c = ContainConfig::default();
    c.pass_schemes = strings(&["null"]);
    c.sandbox_schemes = strings(&["file"]);
    c.files = strings(&["null:", "file:/dev/null", "filex:/a", "file"]);
    c.dirs = strings(&["tcp:/a", "file:/bin"]);
    c.rofiles = strings(&["file:/etc/passwd", "pty:/5"]);
    c.rodirs = strings(&["file:relative", "other"]);
    let v = validate_config(c, &host()).unwrap();
    assert_eq!(v.files, strings(&["file:/dev/null"]));
    assert_eq!(v.dirs, strings(&["file:/bin"]));
    assert_eq!(v.rofiles, strings(&["file:/etc/passwd"]));
    assert_eq!(v.rodirs, strings(&["file:relative"]));
    for list in [&v.files, &v.dirs, &v.rofiles, &v.rodirs] {
        for entry in list.iter() {
            assert!(v.sandbox_schemes.iter().any(|s| entry.starts_with(&format!("{}:", s))));
        }
    }
}

#[test]
fn validation_accepts_a_root_in_a_sandboxed_scheme() {
    let mut c = ContainConfig::use_defaults();
    c.add_chroot("file:/jail");
    let v = validate_config(c, &host()).unwrap();
    assert_eq!(v.root, Some("file:/jail".to_string()));
}

#[test]
fn validation_refuses_a_root_outside_the_sandbox() {
    let mut c = ContainConfig::use_defaults();
    c.add_chroot("tcp:/jail");
    assert!(matches!(validate_config(c, &host()), Err(ContainError::ConfigError)));
}

#[test]
fn validation_refuses_a_root_whose_scheme_the_host_lacks() {
    let mut c = ContainConfig::default();
    c.sandbox_schemes = strings(&["ghost"]);
    c.add_chroot("ghost:/jail");
    assert!(matches!(validate_config(c, &host()), Err(ContainError::ConfigError)));
}

#[test]
fn validation_refuses_a_root_without_any_sandboxed_scheme() {
    let mut c = ContainConfig::default();
    c.add_chroot("file:/jail");
    assert!(matches!(validate_config(c, &host()), Err(ContainError::ConfigError)));
}

#[test]
fn validation_of_a_record_without_root_never_fails() {
    let c = ContainConfig::default();
    let v = validate_config(c, &Vec::new()).unwrap();
    assert!(v.pass_schemes.is_empty());
    let d = ContainConfig::use_defaults();
    let v = validate_config(d, &Vec::new()).unwrap();
    assert!(v.pass_schemes.is_empty());
    assert!(v.sandbox_schemes.is_empty());
    assert!(v.files.is_empty());
    assert!(v.rodirs.is_empty());
}

#[test]
fn validation_is_idempotent() {
    let mut c = ContainConfig::use_defaults();
    c.pass_schemes.push("nosuch".to_string());
    c.files.push("tcp:/x".to_string());
    c.files.push("file:/dev/null".to_string());
    c.add_chroot("file:/jail");
    let once = validate_config(c, &host()).unwrap();
    let twice = validate_config(once.clone(), &host()).unwrap();
    assert_eq!(twice.root, once.root);
    assert_eq!(twice.pass_schemes, once.pass_schemes);
    assert_eq!(twice.sandbox_schemes, once.sandbox_schemes);
    assert_eq!(twice.files, once.files);
    assert_eq!(twice.dirs, once.dirs);
    assert_eq!(twice.rofiles, once.rofiles);
    assert_eq!(twice.rodirs, once.rodirs);
}

#[test]
fn validated_schemes_are_distinct_and_registered() {
    let mut c = ContainConfig::default();
    c.pass_schemes = strings(&["tcp", "udp", "tcp", "x", "udp", "rand"]);
    c.sandbox_schemes = strings(&["pty", "file", "pty", "y"]);
    let v = validate_config(c, &host()).unwrap();
    for list in [&v.pass_schemes, &v.sandbox_schemes] {
        for (i, s) in list.iter().enumerate() {
            assert!(host().contains(s));
            assert!(!list[i + 1..].contains(s));
        }
    }
    assert_eq!(v.pass_schemes, strings(&["rand", "tcp", "udp"]));
    assert_eq!(v.sandbox_schemes, strings(&["file", "pty"]));
}

#[test]
fn validation_orders_as_strings_compare() {
    let mut c = ContainConfig::default();
    c.sandbox_schemes = strings(&["file"]);
    let entries = [
        "file:/b", "file:/a/b", "file:/a", "file:/B", "file:/\u{e9}t\u{e9}", "file:/z",
        "file:/\u{10348}", "file:/\u{ff5e}", "file:", "file:/a\u{0}",
    ];
    c.files = strings(&entries);
    let v = validate_config(c, &host()).unwrap();
    let mut expected = strings(&entries);
    expected.sort();
    expected.dedup();
    assert_eq!(v.files, expected);
}

#[test]
fn errors_are_made_from_what_caused_them() {
    let io = ContainError::io_error(std::io::Error::other("lost"));
    assert!(matches!(&io, ContainError::IoError(e) if e.to_string() == "lost"));
    let refused = ContainError::syscall_error(syscall::Error::new(13));
    assert!(matches!(refused, ContainError::SyscallError(e) if e.errno == 13));
    let poisoned = ContainError::poison_error(std::sync::PoisonError::new(5));
    assert!(matches!(poisoned, ContainError::PoisonError));
    assert_eq!(format!("{:?}", ContainError::ConfigError), "ConfigError");
    assert_eq!(format!("{:?}", ContainError::ParseError), "ParseError");
    assert_eq!(format!("{:?}", ContainError::ThreadError), "ThreadError");
}

fn chars(s: &str) -> Vec<char> {
    s.chars().collect()
}

#[test]
fn a_resource_lies_in_the_scheme_before_its_colon() {
    assert!(lies_in_scheme(&chars("file:/etc/passwd"), &chars("file")));
    assert!(lies_in_scheme(&chars("file:"), &chars("file")));
    assert!(lies_in_scheme(&chars("file:relative"), &chars("file")));
    assert!(lies_in_scheme(&chars(":x"), &chars("")));
    assert!(!lies_in_scheme(&chars("file"), &chars("file")));
    assert!(!lies_in_scheme(&chars("files:/x"), &chars("file")));
    assert!(!lies_in_scheme(&chars("fil:/x"), &chars("file")));
    assert!(!lies_in_scheme(&chars(""), &chars("")));
    assert!(!lies_in_scheme(&chars("a/file:/x"), &chars("file")));
    let schemes = vec![chars("null"), chars("file")];
    assert!(lies_in_some_scheme(&chars("file:/x"), &schemes));
    assert!(lies_in_some_scheme(&chars("null:"), &schemes));
    assert!(!lies_in_some_scheme(&chars("tcp:/x"), &schemes));
    assert!(!lies_in_some_scheme(&chars("file:/x"), &Vec::new()));
}

#[test]
fn selection_is_the_sorted_set_of_what_meets_the_criterion() {
    let known = to_keys(&strings(&["b", "a", "d"]));
    assert_eq!(known, vec![chars("b"), chars("a"), chars("d")]);
    assert!(contains_key(&known, &chars("a")));
    assert!(!contains_key(&known, &chars("c")));
    assert!(!contains_key(&known, &chars("")));
    let one_of = Criterion::OneOf(&known);
    assert!(one_of.admits(&chars("d")));
    assert!(!one_of.admits(&chars("dd")));
    let (list, keys) = select(strings(&["d", "c", "a", "d", "a", "e"]), &one_of);
    assert_eq!(list, strings(&["a", "d"]));
    assert_eq!(keys, vec![chars("a"), chars("d")]);
    let in_schemes = Criterion::InSchemes(&known);
    assert!(in_schemes.admits(&chars("a:/x")));
    assert!(!in_schemes.admits(&chars("a")));
    let (list, _) = select(strings(&["b:2", "c:/x", "a:", "b:1", "b:2", "d"]), &in_schemes);
    assert_eq!(list, strings(&["a:", "b:1", "b:2"]));
    let (list, keys) = select(Vec::new(), &in_schemes);
    assert!(list.is_empty() && keys.is_empty());
}

#[test]
fn validation_keeps_schemes_apart_that_were_apart() {
    let mut c = ContainConfig::default();
    c.pass_schemes = strings(&["tcp", "null", "rand"]);
    c.sandbox_schemes = strings(&["pty", "file"]);
    let v = validate_config(c, &host()).unwrap();
    for scheme in v.pass_schemes.iter() {
        assert!(!v.sandbox_schemes.contains(scheme));
    }
}
