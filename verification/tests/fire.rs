use alarms::fire::{parse_fire_args, resolve_kind_path};

fn strings(args: Vec<&str>) -> Vec<String> {
    args.into_iter().map(String::from).collect()
}

#[test]
fn parse_fire_args_reads_title_and_kind() {
    let args = strings(vec!["--title", "Wake up", "--kind", "important"]);

    let parsed = parse_fire_args(args).unwrap();

    assert_eq!(parsed.title, "Wake up");
    assert_eq!(parsed.kind, "important");
}

#[test]
fn parse_fire_args_rejects_missing_title_value() {
    let args = strings(vec!["--title"]);
    let err = parse_fire_args(args).unwrap_err();
    assert!(err.contains("--title requires a value"));
}

#[test]
fn parse_fire_args_rejects_missing_kind() {
    let args = strings(vec!["--title", "Wake up"]);

    let err = parse_fire_args(args).unwrap_err();
    assert!(err.contains("missing --kind"));
}

#[test]
fn parse_fire_args_rejects_unknown_flag() {
    let args = strings(vec!["--wat", "x"]);
    let err = parse_fire_args(args).unwrap_err();
    assert!(err.contains("unknown fire arg"));
}

#[test]
fn resolve_kind_path_rejects_path_traversal_like_inputs() {
    let home = || Some("/tmp/test-home".to_string());
    assert!(resolve_kind_path("../secret", home()).is_err());
    assert!(resolve_kind_path("a/b", home()).is_err());
    assert!(resolve_kind_path(r"a\b", home()).is_err());
    assert!(resolve_kind_path(".", home()).is_err());
    assert!(resolve_kind_path("..", home()).is_err());
}

#[test]
fn resolve_kind_path_builds_expected_location() {
    let path = resolve_kind_path("important", Some("/tmp/test-home".to_string())).unwrap();

    assert_eq!(
        std::path::PathBuf::from(path),
        std::path::Path::new("/tmp/test-home")
            .join(".config")
            .join("alarms")
            .join("kinds")
            .join("important.json")
    );
}
