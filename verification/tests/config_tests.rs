use std::path::Path;
use zonalrust::Config;

fn args(items: &[&str]) -> Vec<String> {
    items.iter().map(|s| String::from(*s)).collect()
}

#[test]
fn parses_positional_ok() {
    let args = vec!["prog", "zarr_dir", "vec.wkt"]
        .into_iter()
        .map(String::from)
        .collect();

    let cfg = Config::build(args).unwrap();
    assert_eq!(Path::new(cfg.zarr_path()), Path::new("zarr_dir"));
    assert_eq!(Path::new(cfg.vector_path()), Path::new("vec.wkt"));
    assert!(!cfg.verbose());
}

#[test]
fn parses_flag_ok() {
    let args = vec!["prog", "zarr_dir", "vec.wkt", "--verbose"]
        .into_iter()
        .map(String::from)
        .collect();
    let cfg = Config::build(args).unwrap();
    assert_eq!(Path::new(cfg.zarr_path()), Path::new("zarr_dir"));
    assert_eq!(Path::new(cfg.vector_path()), Path::new("vec.wkt"));
    assert!(cfg.verbose());
}

#[test]
fn help_triggers_usage_err() {
    let args = vec!["prog", "--help"]
        .into_iter()
        .map(String::from)
        .collect();
    let err = Config::build(args).unwrap_err();
    assert!(err.contains("Usage:"));
}

const USAGE_PROG: &str = "Usage:
    prog [OPTIONS] <ZARR_PATH> <VECTOR_PATH>
    prog [OPTIONS] --zarr <PATH> --vector <PATH>

    Options:
    --zarr <PATH>      Path to Zarr store directory
    --vector <PATH>    Path to vector feature (we'll define format soon)
    -v, --verbose      Extra logging to stderr
    -h, --help         Show this help
    ";

#[test]
fn help_is_exactly_the_usage_text() {
    assert_eq!(Config::build(args(&["prog", "-h"])).unwrap_err(), USAGE_PROG);
    assert_eq!(Config::build(args(&["prog", "--help", "extra", "more", "args"])).unwrap_err(), USAGE_PROG);
}

#[test]
fn flag_form_matches_positional_form() {
    let a = Config::build(args(&["prog", "--zarr", "z", "--vector", "v"])).unwrap();
    let b = Config::build(args(&["prog", "z", "v"])).unwrap();
    assert_eq!(a.zarr_path(), b.zarr_path());
    assert_eq!(a.vector_path(), b.vector_path());
    assert_eq!(a.verbose(), b.verbose());
    assert_eq!(a.zarr_path(), "z");
    assert_eq!(a.vector_path(), "v");
}

#[test]
fn flags_in_any_order() {
    let cfg = Config::build(args(&["prog", "--vector", "v", "-v", "--zarr", "z"])).unwrap();
    assert_eq!(cfg.zarr_path(), "z");
    assert_eq!(cfg.vector_path(), "v");
    assert!(cfg.verbose());
}

#[test]
fn verbose_first_changes_only_verbose() {
    let cfg = Config::build(args(&["prog", "-v", "a", "b"])).unwrap();
    assert_eq!(cfg.zarr_path(), "a");
    assert_eq!(cfg.vector_path(), "b");
    assert!(cfg.verbose());
    let e1 = Config::build(args(&["prog", "-v", "a"])).unwrap_err();
    let e2 = Config::build(args(&["prog", "a"])).unwrap_err();
    assert_eq!(e1, e2);
}

#[test]
fn missing_paths_are_reported() {
    let e = Config::build(args(&["prog"])).unwrap_err();
    assert_eq!(e, format!("Missing Zarr path\n{}", USAGE_PROG));
    let e = Config::build(args(&["prog", "z"])).unwrap_err();
    assert_eq!(e, format!("Missing vector path \n{}", USAGE_PROG));
}

#[test]
fn flag_without_value_is_reported() {
    let e = Config::build(args(&["prog", "a", "--zarr"])).unwrap_err();
    assert_eq!(e, format!("Expected a value after --zarr\n{}", USAGE_PROG));
    let e = Config::build(args(&["prog", "a", "--vector"])).unwrap_err();
    assert_eq!(e, format!("Expected a value after --vector\n{}", USAGE_PROG));
}

#[test]
fn extra_argument_is_reported() {
    let e = Config::build(args(&["prog", "a", "b", "c"])).unwrap_err();
    assert_eq!(e, format!("Unexpected extra argument: c\n{}", USAGE_PROG));
    assert!(e.ends_with(USAGE_PROG));
}

#[test]
fn flag_value_may_look_like_a_flag() {
    let cfg = Config::build(args(&["prog", "--zarr", "--verbose", "v"])).unwrap();
    assert_eq!(cfg.zarr_path(), "--verbose");
    assert_eq!(cfg.vector_path(), "v");
    assert!(!cfg.verbose());
}

#[test]
fn empty_command_line_uses_default_program_name() {
    let e = Config::build(Vec::new()).unwrap_err();
    assert!(e.starts_with("Missing Zarr path\nUsage:\n    zonalrust [OPTIONS]"));
}

#[test]
fn later_path_flag_overrides_earlier() {
    let cfg = Config::build(args(&["prog", "a", "b", "--zarr", "c"])).unwrap();
    assert_eq!(cfg.zarr_path(), "c");
    assert_eq!(cfg.vector_path(), "b");
}

#[test]
fn help_anywhere_after_a_clean_prefix() {
    assert_eq!(Config::build(args(&["prog", "a", "-v", "--help", "x", "y", "z"])).unwrap_err(), USAGE_PROG);
    assert_eq!(Config::build(args(&["prog", "--zarr", "a", "b", "-h", "--zarr"])).unwrap_err(), USAGE_PROG);
    // The help word read as a flag's value is a path, not a request for help.
    let cfg = Config::build(args(&["prog", "--vector", "-h", "z"])).unwrap();
    assert_eq!(cfg.vector_path(), "-h");
    assert_eq!(cfg.zarr_path(), "z");
}

#[test]
fn which_arguments_become_the_paths() {
    // A --zarr flag before any positional: the first positional is the vector path.
    let cfg = Config::build(args(&["prog", "--zarr", "z", "p"])).unwrap();
    assert_eq!((cfg.zarr_path(), cfg.vector_path()), ("z", "p"));
    // A positional first: it is the raster path, the second positional the vector path.
    let cfg = Config::build(args(&["prog", "p", "--zarr", "z", "q"])).unwrap();
    assert_eq!((cfg.zarr_path(), cfg.vector_path()), ("z", "q"));
    // The last value given to a flag wins.
    let cfg = Config::build(args(&["prog", "--vector", "v1", "a", "--vector", "v2"])).unwrap();
    assert_eq!((cfg.zarr_path(), cfg.vector_path()), ("a", "v2"));
    // A verbose word read as a value does not switch verbose on.
    let cfg = Config::build(args(&["prog", "--zarr", "-v", "x"])).unwrap();
    assert_eq!((cfg.zarr_path(), cfg.vector_path(), cfg.verbose()), ("-v", "x", false));
}

#[test]
fn usage_text_shape() {
    let e = Config::build(args(&["myprog", "-h"])).unwrap_err();
    assert!(e.starts_with("Usage:\n    myprog [OPTIONS] <ZARR_PATH> <VECTOR_PATH>\n    myprog [OPTIONS] --zarr <PATH> --vector <PATH>\n"));
    assert!(e.contains("-v, --verbose") && e.contains("-h, --help"));
}
