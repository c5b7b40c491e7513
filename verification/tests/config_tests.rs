use to_uni::config::{
    backup_path_for, parse_config, parse_pattern_entry, select_first_doc, Args, ConfigValue, Input,
    Output, PathKind,
};
use to_uni::paths::{path_file_name, path_join, path_parent, tmp_file_name, with_file_name};

fn s(text: &str) -> ConfigValue {
    ConfigValue::Str(text.as_bytes().to_vec())
}

fn valid_doc() -> ConfigValue {
    ConfigValue::Mapping(vec![(
        s("patterns"),
        ConfigValue::Mapping(vec![(s("alpha"), s("α")), (s("beta"), s("β"))]),
    )])
}

fn args(input: Option<&str>, output: Option<&str>, stdout: bool, no_backup: bool) -> Args {
    Args {
        arg_input: input.map(|p| p.as_bytes().to_vec()),
        arg_output: output.map(|p| p.as_bytes().to_vec()),
        flag_config: None,
        flag_config_name: b"to-uni.yml".to_vec(),
        flag_stdout: stdout,
        flag_no_backup: no_backup,
    }
}

#[test]
fn a_well_formed_document_yields_its_pattern_pairs() {
    let pairs = parse_config(&valid_doc()).expect("document is well formed");
    assert_eq!(pairs.len(), 2);
    assert_eq!(pairs[0].0, b"alpha".to_vec());
    assert_eq!(pairs[0].1, "α".as_bytes().to_vec());
    assert_eq!(pairs[1].0, b"beta".to_vec());
}

#[test]
fn a_non_mapping_top_level_is_a_usage_error() {
    let err = parse_config(&s("just a string")).err().expect("must be rejected");
    assert_eq!(err.error_code(), 8);
}

#[test]
fn a_document_without_the_patterns_key_is_rejected() {
    let doc = ConfigValue::Mapping(vec![(s("other"), s("x"))]);
    let err = parse_config(&doc).err().expect("must be rejected");
    assert_eq!(err.error_code(), 8);
}

#[test]
fn a_scalar_under_the_patterns_key_is_rejected() {
    let doc = ConfigValue::Mapping(vec![(s("patterns"), s("not a mapping"))]);
    let err = parse_config(&doc).err().expect("must be rejected");
    assert_eq!(err.error_code(), 8);
}

#[test]
fn a_non_string_pattern_value_is_rejected() {
    let doc = ConfigValue::Mapping(vec![(
        s("patterns"),
        ConfigValue::Mapping(vec![(s("alpha"), ConfigValue::Other)]),
    )]);
    let err = parse_config(&doc).err().expect("must be rejected");
    assert_eq!(err.error_code(), 8);
}

#[test]
fn pattern_entries_must_be_string_to_string() {
    assert!(parse_pattern_entry(&s("k"), &s("v")).is_ok());
    assert_eq!(
        parse_pattern_entry(&ConfigValue::Other, &s("v")).err().unwrap().error_code(),
        8
    );
    assert_eq!(
        parse_pattern_entry(&s("k"), &ConfigValue::Other).err().unwrap().error_code(),
        8
    );
}

#[test]
fn the_first_document_is_selected_and_an_empty_file_rejected() {
    let err = select_first_doc(Vec::new()).err().expect("no document");
    assert_eq!(err.error_code(), 8);
    let doc = select_first_doc(vec![s("first"), s("second")]).expect("has documents");
    assert!(matches!(doc, ConfigValue::Str(b) if b == b"first"));
}

#[test]
fn path_helpers_split_and_join() {
    assert_eq!(path_file_name(&b"a/b.txt".to_vec()), Some(b"b.txt".to_vec()));
    assert_eq!(path_file_name(&b"b.txt".to_vec()), Some(b"b.txt".to_vec()));
    assert_eq!(path_file_name(&b"a/".to_vec()), None);
    assert_eq!(path_parent(&b"a/b/c.txt".to_vec()), Some(b"a/b".to_vec()));
    assert_eq!(path_parent(&b"/c.txt".to_vec()), Some(b"/".to_vec()));
    assert_eq!(path_parent(&b"c.txt".to_vec()), Some(b"".to_vec()));
    assert_eq!(path_parent(&b"".to_vec()), None);
    assert_eq!(path_join(&b"a/b".to_vec(), &b"c.yml".to_vec()), b"a/b/c.yml".to_vec());
    assert_eq!(path_join(&b"a/".to_vec(), &b"c.yml".to_vec()), b"a/c.yml".to_vec());
    assert_eq!(path_join(&b"".to_vec(), &b"c.yml".to_vec()), b"c.yml".to_vec());
    assert_eq!(
        with_file_name(&b"dir/old.txt".to_vec(), &b"new.txt".to_vec()),
        b"dir/new.txt".to_vec()
    );
    assert_eq!(tmp_file_name(&b"in.txt".to_vec()), b".~in.txt.tmp".to_vec());
}

#[test]
fn input_defaults_to_standard_input() {
    let a = args(None, None, true, false);
    let input = Input::from_args(&a, &PathKind::Missing).expect("stdin needs no path");
    assert!(matches!(input, Input::Stdin));
}

#[test]
fn a_regular_input_file_is_accepted() {
    let a = args(Some("dir/in.txt"), None, true, false);
    let input = Input::from_args(&a, &PathKind::Regular).expect("regular file");
    assert!(matches!(input, Input::File(p) if p == b"dir/in.txt"));
}

#[test]
fn an_unreadable_input_path_is_an_input_io_error_in_the_twenties() {
    let a = args(Some("dir/in.txt"), None, true, false);
    let err = Input::from_args(&a, &PathKind::Unreadable("permission denied".to_string()))
        .err()
        .expect("must fail");
    let code = err.error_code();
    assert_eq!(code, 22);
    assert!(code >= 20 && code < 30 && code != 0);
}

#[test]
fn a_directory_as_input_is_a_usage_error() {
    let a = args(Some("dir"), None, true, false);
    let err = Input::from_args(&a, &PathKind::Directory).err().expect("must fail");
    assert_eq!(err.error_code(), 6);
}

#[test]
fn the_search_directory_comes_from_the_input_file() {
    let input = Input::File(b"a/b/in.txt".to_vec());
    let dir = input.directory(&b"/cwd".to_vec()).expect("has parent");
    assert_eq!(dir, b"a/b".to_vec());
    let stdin = Input::Stdin;
    assert_eq!(stdin.directory(&b"/cwd".to_vec()).unwrap(), b"/cwd".to_vec());
}

#[test]
fn stdout_flag_wins() {
    let a = args(Some("in.txt"), Some("out.txt"), true, false);
    let out = Output::from_args(&a, &PathKind::Regular, &PathKind::Regular, &PathKind::Directory)
        .expect("stdout");
    assert!(matches!(out, Output::Stdout));
}

#[test]
fn an_existing_output_file_is_used_as_is() {
    let a = args(Some("in.txt"), Some("out.txt"), false, false);
    let out = Output::from_args(&a, &PathKind::Regular, &PathKind::Regular, &PathKind::Directory)
        .expect("existing file");
    assert!(matches!(out, Output::OtherFile(p) if p == b"out.txt"));
}

#[test]
fn an_output_directory_borrows_the_input_file_name() {
    let a = args(Some("src/in.txt"), Some("dest/sub"), false, false);
    let out = Output::from_args(&a, &PathKind::Regular, &PathKind::Directory, &PathKind::Directory)
        .expect("derived name");
    // The final component of the directory path is replaced by the input's
    // file name.
    assert!(matches!(out, Output::OtherFile(p) if p == b"dest/in.txt"));
}

#[test]
fn a_missing_output_in_an_existing_directory_is_created() {
    let a = args(Some("in.txt"), Some("dest/new.txt"), false, false);
    let out = Output::from_args(&a, &PathKind::Regular, &PathKind::Missing, &PathKind::Directory)
        .expect("creatable file");
    assert!(matches!(out, Output::OtherFile(p) if p == b"dest/new.txt"));
}

#[test]
fn a_missing_output_without_its_directory_is_an_output_io_error() {
    let a = args(Some("in.txt"), Some("gone/new.txt"), false, false);
    let err = Output::from_args(&a, &PathKind::Regular, &PathKind::Missing, &PathKind::Missing)
        .err()
        .expect("must fail");
    assert_eq!(err.error_code(), 23);
}

#[test]
fn without_any_output_the_conversion_is_in_place() {
    let a = args(Some("dir/in.txt"), None, false, false);
    let out = Output::from_args(&a, &PathKind::Regular, &PathKind::Missing, &PathKind::Missing)
        .expect("in-place");
    match out {
        Output::InPlace(dest, tmp, backup) => {
            assert_eq!(dest, b"dir/in.txt".to_vec());
            assert_eq!(tmp, b"dir/.~in.txt.tmp".to_vec());
            assert!(backup);
        }
        _ => panic!("expected an in-place output"),
    }
}

#[test]
fn the_no_backup_flag_disables_the_backup() {
    let a = args(Some("in.txt"), None, false, true);
    let out = Output::from_args(&a, &PathKind::Regular, &PathKind::Missing, &PathKind::Missing)
        .expect("in-place");
    assert!(matches!(out, Output::InPlace(_, _, false)));
}

#[test]
fn no_input_and_no_output_is_a_usage_error() {
    let a = args(None, None, false, false);
    let err = Output::from_args(&a, &PathKind::Missing, &PathKind::Missing, &PathKind::Missing)
        .err()
        .expect("must fail");
    assert_eq!(err.error_code(), 5);
}

#[test]
fn the_backup_path_adds_a_bak_suffix() {
    assert_eq!(
        backup_path_for(&b"dir/out.txt".to_vec()).unwrap(),
        b"dir/out.txt.bak".to_vec()
    );
    assert_eq!(backup_path_for(&b"dir/".to_vec()).err().unwrap().error_code(), 98);
}
