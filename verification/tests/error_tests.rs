use to_uni::error::{
    usage, DetailedFrom, UniError, UniErrorData, CODE_FSIO_INPUT, CODE_FSIO_OUTPUT,
    CODE_INTERNAL_MISC, CODE_USAGE_NO_CONFIG_FILE,
};

#[test]
fn exit_status_is_major_times_ten_plus_minor() {
    let e = UniError::new(
        CODE_FSIO_INPUT,
        UniErrorData::FsIo(b"in.txt".to_vec(), "permission denied".to_string()),
    );
    assert_eq!(e.error_code(), 22);
}

#[test]
fn default_codes_by_category() {
    assert_eq!(
        UniErrorData::Io("x".to_string()).default_code_major_minor(),
        (1, 0)
    );
    assert_eq!(
        UniErrorData::FsIo(b"p".to_vec(), "x".to_string()).default_code_major_minor(),
        (2, 0)
    );
    assert_eq!(
        UniErrorData::Internal("x".to_string()).default_code_major_minor(),
        (9, 0)
    );
    assert_eq!(
        UniErrorData::Usage("x".to_string()).default_code_major_minor(),
        (0, 1)
    );
    assert_eq!(
        UniErrorData::YamlScan(b"p".to_vec(), "x".to_string()).default_code_major_minor(),
        (3, 0)
    );
}

#[test]
fn usage_error_carries_its_message_and_default_codes() {
    let e = usage("no output".to_string());
    assert_eq!(e.error_code(), 1);
    assert!(matches!(e.kind(), UniErrorData::Usage(m) if m == "no output"));
}

#[test]
fn with_minor_replaces_only_the_minor_code() {
    let e = usage("nothing found".to_string()).with_minor(CODE_USAGE_NO_CONFIG_FILE);
    assert_eq!(e.error_code(), 7);
}

#[test]
fn output_io_errors_are_in_the_twenties() {
    let e = UniError::new(
        CODE_FSIO_OUTPUT,
        UniErrorData::FsIo(b"out.txt".to_vec(), "disk full".to_string()),
    );
    assert_eq!(e.error_code(), 23);
}

#[test]
fn detailed_from_io_cause_makes_a_path_tagged_error() {
    let e = UniError::detailed_from(
        "permission denied".to_string(),
        (b"in.txt".to_vec(), CODE_FSIO_INPUT),
    );
    assert_eq!(e.error_code(), 22);
    assert!(matches!(e.kind(), UniErrorData::FsIo(p, _) if p == b"in.txt"));
}

#[test]
fn detailed_from_message_makes_an_internal_error() {
    let e = UniError::detailed_from("missing component".to_string(), CODE_INTERNAL_MISC);
    assert_eq!(e.error_code(), 98);
    assert!(matches!(e.kind(), UniErrorData::Internal(_)));
}

#[test]
fn detailed_from_scan_cause_makes_a_configuration_scan_error() {
    let e = UniError::detailed_from("bad indent".to_string(), b"to-uni.yml".to_vec());
    assert_eq!(e.error_code(), 30);
    assert!(matches!(e.kind(), UniErrorData::YamlScan(p, _) if p == b"to-uni.yml"));
}

#[test]
fn a_general_io_error_maps_to_code_ten() {
    let e = UniError::new(0, UniErrorData::Io("broken pipe".to_string()));
    assert_eq!(e.error_code(), 10);
}
