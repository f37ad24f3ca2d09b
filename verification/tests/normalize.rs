use libmcp::normalize::{
    NumericParseError, PathNormalizeError, checked_u64_to_usize, normalize_local_path,
    parse_human_unsigned_u64,
};
use libmcp::text::fold_ascii_token;

#[test]
fn parses_human_unsigned_integers() {
    assert_eq!(parse_human_unsigned_u64("42"), Ok(42));
    assert_eq!(parse_human_unsigned_u64("42.0"), Ok(42));
    assert_eq!(parse_human_unsigned_u64(" 7 "), Ok(7));
    assert_eq!(parse_human_unsigned_u64("-1"), Err(NumericParseError::Invalid));
    assert_eq!(parse_human_unsigned_u64("7.5"), Err(NumericParseError::Invalid));
    assert_eq!(
        parse_human_unsigned_u64("9007199254740993.0"),
        Ok(9_007_199_254_740_993)
    );
    assert_eq!(
        parse_human_unsigned_u64("18446744073709551616"),
        Err(NumericParseError::OutOfRange)
    );
}

#[test]
fn normalizes_ascii_tokens() {
    assert_eq!(
        fold_ascii_token("textDocument/prepareRename"),
        "textdocumentpreparerename"
    );
    assert_eq!(fold_ascii_token("prepare_rename"), "preparerename");
}

#[test]
fn resolves_relative_paths_against_workspace_root() {
    let root = "/tmp/example-root";
    let resolved = normalize_local_path("src/lib.rs", Some(root));
    assert!(resolved.is_ok());
    assert_eq!(resolved.ok().as_deref(), Some("/tmp/example-root/src/lib.rs"));
    assert!(normalize_local_path(" src/lib.rs", Some(root)).is_err());
}

#[test]
fn numeric_edge_cases_are_rejected_exactly() {
    assert_eq!(parse_human_unsigned_u64("   "), Err(NumericParseError::Empty));
    assert_eq!(parse_human_unsigned_u64("+5"), Ok(5));
    assert_eq!(parse_human_unsigned_u64(".0"), Err(NumericParseError::Invalid));
    assert_eq!(parse_human_unsigned_u64("5."), Err(NumericParseError::Invalid));
    assert_eq!(
        parse_human_unsigned_u64("18446744073709551616.00"),
        Err(NumericParseError::OutOfRange)
    );
    assert_eq!(parse_human_unsigned_u64("18446744073709551615"), Ok(u64::MAX));
    assert_eq!(checked_u64_to_usize(12), Ok(12));
}

#[test]
fn path_normalization_reports_each_rejection() {
    assert_eq!(normalize_local_path("", None), Err(PathNormalizeError::Empty));
    assert_eq!(
        normalize_local_path("src ", None),
        Err(PathNormalizeError::SurroundingWhitespace)
    );
    assert_eq!(
        normalize_local_path("file://remote-host/share/x", None),
        Err(PathNormalizeError::NonLocalFileUri)
    );
    assert_eq!(
        normalize_local_path("file:///tmp/a%20b.rs", Some("/root")),
        Ok("/tmp/a b.rs".to_owned())
    );
    assert_eq!(
        normalize_local_path("/abs/x", Some("/root")),
        Ok("/abs/x".to_owned())
    );
    assert_eq!(normalize_local_path("rel", None), Ok("rel".to_owned()));
    assert_eq!(
        normalize_local_path("rel", Some("/root/")),
        Ok("/root/rel".to_owned())
    );
}
