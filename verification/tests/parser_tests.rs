use ddr_mount::numbers::{convert_to_num, u128_to_dec};
use ddr_mount::parse_map_string;
use ddr_mount::parser::ParseErrorKind;
use ddr_mount::status::{classify, Status};

#[test]
fn header_and_linear_line() {
    let input = "0x00000000  ?  1\n0x00000000  0x00000200  +\n";
    let out = parse_map_string("test.map", input, "/dev/loop##").unwrap();
    assert_eq!(out, "0 1 linear /dev/loop## 0\n");
}

#[test]
fn two_contiguous_lines() {
    let input = "0x00000000  ?  1\n0x00000000  0x00000200  +\n0x00000200 0x00000400 -\n";
    let out = parse_map_string("test.map", input, "/dev/loop##").unwrap();
    assert_eq!(out, "0 1 linear /dev/loop## 0\n1 2 error\n");
}

#[test]
fn parse_is_deterministic() {
    let input = "0x00 ? 1\n0 0x200 +\n0x200 0x200 ?\n0x400 0x600 *\n";
    let a = parse_map_string("m", input, "/dev/loop0").unwrap();
    let b = parse_map_string("m", input, "/dev/loop0").unwrap();
    assert_eq!(a, b);
    let c = parse_map_string("other-name", input, "/dev/loop0").unwrap();
    assert_eq!(a, c);
}

#[test]
fn misaligned_size_is_fatal() {
    let input = "0 ? 1\n0x00000000 0x00000201 +\n";
    let err = parse_map_string("test.map", input, "d").unwrap_err();
    assert_eq!(err.kind, ParseErrorKind::SizeSector);
    let d = err.diag.unwrap();
    assert_eq!(d.token, "0x00000201");
    assert_eq!(d.message, "Size does not match sector size");
    assert_eq!(d.col, 11);
    assert_eq!(d.line_num, 1);
}

#[test]
fn misaligned_position_is_fatal() {
    let input = "0 ? 1\n513 512 +\n";
    let err = parse_map_string("test.map", input, "d").unwrap_err();
    assert_eq!(err.kind, ParseErrorKind::PositionSector);
    let d = err.diag.unwrap();
    assert_eq!(d.token, "513");
    assert_eq!(d.message, "Position does not match sector size");
}

#[test]
fn gap_is_fatal_with_expected_and_observed() {
    let input = "0 ? 1\n0 0x200 +\n0x400 0x200 +\n";
    let err = parse_map_string("test.map", input, "d").unwrap_err();
    assert_eq!(err.kind, ParseErrorKind::Contiguous);
    let d = err.diag.unwrap();
    assert_eq!(d.token, "0x400");
    assert_eq!(
        d.message,
        "Position 1024 does not match size of previous line 512\n\
         Disk map is not contiguous or is overlapping"
    );
}

#[test]
fn overlap_is_fatal() {
    let input = "0 ? 1\n0 0x400 +\n0x200 0x200 +\n";
    let err = parse_map_string("t", input, "d").unwrap_err();
    assert_eq!(err.kind, ParseErrorKind::Contiguous);
}

#[test]
fn first_record_must_start_at_zero() {
    let input = "0 ? 1\n0x200 0x200 +\n";
    let err = parse_map_string("t", input, "d").unwrap_err();
    assert_eq!(err.kind, ParseErrorKind::StartNonzero);
    let d = err.diag.unwrap();
    assert_eq!(d.message, "Disk map does not begin from 0");
}

#[test]
fn empty_map_is_fatal() {
    let err = parse_map_string("t", "", "d").unwrap_err();
    assert_eq!(err.kind, ParseErrorKind::EmptyMap);
    assert!(err.diag.is_none());
    let err = parse_map_string("t", "   \n# only a comment\n\n", "d").unwrap_err();
    assert_eq!(err.kind, ParseErrorKind::EmptyMap);
}

#[test]
fn comment_anywhere_drops_the_line() {
    // a line with '#' in the middle is dropped entirely, so the two data
    // lines stay contiguous
    let input = "0 ? 1\n0 0x200 +\nnot a record # but ignored\n0x200 0x400 -\n";
    let out = parse_map_string("t", input, "d").unwrap();
    assert_eq!(out, "0 1 linear d 0\n1 2 error\n");
}

#[test]
fn unicode_whitespace_lines_are_blank() {
    // a line of non-breaking space trims to nothing and is dropped
    let input = "0 ? 1\n\u{00A0}\u{2003}\n0 0x200 +\n";
    let out = parse_map_string("t", input, "d").unwrap();
    assert_eq!(out, "0 1 linear d 0\n");
}

#[test]
fn octal_numerals_in_records() {
    // 01000 is octal for 512
    let input = "0 ? 1\n0 0x200 +\n01000 0x200 -\n";
    let out = parse_map_string("t", input, "d").unwrap();
    assert_eq!(out, "0 1 linear d 0\n1 1 error\n");
}

#[test]
fn header_errors() {
    let err = parse_map_string("t", "zz ? 1\n", "d").unwrap_err();
    assert_eq!(err.kind, ParseErrorKind::ConvertCurrentPos);
    assert_eq!(
        err.diag.unwrap().message,
        "Could not convert current position to decimal"
    );

    let err = parse_map_string("t", "0x00\n", "d").unwrap_err();
    assert_eq!(err.kind, ParseErrorKind::NoCurrentStatus);

    let err = parse_map_string("t", "0 q\n", "d").unwrap_err();
    assert_eq!(err.kind, ParseErrorKind::UnknownCurrentStatus);

    let err = parse_map_string("t", "0 ??\n", "d").unwrap_err();
    assert_eq!(err.kind, ParseErrorKind::UnknownCurrentStatus);

    let err = parse_map_string("t", "0 ? abc\n", "d").unwrap_err();
    assert_eq!(err.kind, ParseErrorKind::UnknownCurrentPhase);

    let err = parse_map_string("t", "0 ? 256\n", "d").unwrap_err();
    assert_eq!(err.kind, ParseErrorKind::UnknownCurrentPhase);

    // the pass must be a small positive integer, so 0 is rejected
    let err = parse_map_string("t", "0 ? 0\n", "d").unwrap_err();
    assert_eq!(err.kind, ParseErrorKind::UnknownCurrentPhase);

    // all seven status characters are accepted in the header
    for st in ["?", "*", "/", "-", "F", "G", "+"] {
        let input = format!("0 {st} 1\n0 0x200 +\n");
        assert!(parse_map_string("t", &input, "d").is_ok());
    }
}

#[test]
fn body_field_errors() {
    let err = parse_map_string("t", "0 ? 1\n123\n", "d").unwrap_err();
    assert_eq!(err.kind, ParseErrorKind::NoSize);
    assert_eq!(err.diag.unwrap().message, "No size found");

    let err = parse_map_string("t", "0 ? 1\n0 512\n", "d").unwrap_err();
    assert_eq!(err.kind, ParseErrorKind::NoStatus);

    let err = parse_map_string("t", "0 ? 1\n0 512 q\n", "d").unwrap_err();
    assert_eq!(err.kind, ParseErrorKind::UnknownMapStatus);
    assert_eq!(err.diag.unwrap().message, "Unknown status character");

    let err = parse_map_string("t", "0 ? 1\n0 512 ++\n", "d").unwrap_err();
    assert_eq!(err.kind, ParseErrorKind::UnknownMapStatus);

    let err = parse_map_string("t", "0 ? 1\nzz 512 +\n", "d").unwrap_err();
    assert_eq!(err.kind, ParseErrorKind::ConvertPos);
    assert_eq!(
        err.diag.unwrap().message,
        "Could not convert position to decimal"
    );

    let err = parse_map_string("t", "0 ? 1\n0 zz +\n", "d").unwrap_err();
    assert_eq!(err.kind, ParseErrorKind::ConvertSize);
    assert_eq!(err.diag.unwrap().message, "Could not convert size to decimal");
}

#[test]
fn radix_conventions_are_honored() {
    assert_eq!(convert_to_num("0x10"), Some(16));
    assert_eq!(convert_to_num("010"), Some(8));
    assert_eq!(convert_to_num("10"), Some(10));
    assert_eq!(convert_to_num("0"), Some(0));
    assert_eq!(convert_to_num("0x"), None);
    assert_eq!(convert_to_num(""), None);
    assert_eq!(convert_to_num("0x10g"), None);
    assert_eq!(convert_to_num("+10"), None);
    assert_eq!(convert_to_num("08"), None);
    assert_eq!(convert_to_num("0xAbCdEf"), Some(0xabcdef));
    assert_eq!(
        convert_to_num("340282366920938463463374607431768211455"),
        Some(u128::MAX)
    );
    assert_eq!(convert_to_num("340282366920938463463374607431768211456"), None);
    assert_eq!(
        convert_to_num("0xffffffffffffffffffffffffffffffff"),
        Some(u128::MAX)
    );
    assert_eq!(convert_to_num("0x100000000000000000000000000000000"), None);
}

#[test]
fn decimal_rendering() {
    assert_eq!(u128_to_dec(0), "0");
    assert_eq!(u128_to_dec(7), "7");
    assert_eq!(u128_to_dec(12345), "12345");
    assert_eq!(
        u128_to_dec(u128::MAX),
        "340282366920938463463374607431768211455"
    );
}

#[test]
fn status_classification_totality() {
    assert_eq!(classify('+'), Some(Status::Linear));
    for c in ['?', '*', '/', '-'] {
        assert_eq!(classify(c), Some(Status::Error));
    }
    for c in ['F', 'G', 'x', ' ', '0', 'あ'] {
        assert_eq!(classify(c), None);
    }
}

#[test]
fn rendered_diagnostic_block() {
    let input = "0 ? 1\n0x00000000 0x00000201 +\n";
    let err = parse_map_string("test.map", input, "d").unwrap_err();
    let d = err.diag.unwrap();
    let expected = format!(
        "  --> test.map\n   |\n 1 | 0x00000000 0x00000201 +\n   | {}{}\n",
        " ".repeat(11),
        "^".repeat(10)
    );
    assert_eq!(d.render(), expected);
}

#[test]
fn caret_spans_display_width() {
    // a wide status character is underlined by two carets, not one
    let input = "0 ? 1\n0 512 あ\n";
    let err = parse_map_string("t", input, "d").unwrap_err();
    assert_eq!(err.kind, ParseErrorKind::UnknownMapStatus);
    let d = err.diag.unwrap();
    assert_eq!(d.col, 6);
    let rendered = d.render();
    assert_eq!(rendered, format!("  --> t\n   |\n 1 | 0 512 あ\n   | {}^^\n", " ".repeat(6)));
}

#[test]
fn very_large_positions() {
    // values beyond 64 bits are carried exactly
    let pos = "0x0";
    let size = "0x20000000000000000"; // 2^65
    let input = format!("0 ? 1\n{pos} {size} +\n");
    let out = parse_map_string("t", &input, "d").unwrap();
    assert_eq!(out, format!("0 {} linear d 0\n", (1u128 << 65) / 512));
}
