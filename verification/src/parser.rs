//! The map-file parser: validates the header line, converts each data line
//! into one mapping-table line, and enforces sector alignment and global
//! contiguity. The whole behaviour is pinned down by a specification-level
//! model (`spec_parse_map`), and the executable parser returns exactly what
//! the model says, for every input.

use vstd::prelude::*;

use crate::diagnostics::Diagnostic;
use crate::error::Token;
use crate::error::spec_convert_error;
use crate::numbers::add_carry;
use crate::numbers::convert_to_num;
use crate::numbers::dec_carry;
use crate::numbers::spec_all_digits;
use crate::numbers::spec_cval;
use crate::numbers::spec_dec;
use crate::numbers::spec_num_val;
use crate::numbers::spec_to_num128;
use crate::numbers::u128_to_dec;
use crate::status::Status;
use crate::status::classify;
use crate::status::header_status_ok;
use crate::status::spec_classify;
use crate::status::spec_header_status_ok;
use crate::text::spec_nth_tok;
use crate::text::spec_survivors;
use crate::text::nth_token;
use crate::text::survivors;
use crate::error::convert_error_string;

verus! {

/// The distinct ways a map file can be rejected.
#[derive(Clone, Copy, PartialEq, Eq, Structural, Debug)]
pub enum ParseErrorKind {
    EmptyMap,
    NoCurrentPosition,
    ConvertCurrentPos,
    NoCurrentStatus,
    UnknownCurrentStatus,
    UnknownCurrentPhase,
    NoPosition,
    NoSize,
    NoStatus,
    UnknownMapStatus,
    ConvertPos,
    ConvertSize,
    PositionSector,
    SizeSector,
    StartNonzero,
    Contiguous,
}

/// The fixed message of each rejection kind; the contiguity message is
/// parameterized and built by `spec_contiguous_message` instead.
pub open spec fn spec_msg(kind: ParseErrorKind) -> Seq<char> {
    match kind {
        ParseErrorKind::EmptyMap => "Map file is empty"@,
        ParseErrorKind::NoCurrentPosition => "Current position in status line is missing"@,
        ParseErrorKind::ConvertCurrentPos => spec_convert_error(Token::CurrentPos),
        ParseErrorKind::NoCurrentStatus => "Current status is missing from the status line"@,
        ParseErrorKind::UnknownCurrentStatus => "Invalid status in status line"@,
        ParseErrorKind::UnknownCurrentPhase => "Invalid phase in status line"@,
        ParseErrorKind::NoPosition => "No position found"@,
        ParseErrorKind::NoSize => "No size found"@,
        ParseErrorKind::NoStatus => "No status found"@,
        ParseErrorKind::UnknownMapStatus => "Unknown status character"@,
        ParseErrorKind::ConvertPos => spec_convert_error(Token::Pos),
        ParseErrorKind::ConvertSize => spec_convert_error(Token::Size),
        ParseErrorKind::PositionSector => "Position does not match sector size"@,
        ParseErrorKind::SizeSector => "Size does not match sector size"@,
        ParseErrorKind::StartNonzero => "Disk map does not begin from 0"@,
        ParseErrorKind::Contiguous => Seq::empty(),
    }
}

/// Message for a record that does not start where the previous one ended.
pub open spec fn spec_contiguous_message(pos: nat, expected: nat) -> Seq<char> {
    "Position "@ + spec_dec(pos) + " does not match size of previous line "@ + spec_dec(expected)
        + "\nDisk map is not contiguous or is overlapping"@
}

/// Model of one pointer diagnostic.
pub struct DiagModel {
    pub filename: Seq<char>,
    pub line_num: int,
    pub line: Seq<char>,
    pub col: int,
    pub token: Seq<char>,
    pub message: Seq<char>,
}

/// Model of one rejection: its kind, and the pointer diagnostic when the
/// rejection concerns a particular line (every kind but an empty map).
pub struct FailModel {
    pub kind: ParseErrorKind,
    pub diag: Option<DiagModel>,
}

/// Model of a whole parse: the mapping-table text, or the first rejection.
pub enum Outcome {
    Accepted(Seq<char>),
    Rejected(FailModel),
}

/// A rejection pointing into a line.
pub open spec fn spec_fail_at(
    kind: ParseErrorKind,
    filename: Seq<char>,
    line_num: int,
    line: Seq<char>,
    col: int,
    token: Seq<char>,
    message: Seq<char>,
) -> FailModel {
    FailModel {
        kind,
        diag: Some(
            DiagModel { filename, line_num, line, col, token, message },
        ),
    }
}

/// Checks the mandatory header line: a convertible current position, a
/// known one-character current status, and, when present, a pass number
/// that is a small positive integer — at least 1, at most one byte.
/// Extra fields are ignored.
pub open spec fn spec_check_header(filename: Seq<char>, line: Seq<char>) -> Option<FailModel> {
    match spec_nth_tok(line, 0) {
        None => Some(
            spec_fail_at(
                ParseErrorKind::NoCurrentPosition,
                filename,
                0,
                line,
                0,
                line,
                spec_msg(ParseErrorKind::NoCurrentPosition),
            ),
        ),
        Some(t0) => {
            let pos_txt = line.subrange(t0.0, t0.1);
            if spec_to_num128(pos_txt) is None {
                Some(
                    spec_fail_at(
                        ParseErrorKind::ConvertCurrentPos,
                        filename,
                        0,
                        line,
                        t0.0,
                        pos_txt,
                        spec_msg(ParseErrorKind::ConvertCurrentPos),
                    ),
                )
            } else {
                match spec_nth_tok(line, 1) {
                    None => Some(
                        spec_fail_at(
                            ParseErrorKind::NoCurrentStatus,
                            filename,
                            0,
                            line,
                            0,
                            line,
                            spec_msg(ParseErrorKind::NoCurrentStatus),
                        ),
                    ),
                    Some(t1) => {
                        let st_txt = line.subrange(t1.0, t1.1);
                        if st_txt.len() != 1 || !spec_header_status_ok(st_txt[0]) {
                            Some(
                                spec_fail_at(
                                    ParseErrorKind::UnknownCurrentStatus,
                                    filename,
                                    0,
                                    line,
                                    t1.0,
                                    st_txt,
                                    spec_msg(ParseErrorKind::UnknownCurrentStatus),
                                ),
                            )
                        } else {
                            match spec_nth_tok(line, 2) {
                                None => None,
                                Some(t2) => {
                                    let pass_txt = line.subrange(t2.0, t2.1);
                                    if spec_pass_ok(pass_txt) {
                                        None
                                    } else {
                                        Some(
                                            spec_fail_at(
                                                ParseErrorKind::UnknownCurrentPhase,
                                                filename,
                                                0,
                                                line,
                                                t2.0,
                                                pass_txt,
                                                spec_msg(ParseErrorKind::UnknownCurrentPhase),
                                            ),
                                        )
                                    }
                                },
                            }
                        }
                    },
                }
            }
        },
    }
}

/// A valid pass number: decimal digits alone, a small positive integer —
/// at least 1 and at most one byte.
pub open spec fn spec_pass_ok(t: Seq<char>) -> bool {
    t.len() > 0 && spec_all_digits(t, 10) && 1 <= spec_num_val(t, 10) <= 255
}

/// The mapping-table line for a recovered range: start sector, length in
/// sectors, the word `linear`, the backing device, and the start sector on
/// that device.
pub open spec fn spec_linear_line(pos_sect: nat, size_sect: nat, device: Seq<char>) -> Seq<char> {
    spec_dec(pos_sect) + " "@ + spec_dec(size_sect) + " linear "@ + device + " "@ + spec_dec(
        pos_sect,
    )
}

/// The mapping-table line for an unrecovered range.
pub open spec fn spec_error_line(pos_sect: nat, size_sect: nat) -> Seq<char> {
    spec_dec(pos_sect) + " "@ + spec_dec(size_sect) + " error"@
}

/// The record a body line denotes when every per-line check passes: its
/// three fields in order, the status a known character, and position and
/// size both converted and sector-aligned. Contiguity is not a per-line
/// matter and is judged by the fold in `spec_check_line`.
pub open spec fn spec_line_parts(line: Seq<char>) -> Option<(u128, u128, Status)> {
    match (spec_nth_tok(line, 0), spec_nth_tok(line, 1), spec_nth_tok(line, 2)) {
        (Some(t0), Some(t1), Some(t2)) => {
            let pos_txt = line.subrange(t0.0, t0.1);
            let size_txt = line.subrange(t1.0, t1.1);
            let st_txt = line.subrange(t2.0, t2.1);
            if st_txt.len() != 1 {
                None
            } else {
                match (spec_to_num128(pos_txt), spec_to_num128(size_txt)) {
                    (Some(pos), Some(size)) => match spec_classify(st_txt[0]) {
                        Some(st) => if pos as nat % 512 == 0 && size as nat % 512 == 0 {
                            Some((pos, size, st))
                        } else {
                            None
                        },
                        None => None,
                    },
                    _ => None,
                }
            }
        },
        _ => None,
    }
}

/// Checks one body line against the running expected position and either
/// rejects it (with the first applicable diagnostic, in the fixed order:
/// missing fields, a many-character status, unconvertible position then
/// size, an unknown status character, misaligned position then size, and
/// last contiguity) or yields its mapping-table line and the next expected
/// position.
pub open spec fn spec_check_line(
    filename: Seq<char>,
    line_num: int,
    line: Seq<char>,
    expected: nat,
    first: bool,
    device: Seq<char>,
) -> Result<(Seq<char>, nat), FailModel> {
    match spec_nth_tok(line, 0) {
        None => Err(
            spec_fail_at(
                ParseErrorKind::NoPosition,
                filename,
                line_num,
                line,
                0,
                line,
                spec_msg(ParseErrorKind::NoPosition),
            ),
        ),
        Some(t0) => match spec_nth_tok(line, 1) {
            None => Err(
                spec_fail_at(
                    ParseErrorKind::NoSize,
                    filename,
                    line_num,
                    line,
                    0,
                    line,
                    spec_msg(ParseErrorKind::NoSize),
                ),
            ),
            Some(t1) => match spec_nth_tok(line, 2) {
                None => Err(
                    spec_fail_at(
                        ParseErrorKind::NoStatus,
                        filename,
                        line_num,
                        line,
                        0,
                        line,
                        spec_msg(ParseErrorKind::NoStatus),
                    ),
                ),
                Some(t2) => {
                    let pos_txt = line.subrange(t0.0, t0.1);
                    let size_txt = line.subrange(t1.0, t1.1);
                    let st_txt = line.subrange(t2.0, t2.1);
                    if st_txt.len() != 1 {
                        Err(
                            spec_fail_at(
                                ParseErrorKind::UnknownMapStatus,
                                filename,
                                line_num,
                                line,
                                t2.0,
                                st_txt,
                                spec_msg(ParseErrorKind::UnknownMapStatus),
                            ),
                        )
                    } else {
                        match spec_to_num128(pos_txt) {
                            None => Err(
                                spec_fail_at(
                                    ParseErrorKind::ConvertPos,
                                    filename,
                                    line_num,
                                    line,
                                    t0.0,
                                    pos_txt,
                                    spec_msg(ParseErrorKind::ConvertPos),
                                ),
                            ),
                            Some(pos) => match spec_to_num128(size_txt) {
                                None => Err(
                                    spec_fail_at(
                                        ParseErrorKind::ConvertSize,
                                        filename,
                                        line_num,
                                        line,
                                        t1.0,
                                        size_txt,
                                        spec_msg(ParseErrorKind::ConvertSize),
                                    ),
                                ),
                                Some(size) => match spec_classify(st_txt[0]) {
                                    None => Err(
                                        spec_fail_at(
                                            ParseErrorKind::UnknownMapStatus,
                                            filename,
                                            line_num,
                                            line,
                                            t2.0,
                                            st_txt,
                                            spec_msg(ParseErrorKind::UnknownMapStatus),
                                        ),
                                    ),
                                    Some(st) => if pos as nat % 512 != 0 {
                                        Err(
                                            spec_fail_at(
                                                ParseErrorKind::PositionSector,
                                                filename,
                                                line_num,
                                                line,
                                                t0.0,
                                                pos_txt,
                                                spec_msg(ParseErrorKind::PositionSector),
                                            ),
                                        )
                                    } else if size as nat % 512 != 0 {
                                        Err(
                                            spec_fail_at(
                                                ParseErrorKind::SizeSector,
                                                filename,
                                                line_num,
                                                line,
                                                t1.0,
                                                size_txt,
                                                spec_msg(ParseErrorKind::SizeSector),
                                            ),
                                        )
                                    } else if pos as nat != expected {
                                        if first {
                                            Err(
                                                spec_fail_at(
                                                    ParseErrorKind::StartNonzero,
                                                    filename,
                                                    line_num,
                                                    line,
                                                    t0.0,
                                                    pos_txt,
                                                    spec_msg(ParseErrorKind::StartNonzero),
                                                ),
                                            )
                                        } else {
                                            Err(
                                                spec_fail_at(
                                                    ParseErrorKind::Contiguous,
                                                    filename,
                                                    line_num,
                                                    line,
                                                    t0.0,
                                                    pos_txt,
                                                    spec_contiguous_message(pos as nat, expected),
                                                ),
                                            )
                                        }
                                    } else {
                                        let table_line = if st is Linear {
                                            spec_linear_line(
                                                pos as nat / 512,
                                                size as nat / 512,
                                                device,
                                            )
                                        } else {
                                            spec_error_line(pos as nat / 512, size as nat / 512)
                                        };
                                        Ok((table_line, pos as nat + size as nat))
                                    },
                                },
                            },
                        }
                    }
                },
            },
        },
    }
}

/// Folds `spec_check_line` over the body lines, accumulating the table.
pub open spec fn spec_parse_body(
    filename: Seq<char>,
    survivors: Seq<Seq<char>>,
    i: int,
    expected: nat,
    first: bool,
    device: Seq<char>,
    acc: Seq<char>,
) -> Outcome
    decreases survivors.len() - i,
{
    if i < 1 || i >= survivors.len() {
        Outcome::Accepted(acc)
    } else {
        match spec_check_line(filename, i, survivors[i], expected, first, device) {
            Err(f) => Outcome::Rejected(f),
            Ok(step) => spec_parse_body(
                filename,
                survivors,
                i + 1,
                step.1,
                false,
                device,
                acc + step.0 + "\n"@,
            ),
        }
    }
}

/// The whole parse: filter the lines, demand a header, check it, then fold
/// over the body lines starting from expected position 0.
pub open spec fn spec_parse_map(
    filename: Seq<char>,
    contents: Seq<char>,
    device: Seq<char>,
) -> Outcome {
    let survs = spec_survivors(contents);
    if survs.len() == 0 {
        Outcome::Rejected(FailModel { kind: ParseErrorKind::EmptyMap, diag: None })
    } else {
        match spec_check_header(filename, survs[0]) {
            Some(f) => Outcome::Rejected(f),
            None => spec_parse_body(filename, survs, 1, 0, true, device, Seq::empty()),
        }
    }
}

/// One rejected parse, as handed to callers: the kind, and the pointer
/// diagnostic for every kind but an empty map. The exit status of every
/// rejection is `ExitCode::ParseError`.
#[derive(Debug)]
pub struct ParseFail {
    pub kind: ParseErrorKind,
    pub diag: Option<Diagnostic>,
}

/// The model a `Diagnostic` value denotes.
pub open spec fn abs_diag(d: Diagnostic) -> DiagModel {
    DiagModel {
        filename: d.filename@,
        line_num: d.line_num as int,
        line: d.line@,
        col: d.col as int,
        token: d.token@,
        message: d.message@,
    }
}

/// The model a `ParseFail` value denotes.
pub open spec fn abs_fail(f: ParseFail) -> FailModel {
    FailModel {
        kind: f.kind,
        diag: match f.diag {
            Some(d) => Some(abs_diag(d)),
            None => None,
        },
    }
}

fn fail_at(
    kind: ParseErrorKind,
    filename: &str,
    line_num: usize,
    line: &str,
    col: usize,
    token: &str,
    message: String,
) -> (r: ParseFail)
    ensures
        abs_fail(r) == spec_fail_at(
            kind,
            filename@,
            line_num as int,
            line@,
            col as int,
            token@,
            message@,
        ),
{
    ParseFail {
        kind,
        diag: Some(
            Diagnostic {
                filename: filename.to_owned(),
                line_num,
                line: line.to_owned(),
                col,
                token: token.to_owned(),
                message,
            },
        ),
    }
}

/// Whether a header pass field is a valid small positive decimal value.
fn pass_ok(t: &str) -> (r: bool)
    ensures
        r == spec_pass_ok(t@),
{
    let n = t.unicode_len();
    if n == 0 {
        return false;
    }
    // the running value, capped just above one byte
    let mut acc: u32 = 0;
    let mut i: usize = 0;
    while i < n
        invariant
            i <= n,
            n == t@.len(),
            spec_all_digits(t@.subrange(0, i as int), 10),
            (spec_num_val(t@.subrange(0, i as int), 10) <= 255 && acc == spec_num_val(
                t@.subrange(0, i as int),
                10,
            )) || (spec_num_val(t@.subrange(0, i as int), 10) > 255 && acc == 256),
        decreases n - i,
    {
        let c = t.get_char(i);
        let d = crate::numbers::digit_val(c);
        if d >= 10 {
            proof {
                assert(t@.subrange(0, n as int) =~= t@);
                assert(!crate::numbers::spec_is_digit(t@[i as int], 10));
                assert(!spec_all_digits(t@, 10));
            }
            return false;
        }
        proof {
            let pre = t@.subrange(0, i as int);
            let ext = t@.subrange(0, i as int + 1);
            assert(ext.drop_last() =~= pre);
            assert(ext.last() == t@[i as int]);
            assert(spec_num_val(ext, 10) == spec_num_val(pre, 10) * 10
                + crate::numbers::spec_digit_val(t@[i as int]));
        }
        acc = acc * 10 + d;
        if acc > 255 {
            acc = 256;
        }
        i = i + 1;
    }
    proof {
        assert(t@.subrange(0, n as int) =~= t@);
    }
    1 <= acc && acc <= 255
}

/// Checks the mandatory header line, mirroring `spec_check_header`.
pub fn check_header(filename: &str, line: &str) -> (r: Option<ParseFail>)
    ensures
        match r {
            Some(f) => spec_check_header(filename@, line@) == Some(abs_fail(f)),
            None => spec_check_header(filename@, line@) is None,
        },
{
    let t0 = match nth_token(line, 0) {
        None => {
            return Some(
                fail_at(
                    ParseErrorKind::NoCurrentPosition,
                    filename,
                    0,
                    line,
                    0,
                    line,
                    "Current position in status line is missing".to_owned(),
                ),
            );
        },
        Some(t) => t,
    };
    let pos_txt = line.substring_char(t0.0, t0.1);
    if convert_to_num(pos_txt).is_none() {
        return Some(
            fail_at(
                ParseErrorKind::ConvertCurrentPos,
                filename,
                0,
                line,
                t0.0,
                pos_txt,
                convert_error_string(Token::CurrentPos),
            ),
        );
    }
    let t1 = match nth_token(line, 1) {
        None => {
            return Some(
                fail_at(
                    ParseErrorKind::NoCurrentStatus,
                    filename,
                    0,
                    line,
                    0,
                    line,
                    "Current status is missing from the status line".to_owned(),
                ),
            );
        },
        Some(t) => t,
    };
    let st_txt = line.substring_char(t1.0, t1.1);
    let st_good = if t1.1 - t1.0 == 1 {
        header_status_ok(line.get_char(t1.0))
    } else {
        false
    };
    if !st_good {
        return Some(
            fail_at(
                ParseErrorKind::UnknownCurrentStatus,
                filename,
                0,
                line,
                t1.0,
                st_txt,
                "Invalid status in status line".to_owned(),
            ),
        );
    }
    let t2 = match nth_token(line, 2) {
        None => {
            return None;
        },
        Some(t) => t,
    };
    let pass_txt = line.substring_char(t2.0, t2.1);
    if pass_ok(pass_txt) {
        None
    } else {
        Some(
            fail_at(
                ParseErrorKind::UnknownCurrentPhase,
                filename,
                0,
                line,
                t2.0,
                pass_txt,
                "Invalid phase in status line".to_owned(),
            ),
        )
    }
}

/// Builds the mapping-table line for a recovered range.
fn create_linear(pos_sect: u128, size_sect: u128, device: &str) -> (r: String)
    ensures
        r@ == spec_linear_line(pos_sect as nat, size_sect as nat, device@),
{
    let mut s = u128_to_dec(pos_sect);
    s.append(" ");
    let size_dec = u128_to_dec(size_sect);
    s.append(size_dec.as_str());
    s.append(" linear ");
    s.append(device);
    s.append(" ");
    let pos_dec = u128_to_dec(pos_sect);
    s.append(pos_dec.as_str());
    proof {
        assert(s@ =~= spec_linear_line(pos_sect as nat, size_sect as nat, device@));
    }
    s
}

/// Builds the mapping-table line for an unrecovered range.
fn create_error(pos_sect: u128, size_sect: u128) -> (r: String)
    ensures
        r@ == spec_error_line(pos_sect as nat, size_sect as nat),
{
    let mut s = u128_to_dec(pos_sect);
    s.append(" ");
    let size_dec = u128_to_dec(size_sect);
    s.append(size_dec.as_str());
    s.append(" error");
    proof {
        assert(s@ =~= spec_error_line(pos_sect as nat, size_sect as nat));
    }
    s
}

/// Builds the contiguity message for an observed and an expected position.
fn contiguous_message(pos: u128, exp_hi: bool, exp_lo: u128) -> (r: String)
    ensures
        r@ == spec_contiguous_message(pos as nat, spec_cval(exp_hi, exp_lo)),
{
    let mut s = "Position ".to_owned();
    let pos_dec = u128_to_dec(pos);
    s.append(pos_dec.as_str());
    s.append(" does not match size of previous line ");
    let exp_dec = dec_carry(exp_hi, exp_lo);
    s.append(exp_dec.as_str());
    s.append("\nDisk map is not contiguous or is overlapping");
    proof {
        assert(s@ =~= spec_contiguous_message(pos as nat, spec_cval(exp_hi, exp_lo)));
    }
    s
}

/// Checks one body line, mirroring `spec_check_line`; the running expected
/// position arrives and leaves as a (carry, low word) pair.
fn check_line(
    filename: &str,
    line_num: usize,
    line: &str,
    exp_hi: bool,
    exp_lo: u128,
    first: bool,
    device: &str,
) -> (r: Result<(String, bool, u128), ParseFail>)
    ensures
        match r {
            Ok(step) => spec_check_line(
                filename@,
                line_num as int,
                line@,
                spec_cval(exp_hi, exp_lo),
                first,
                device@,
            ) == Ok::<(Seq<char>, nat), FailModel>((step.0@, spec_cval(step.1, step.2))),
            Err(f) => spec_check_line(
                filename@,
                line_num as int,
                line@,
                spec_cval(exp_hi, exp_lo),
                first,
                device@,
            ) == Err::<(Seq<char>, nat), FailModel>(abs_fail(f)),
        },
{
    let t0 = match nth_token(line, 0) {
        None => {
            return Err(
                fail_at(
                    ParseErrorKind::NoPosition,
                    filename,
                    line_num,
                    line,
                    0,
                    line,
                    "No position found".to_owned(),
                ),
            );
        },
        Some(t) => t,
    };
    let t1 = match nth_token(line, 1) {
        None => {
            return Err(
                fail_at(
                    ParseErrorKind::NoSize,
                    filename,
                    line_num,
                    line,
                    0,
                    line,
                    "No size found".to_owned(),
                ),
            );
        },
        Some(t) => t,
    };
    let t2 = match nth_token(line, 2) {
        None => {
            return Err(
                fail_at(
                    ParseErrorKind::NoStatus,
                    filename,
                    line_num,
                    line,
                    0,
                    line,
                    "No status found".to_owned(),
                ),
            );
        },
        Some(t) => t,
    };
    let pos_txt = line.substring_char(t0.0, t0.1);
    let size_txt = line.substring_char(t1.0, t1.1);
    let st_txt = line.substring_char(t2.0, t2.1);
    if t2.1 - t2.0 != 1 {
        return Err(
            fail_at(
                ParseErrorKind::UnknownMapStatus,
                filename,
                line_num,
                line,
                t2.0,
                st_txt,
                "Unknown status character".to_owned(),
            ),
        );
    }
    let pos = match convert_to_num(pos_txt) {
        None => {
            return Err(
                fail_at(
                    ParseErrorKind::ConvertPos,
                    filename,
                    line_num,
                    line,
                    t0.0,
                    pos_txt,
                    convert_error_string(Token::Pos),
                ),
            );
        },
        Some(v) => v,
    };
    let size = match convert_to_num(size_txt) {
        None => {
            return Err(
                fail_at(
                    ParseErrorKind::ConvertSize,
                    filename,
                    line_num,
                    line,
                    t1.0,
                    size_txt,
                    convert_error_string(Token::Size),
                ),
            );
        },
        Some(v) => v,
    };
    let st = match classify(line.get_char(t2.0)) {
        None => {
            return Err(
                fail_at(
                    ParseErrorKind::UnknownMapStatus,
                    filename,
                    line_num,
                    line,
                    t2.0,
                    st_txt,
                    "Unknown status character".to_owned(),
                ),
            );
        },
        Some(s) => s,
    };
    if pos % 512 != 0 {
        return Err(
            fail_at(
                ParseErrorKind::PositionSector,
                filename,
                line_num,
                line,
                t0.0,
                pos_txt,
                "Position does not match sector size".to_owned(),
            ),
        );
    }
    if size % 512 != 0 {
        return Err(
            fail_at(
                ParseErrorKind::SizeSector,
                filename,
                line_num,
                line,
                t1.0,
                size_txt,
                "Size does not match sector size".to_owned(),
            ),
        );
    }
    let contiguous = !exp_hi && exp_lo == pos;
    if !contiguous {
        if first {
            return Err(
                fail_at(
                    ParseErrorKind::StartNonzero,
                    filename,
                    line_num,
                    line,
                    t0.0,
                    pos_txt,
                    "Disk map does not begin from 0".to_owned(),
                ),
            );
        } else {
            let message = contiguous_message(pos, exp_hi, exp_lo);
            return Err(
                fail_at(
                    ParseErrorKind::Contiguous,
                    filename,
                    line_num,
                    line,
                    t0.0,
                    pos_txt,
                    message,
                ),
            );
        }
    }
    let table_line = match st {
        Status::Linear => create_linear(pos / 512, size / 512, device),
        Status::Error => create_error(pos / 512, size / 512),
    };
    let (nhi, nlo) = add_carry(pos, size);
    Ok((table_line, nhi, nlo))
}

/// Parses the full text of a map file into a mapping-table text, one line
/// per data line and in source order, or reports the first violation. The
/// result is exactly what the model `spec_parse_map` yields on the same
/// input: acceptance, rejection, table text and diagnostic all included.
pub fn parse_map_string(filename: &str, contents: &str, device_name: &str) -> (r: Result<
    String,
    ParseFail,
>)
    ensures
        match r {
            Ok(out) => spec_parse_map(filename@, contents@, device_name@) == Outcome::Accepted(
                out@,
            ),
            Err(f) => spec_parse_map(filename@, contents@, device_name@) == Outcome::Rejected(
                abs_fail(f),
            ),
        },
{
    let lines = survivors(contents);
    let ghost survs = spec_survivors(contents@);
    if lines.len() == 0 {
        proof {
            assert(survs.len() == 0);
        }
        return Err(ParseFail { kind: ParseErrorKind::EmptyMap, diag: None });
    }
    proof {
        assert(lines@.map_values(|x: String| x@)[0] == lines@[0]@);
    }
    if let Some(f) = check_header(filename, lines[0].as_str()) {
        return Err(f);
    }
    let mut out = String::new();
    let mut exp_hi = false;
    let mut exp_lo: u128 = 0;
    let mut first = true;
    let mut i: usize = 1;
    let n = lines.len();
    while i < n
        invariant
            1 <= i <= n,
            n == lines.len(),
            lines@.map_values(|x: String| x@) == survs,
            survs == spec_survivors(contents@),
            spec_parse_map(filename@, contents@, device_name@) == spec_parse_body(
                filename@,
                survs,
                i as int,
                spec_cval(exp_hi, exp_lo),
                first,
                device_name@,
                out@,
            ),
        decreases n - i,
    {
        proof {
            assert(lines@.map_values(|x: String| x@)[i as int] == lines@[i as int]@);
        }
        match check_line(filename, i, lines[i].as_str(), exp_hi, exp_lo, first, device_name) {
            Err(f) => {
                return Err(f);
            },
            Ok((table_line, nhi, nlo)) => {
                let ghost old_out = out@;
                out.append(table_line.as_str());
                out.append("\n");
                proof {
                    assert(out@ =~= old_out + table_line@ + "\n"@);
                }
                exp_hi = nhi;
                exp_lo = nlo;
                first = false;
                i = i + 1;
            },
        }
    }
    Ok(out)
}

/// The record of a well-formed body line, once `spec_line_parts` is known
/// to accept it.
pub open spec fn spec_rec(line: Seq<char>) -> (u128, u128, Status)
    recommends
        spec_line_parts(line) is Some,
{
    spec_line_parts(line)->Some_0
}

/// A body line the fold accepts is a well-formed record standing exactly
/// at the expected position, and the fold continues right after it.
proof fn lemma_check_line_ok(
    filename: Seq<char>,
    line_num: int,
    line: Seq<char>,
    expected: nat,
    first: bool,
    device: Seq<char>,
)
    requires
        spec_check_line(filename, line_num, line, expected, first, device) is Ok,
    ensures
        spec_line_parts(line) is Some,
        spec_rec(line).0 as nat == expected,
        spec_check_line(filename, line_num, line, expected, first, device)->Ok_0.1 == spec_rec(
            line,
        ).0 as nat + spec_rec(line).1 as nat,
{
}

/// Every body line after `i` of an accepted fold is a well-formed record,
/// the one at `i` stands at the expected position, and each later one
/// starts exactly where its predecessor ended.
proof fn lemma_body_chain(
    filename: Seq<char>,
    survs: Seq<Seq<char>>,
    i: int,
    expected: nat,
    first: bool,
    device: Seq<char>,
    acc: Seq<char>,
)
    requires
        1 <= i <= survs.len(),
        spec_parse_body(filename, survs, i, expected, first, device, acc) is Accepted,
    ensures
        forall|k: int| i <= k < survs.len() ==> spec_line_parts(#[trigger] survs[k]) is Some,
        i < survs.len() ==> spec_rec(survs[i]).0 as nat == expected,
        forall|k: int|
            i <= k < survs.len() - 1 ==> spec_rec(#[trigger] survs[k + 1]).0 as nat == spec_rec(
                survs[k],
            ).0 as nat + spec_rec(survs[k]).1 as nat,
    decreases survs.len() - i,
{
    if i < survs.len() {
        let res = spec_check_line(filename, i, survs[i], expected, first, device);
        assert(res is Ok);
        lemma_check_line_ok(filename, i, survs[i], expected, first, device);
        let step = res->Ok_0;
        lemma_body_chain(filename, survs, i + 1, step.1, false, device, acc + step.0 + "\n"@);
    }
}

/// Contiguity: in every accepted map text the body records cover the image
/// without gap or overlap — the first record starts at position 0 and each
/// later record starts exactly where the previous one ended. A text that
/// violates this is rejected, never truncated or reordered.
pub proof fn lemma_accepted_contiguous(filename: Seq<char>, contents: Seq<char>, device: Seq<char>)
    requires
        spec_parse_map(filename, contents, device) is Accepted,
    ensures
        spec_survivors(contents).len() >= 1,
        forall|k: int|
            1 <= k < spec_survivors(contents).len() ==> spec_line_parts(
                #[trigger] spec_survivors(contents)[k],
            ) is Some,
        spec_survivors(contents).len() > 1 ==> spec_rec(spec_survivors(contents)[1]).0 == 0,
        forall|k: int|
            1 <= k < spec_survivors(contents).len() - 1 ==> spec_rec(
                #[trigger] spec_survivors(contents)[k + 1],
            ).0 as nat == spec_rec(spec_survivors(contents)[k]).0 as nat + spec_rec(
                spec_survivors(contents)[k],
            ).1 as nat,
{
    let survs = spec_survivors(contents);
    lemma_body_chain(filename, survs, 1, 0, true, device, Seq::empty());
}

/// Alignment: every record of an accepted map text has a position and a
/// size that are exact multiples of the 512-byte sector.
pub proof fn lemma_accepted_aligned(filename: Seq<char>, contents: Seq<char>, device: Seq<char>)
    requires
        spec_parse_map(filename, contents, device) is Accepted,
    ensures
        forall|k: int|
            1 <= k < spec_survivors(contents).len() ==> spec_line_parts(
                #[trigger] spec_survivors(contents)[k],
            ) is Some,
        forall|k: int|
            1 <= k < spec_survivors(contents).len() ==> spec_rec(
                #[trigger] spec_survivors(contents)[k],
            ).0 as nat % 512 == 0 && spec_rec(spec_survivors(contents)[k]).1 as nat % 512 == 0,
{
    let survs = spec_survivors(contents);
    lemma_body_chain(filename, survs, 1, 0, true, device, Seq::empty());
}

/// Determinism: any two results that meet the parser's contract for the
/// same filename, map text and device name agree — the same text is
/// accepted or rejected the same way, and accepted table texts are
/// byte-identical.
pub proof fn lemma_round_trip_determinism(
    filename: Seq<char>,
    contents: Seq<char>,
    device: Seq<char>,
    r1: Result<String, ParseFail>,
    r2: Result<String, ParseFail>,
)
    requires
        match r1 {
            Ok(out) => spec_parse_map(filename, contents, device) == Outcome::Accepted(out@),
            Err(f) => spec_parse_map(filename, contents, device) == Outcome::Rejected(abs_fail(f)),
        },
        match r2 {
            Ok(out) => spec_parse_map(filename, contents, device) == Outcome::Accepted(out@),
            Err(f) => spec_parse_map(filename, contents, device) == Outcome::Rejected(abs_fail(f)),
        },
    ensures
        match (r1, r2) {
            (Ok(a), Ok(b)) => a@ == b@,
            (Err(e1), Err(e2)) => abs_fail(e1) == abs_fail(e2),
            _ => false,
        },
{
}

} // verus!
