//! Rendering of parse diagnostics: a location header, the offending source
//! line, and a caret run underlining the offending token, sized by the
//! token's display width.

use vstd::prelude::*;

use crate::numbers::spec_dec;
use crate::numbers::usize_to_dec;

verus! {

/// Display width of a string as a terminal renders it, in columns.
pub uninterp spec fn width_of(s: Seq<char>) -> nat;

/// Relies on unicode_width's `UnicodeWidthStr::width`: the display width of
/// a string is computed from its characters alone, by Unicode tables; an
/// empty string has width 0.
#[verifier::external_body]
pub fn display_width(s: &str) -> (r: usize)
    ensures
        r == width_of(s@),
        s@.len() == 0 ==> r == 0,
{
    unicode_width::UnicodeWidthStr::width(s)
}

/// `n` copies of a piece of text, concatenated.
pub open spec fn spec_repeat_seq(s: Seq<char>, n: nat) -> Seq<char>
    decreases n,
{
    if n == 0 {
        Seq::empty()
    } else {
        spec_repeat_seq(s, (n - 1) as nat) + s
    }
}

/// Repeats a piece of text `n` times.
pub fn repeat_str(piece: &str, n: usize) -> (r: String)
    ensures
        r@ == spec_repeat_seq(piece@, n as nat),
{
    let mut s = String::new();
    let mut i: usize = 0;
    while i < n
        invariant
            i <= n,
            s@ == spec_repeat_seq(piece@, i as nat),
        decreases n - i,
    {
        s.append(piece);
        i = i + 1;
    }
    s
}

/// Everything a single-line pointer diagnostic needs: where the offending
/// token stands and what to say about it. `line_num` is the 0-based index
/// of the line in the filtered stream, `col` the token's character column
/// within the trimmed line.
#[derive(Debug)]
pub struct Diagnostic {
    pub filename: String,
    pub line_num: usize,
    pub line: String,
    pub col: usize,
    pub token: String,
    pub message: String,
}

/// The four-line pointer report: location header, blank gutter, the source
/// line behind its number, and a caret run starting at the token's column
/// and spanning its display width.
pub open spec fn spec_render(
    filename: Seq<char>,
    line_num: nat,
    line: Seq<char>,
    col: nat,
    token: Seq<char>,
) -> Seq<char> {
    let num = spec_dec(line_num);
    let pad = spec_repeat_seq(" "@, num.len());
    pad + " --> "@ + filename + "\n "@ + pad + " |\n "@ + num + " | "@ + line + "\n "@ + pad
        + " | "@ + spec_repeat_seq(" "@, col) + spec_repeat_seq("^"@, width_of(token)) + "\n"@
}

impl Diagnostic {
    /// Renders the pointer report for this diagnostic; the message itself
    /// is carried separately so the caller can style it.
    pub fn render(&self) -> (r: String)
        ensures
            r@ == spec_render(
                self.filename@,
                self.line_num as nat,
                self.line@,
                self.col as nat,
                self.token@,
            ),
    {
        let num = usize_to_dec(self.line_num);
        let pad = repeat_str(" ", num.as_str().unicode_len());
        let width = display_width(self.token.as_str());
        let mut s = String::new();
        s.append(pad.as_str());
        s.append(" --> ");
        s.append(self.filename.as_str());
        s.append("\n ");
        s.append(pad.as_str());
        s.append(" |\n ");
        s.append(num.as_str());
        s.append(" | ");
        s.append(self.line.as_str());
        s.append("\n ");
        s.append(pad.as_str());
        s.append(" | ");
        let spaces = repeat_str(" ", self.col);
        s.append(spaces.as_str());
        let carets = repeat_str("^", width);
        s.append(carets.as_str());
        s.append("\n");
        proof {
            assert(s@ =~= spec_render(
                self.filename@,
                self.line_num as nat,
                self.line@,
                self.col as nat,
                self.token@,
            ));
        }
        s
    }
}

} // verus!
