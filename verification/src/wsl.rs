//! The decision behind the WSL gate: whether a kernel release string names
//! WSL. Obtaining the release string is the caller's business; the verdict
//! on it is decided here.

use vstd::prelude::*;

use crate::text::push_char;

verus! {

/// ASCII lowercase of one character; everything else is untouched.
pub open spec fn spec_lower(c: char) -> char {
    let u = c as u32;
    if 'A' as u32 <= u && u <= 'Z' as u32 {
        ((u + 32) as u8) as char
    } else {
        c
    }
}

/// ASCII lowercase of a whole text.
pub open spec fn spec_lower_seq(s: Seq<char>) -> Seq<char> {
    Seq::new(s.len(), |i: int| spec_lower(s[i]))
}

fn lower_char(c: char) -> (r: char)
    ensures
        r == spec_lower(c),
{
    let u = c as u32;
    if 'A' as u32 <= u && u <= 'Z' as u32 {
        let l = ((u + 32) as u8) as char;
        proof {
            assert(l as u32 == u + 32);
            vstd::utf8::char_u32_cast(l, (u + 32) as u32);
        }
        l
    } else {
        c
    }
}

/// Lowercases the ASCII letters of a text.
pub fn lower_ascii(s: &str) -> (r: String)
    ensures
        r@ == spec_lower_seq(s@),
{
    let n = s.unicode_len();
    let mut out = String::new();
    let mut i: usize = 0;
    while i < n
        invariant
            i <= n,
            n == s@.len(),
            out@ =~= spec_lower_seq(s@).subrange(0, i as int),
        decreases n - i,
    {
        let c = lower_char(s.get_char(i));
        push_char(&mut out, c);
        proof {
            assert(out@ =~= spec_lower_seq(s@).subrange(0, i as int + 1));
        }
        i = i + 1;
    }
    proof {
        assert(out@ =~= spec_lower_seq(s@));
    }
    out
}

/// Whether the pattern stands in the text at position `i`.
pub open spec fn spec_match_at(s: Seq<char>, pat: Seq<char>, i: int) -> bool {
    0 <= i && i + pat.len() <= s.len() && s.subrange(i, i + pat.len() as int) == pat
}

/// Whether the pattern stands anywhere in the text.
pub open spec fn spec_has_sub(s: Seq<char>, pat: Seq<char>) -> bool {
    exists|i: int| spec_match_at(s, pat, i)
}

fn match_at(s: &str, pat: &str, i: usize) -> (r: bool)
    requires
        i + pat@.len() <= s@.len(),
    ensures
        r == spec_match_at(s@, pat@, i as int),
{
    let n = s.unicode_len();
    let m = pat.unicode_len();
    let mut k: usize = 0;
    while k < m
        invariant
            k <= m,
            n == s@.len(),
            m == pat@.len(),
            i + m <= n,
            forall|t: int| 0 <= t < k ==> s@[i + t] == pat@[t],
        decreases m - k,
    {
        if s.get_char(i + k) != pat.get_char(k) {
            proof {
                assert(s@.subrange(i as int, i + m as int)[k as int] != pat@[k as int]);
            }
            return false;
        }
        k = k + 1;
    }
    proof {
        assert(s@.subrange(i as int, i + m as int) =~= pat@);
    }
    true
}

/// Whether the pattern stands anywhere in the text, by a scan.
pub fn contains_sub(s: &str, pat: &str) -> (r: bool)
    ensures
        r == spec_has_sub(s@, pat@),
{
    let n = s.unicode_len();
    let m = pat.unicode_len();
    if m > n {
        return false;
    }
    if m == 0 {
        proof {
            assert(spec_match_at(s@, pat@, 0)) by {
                assert(s@.subrange(0, 0) =~= pat@);
            }
        }
        return true;
    }
    let mut i: usize = 0;
    while i <= n - m
        invariant
            1 <= m <= n,
            n == s@.len(),
            m == pat@.len(),
            i <= n - m + 1,
            forall|j: int| 0 <= j < i ==> !spec_match_at(s@, pat@, j),
        decreases n + 1 - i,
    {
        if match_at(s, pat, i) {
            return true;
        }
        i = i + 1;
    }
    false
}

/// Whether a kernel release string names WSL: its ASCII-lowercase form
/// contains `microsoft` or `wsl`.
pub fn is_wsl_kernel(release: &str) -> (r: bool)
    ensures
        r == (spec_has_sub(spec_lower_seq(release@), "microsoft"@) || spec_has_sub(
            spec_lower_seq(release@),
            "wsl"@,
        )),
{
    let lowered = lower_ascii(release);
    if contains_sub(lowered.as_str(), "microsoft") {
        return true;
    }
    contains_sub(lowered.as_str(), "wsl")
}

} // verus!
