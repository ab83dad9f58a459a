//! Line and token handling for map files: splitting the input into lines,
//! trimming, dropping blank and commented lines, and locating the
//! whitespace-separated tokens of a line together with their columns.

use vstd::prelude::*;

verus! {

/// The ASCII whitespace characters that separate tokens within a line.
pub open spec fn spec_is_ascii_space(c: char) -> bool {
    c == ' ' || c == '\t' || c == '\n' || c == '\r' || c == '\u{c}'
}

pub fn is_ascii_space(c: char) -> (r: bool)
    ensures
        r == spec_is_ascii_space(c),
{
    c == ' ' || c == '\t' || c == '\n' || c == '\r' || c == '\u{c}'
}

/// The Unicode whitespace characters removed when a line is trimmed.
pub open spec fn spec_is_space(c: char) -> bool {
    let u = c as u32;
    (0x9 <= u && u <= 0xd) || u == 0x20 || u == 0x85 || u == 0xa0 || u == 0x1680 || (0x2000 <= u
        && u <= 0x200a) || u == 0x2028 || u == 0x2029 || u == 0x202f || u == 0x205f || u == 0x3000
}

pub fn is_space(c: char) -> (r: bool)
    ensures
        r == spec_is_space(c),
{
    let u = c as u32;
    (0x9 <= u && u <= 0xd) || u == 0x20 || u == 0x85 || u == 0xa0 || u == 0x1680 || (0x2000 <= u
        && u <= 0x200a) || u == 0x2028 || u == 0x2029 || u == 0x202f || u == 0x205f || u == 0x3000
}

/// Whether a character occurs anywhere in the sequence.
pub open spec fn spec_contains_char(s: Seq<char>, c: char) -> bool {
    exists|i: int| 0 <= i < s.len() && s[i] == c
}

/// Whether a character occurs in the sequence, by a scan.
pub fn contains_char(s: &str, c: char) -> (r: bool)
    ensures
        r == spec_contains_char(s@, c),
{
    let n = s.unicode_len();
    let mut i: usize = 0;
    while i < n
        invariant
            i <= n,
            n == s@.len(),
            forall|k: int| 0 <= k < i ==> s@[k] != c,
        decreases n - i,
    {
        if s.get_char(i) == c {
            return true;
        }
        i = i + 1;
    }
    false
}

/// Relies on String::push: appends exactly one character at the end.
#[verifier::external_body]
pub fn push_char(s: &mut String, c: char)
    ensures
        final(s)@ == old(s)@.push(c),
{
    s.push(c)
}

/// Whether two pieces of text hold the same characters.
pub fn str_eq(a: &str, b: &str) -> (r: bool)
    ensures
        r == (a@ == b@),
{
    let n = a.unicode_len();
    let m = b.unicode_len();
    if n != m {
        return false;
    }
    let mut i: usize = 0;
    while i < n
        invariant
            i <= n,
            n == a@.len(),
            n == b@.len(),
            forall|k: int| 0 <= k < i ==> a@[k] == b@[k],
        decreases n - i,
    {
        if a.get_char(i) != b.get_char(i) {
            return false;
        }
        i = i + 1;
    }
    proof {
        assert(a@ =~= b@);
    }
    true
}

/// Index of the first newline at or after `i`, or the length if none.
pub open spec fn spec_find_nl(s: Seq<char>, i: int) -> int
    decreases s.len() - i,
{
    if i < 0 || i >= s.len() {
        s.len() as int
    } else if s[i] == '\n' {
        i
    } else {
        spec_find_nl(s, i + 1)
    }
}

pub proof fn lemma_find_nl_props(s: Seq<char>, i: int)
    requires
        0 <= i <= s.len(),
    ensures
        i <= spec_find_nl(s, i) <= s.len(),
        spec_find_nl(s, i) < s.len() ==> s[spec_find_nl(s, i)] == '\n',
        forall|k: int| i <= k < spec_find_nl(s, i) ==> s[k] != '\n',
    decreases s.len() - i,
{
    if i < s.len() && s[i] != '\n' {
        lemma_find_nl_props(s, i + 1);
    }
}

/// A scan that stops at the first newline characterizes `spec_find_nl`.
proof fn lemma_find_nl_char(s: Seq<char>, i: int, k: int)
    requires
        0 <= i <= k <= s.len(),
        forall|m: int| i <= m < k ==> s[m] != '\n',
        k < s.len() ==> s[k] == '\n',
    ensures
        spec_find_nl(s, i) == k,
    decreases k - i,
{
    if i < k {
        lemma_find_nl_char(s, i + 1, k)
    }
}

pub fn find_newline(s: &str, from: usize) -> (r: usize)
    requires
        from <= s@.len(),
    ensures
        r == spec_find_nl(s@, from as int),
        from <= r <= s@.len(),
{
    let n = s.unicode_len();
    let mut i: usize = from;
    while i < n
        invariant
            from <= i <= n,
            n == s@.len(),
            forall|m: int| from <= m < i ==> s@[m] != '\n',
        decreases n - i,
    {
        if s.get_char(i) == '\n' {
            proof {
                lemma_find_nl_char(s@, from as int, i as int);
            }
            return i;
        }
        i = i + 1;
    }
    proof {
        lemma_find_nl_char(s@, from as int, n as int);
    }
    n
}

/// Index of the first character that is not Unicode whitespace, or the length.
pub open spec fn spec_scan_space(s: Seq<char>, i: int) -> int
    decreases s.len() - i,
{
    if i < 0 || i >= s.len() {
        s.len() as int
    } else if spec_is_space(s[i]) {
        spec_scan_space(s, i + 1)
    } else {
        i
    }
}

proof fn lemma_scan_space_char(s: Seq<char>, i: int, k: int)
    requires
        0 <= i <= k <= s.len(),
        forall|m: int| i <= m < k ==> spec_is_space(s[m]),
        k < s.len() ==> !spec_is_space(s[k]),
    ensures
        spec_scan_space(s, i) == k,
    decreases k - i,
{
    if i < k {
        lemma_scan_space_char(s, i + 1, k)
    }
}

/// Index after the last character that is not Unicode whitespace, scanning
/// from the right, or 0 if every character is whitespace.
pub open spec fn spec_scan_space_rev(s: Seq<char>, j: int) -> int
    decreases j,
{
    if j <= 0 || j > s.len() {
        0
    } else if spec_is_space(s[j - 1]) {
        spec_scan_space_rev(s, j - 1)
    } else {
        j
    }
}

pub proof fn lemma_scan_space_props(s: Seq<char>)
    ensures
        0 <= spec_scan_space(s, 0) <= s.len(),
        spec_scan_space(s, 0) < s.len() ==> !spec_is_space(s[spec_scan_space(s, 0)]),
        forall|k: int| 0 <= k < spec_scan_space(s, 0) ==> spec_is_space(s[k]),
{
    lemma_scan_space_props_from(s, 0);
}

proof fn lemma_scan_space_props_from(s: Seq<char>, i: int)
    requires
        0 <= i <= s.len(),
    ensures
        i <= spec_scan_space(s, i) <= s.len(),
        spec_scan_space(s, i) < s.len() ==> !spec_is_space(s[spec_scan_space(s, i)]),
        forall|k: int| i <= k < spec_scan_space(s, i) ==> spec_is_space(s[k]),
    decreases s.len() - i,
{
    if i < s.len() && spec_is_space(s[i]) {
        lemma_scan_space_props_from(s, i + 1);
    }
}

pub proof fn lemma_scan_space_rev_props(s: Seq<char>)
    ensures
        0 <= spec_scan_space_rev(s, s.len() as int) <= s.len(),
        spec_scan_space_rev(s, s.len() as int) > 0 ==> !spec_is_space(
            s[spec_scan_space_rev(s, s.len() as int) - 1],
        ),
        forall|k: int| spec_scan_space_rev(s, s.len() as int) <= k < s.len() ==> spec_is_space(s[k]),
{
    lemma_scan_space_rev_props_from(s, s.len() as int);
}

proof fn lemma_scan_space_rev_props_from(s: Seq<char>, j: int)
    requires
        0 <= j <= s.len(),
    ensures
        0 <= spec_scan_space_rev(s, j) <= j,
        spec_scan_space_rev(s, j) > 0 ==> !spec_is_space(s[spec_scan_space_rev(s, j) - 1]),
        forall|k: int| spec_scan_space_rev(s, j) <= k < j ==> spec_is_space(s[k]),
    decreases j,
{
    if j > 0 && spec_is_space(s[j - 1]) {
        lemma_scan_space_rev_props_from(s, j - 1);
    }
}

proof fn lemma_scan_space_rev_char(s: Seq<char>, j: int, k: int)
    requires
        0 <= k <= j <= s.len(),
        forall|m: int| k <= m < j ==> spec_is_space(s[m]),
        k > 0 ==> !spec_is_space(s[k - 1]),
    ensures
        spec_scan_space_rev(s, j) == k,
    decreases j - k,
{
    if k < j {
        lemma_scan_space_rev_char(s, j - 1, k)
    }
}

fn scan_space(s: &str) -> (r: usize)
    ensures
        r == spec_scan_space(s@, 0),
        r <= s@.len(),
{
    let n = s.unicode_len();
    let mut i: usize = 0;
    while i < n
        invariant
            i <= n,
            n == s@.len(),
            forall|m: int| 0 <= m < i ==> spec_is_space(s@[m]),
        decreases n - i,
    {
        if !is_space(s.get_char(i)) {
            proof {
                lemma_scan_space_char(s@, 0, i as int);
            }
            return i;
        }
        i = i + 1;
    }
    proof {
        lemma_scan_space_char(s@, 0, n as int);
    }
    n
}

fn scan_space_rev(s: &str) -> (r: usize)
    ensures
        r == spec_scan_space_rev(s@, s@.len() as int),
        r <= s@.len(),
{
    let n = s.unicode_len();
    let mut i: usize = n;
    while i > 0
        invariant
            i <= n,
            n == s@.len(),
            forall|m: int| i <= m < n ==> spec_is_space(s@[m]),
        decreases i,
    {
        if !is_space(s.get_char(i - 1)) {
            proof {
                lemma_scan_space_rev_char(s@, n as int, i as int);
            }
            return i;
        }
        i = i - 1;
    }
    proof {
        lemma_scan_space_rev_char(s@, n as int, 0);
    }
    0
}

/// A line with its surrounding Unicode whitespace removed.
pub open spec fn spec_trim(s: Seq<char>) -> Seq<char> {
    let a = spec_scan_space(s, 0);
    let b = spec_scan_space_rev(s, s.len() as int);
    if a == s.len() {
        Seq::empty()
    } else {
        s.subrange(a, b)
    }
}

/// Removes leading and trailing Unicode whitespace, like `str::trim`.
pub fn trim_str(s: &str) -> (r: String)
    ensures
        r@ == spec_trim(s@),
{
    let n = s.unicode_len();
    let a = scan_space(s);
    if a == n {
        let r = String::new();
        proof {
            assert(r@ =~= spec_trim(s@));
        }
        return r;
    }
    let b = scan_space_rev(s);
    // the character at `a` is not whitespace, so the right scan stops at or
    // after `a + 1`
    proof {
        lemma_scan_space_props(s@);
        lemma_scan_space_rev_props(s@);
        assert(!spec_is_space(s@[a as int]));
        if b <= a {
            assert(spec_is_space(s@[a as int]));
        }
    }
    let r = s.substring_char(a, b).to_owned();
    proof {
        assert(r@ =~= spec_trim(s@));
    }
    r
}

/// A trimmed line survives filtering when it is non-empty and contains no
/// `#` anywhere.
pub open spec fn spec_keep_line(t: Seq<char>) -> bool {
    t.len() > 0 && !spec_contains_char(t, '#')
}

/// The trimmed surviving lines of the input, from position `i` onward.
pub open spec fn spec_surv_from(s: Seq<char>, i: int) -> Seq<Seq<char>>
    decreases s.len() - i,
{
    if i < 0 || i > s.len() {
        Seq::empty()
    } else {
        let j = spec_find_nl(s, i);
        if j < i || j > s.len() {
            // the newline scan never leaves the line's range
            Seq::empty()
        } else {
            let t = spec_trim(s.subrange(i, j));
            let head: Seq<Seq<char>> = if spec_keep_line(t) {
                seq![t]
            } else {
                Seq::empty()
            };
            if j >= s.len() {
                head
            } else {
                head + spec_surv_from(s, j + 1)
            }
        }
    }
}

/// The filtered stream of a map file: every line trimmed, blank and
/// commented lines dropped, source order kept.
pub open spec fn spec_survivors(s: Seq<char>) -> Seq<Seq<char>> {
    spec_surv_from(s, 0)
}

/// Produces the filtered stream of trimmed surviving lines.
pub fn survivors(contents: &str) -> (v: Vec<String>)
    ensures
        v@.map_values(|x: String| x@) == spec_survivors(contents@),
{
    let n = contents.unicode_len();
    let mut v: Vec<String> = Vec::new();
    let mut start: usize = 0;
    let mut done = false;
    while !done
        invariant
            n == contents@.len(),
            !done ==> start <= n,
            !done ==> spec_survivors(contents@) =~= v@.map_values(|x: String| x@)
                + spec_surv_from(contents@, start as int),
            done ==> spec_survivors(contents@) =~= v@.map_values(|x: String| x@),
        decreases (if done { 0int } else { n - start + 1 }),
    {
        let j = find_newline(contents, start);
        proof {
            lemma_find_nl_props(contents@, start as int);
        }
        let raw = contents.substring_char(start, j);
        let t = trim_str(raw);
        let ghost old_v = v@;
        let ghost tv = t@;
        let keep = if t.as_str().unicode_len() > 0 {
            !contains_char(t.as_str(), '#')
        } else {
            false
        };
        if keep {
            v.push(t);
        }
        proof {
            assert(raw@ =~= contents@.subrange(start as int, j as int));
            assert(tv == spec_trim(contents@.subrange(start as int, j as int)));
            assert(keep == spec_keep_line(tv));
            if keep {
                assert(v@.map_values(|x: String| x@) =~= old_v.map_values(|x: String| x@).push(
                    tv,
                ));
                assert(seq![tv] + spec_surv_from(contents@, j + 1) =~= seq![tv].add(
                    spec_surv_from(contents@, j + 1),
                ));
            }
            assert(spec_surv_from(contents@, start as int) == (if keep {
                seq![tv]
            } else {
                Seq::<Seq<char>>::empty()
            }) + (if j == n {
                Seq::<Seq<char>>::empty()
            } else {
                spec_surv_from(contents@, j + 1)
            })) by {
                if j >= n {
                    assert(spec_surv_from(contents@, start as int) == (if keep {
                        seq![tv]
                    } else {
                        Seq::<Seq<char>>::empty()
                    }));
                    assert((if keep {
                        seq![tv]
                    } else {
                        Seq::<Seq<char>>::empty()
                    }) + Seq::<Seq<char>>::empty() =~= (if keep {
                        seq![tv]
                    } else {
                        Seq::<Seq<char>>::empty()
                    }));
                }
            }
        }
        if j == n {
            done = true;
        } else {
            start = j + 1;
        }
    }
    v
}

/// Start of the first token at or after `i`: the first character that is
/// not ASCII whitespace, or the length.
pub open spec fn spec_tok_start(s: Seq<char>, i: int) -> int
    decreases s.len() - i,
{
    if i < 0 || i >= s.len() {
        s.len() as int
    } else if spec_is_ascii_space(s[i]) {
        spec_tok_start(s, i + 1)
    } else {
        i
    }
}

proof fn lemma_tok_start_char(s: Seq<char>, i: int, k: int)
    requires
        0 <= i <= k <= s.len(),
        forall|m: int| i <= m < k ==> spec_is_ascii_space(s[m]),
        k < s.len() ==> !spec_is_ascii_space(s[k]),
    ensures
        spec_tok_start(s, i) == k,
    decreases k - i,
{
    if i < k {
        lemma_tok_start_char(s, i + 1, k)
    }
}

pub proof fn lemma_tok_start_props(s: Seq<char>, i: int)
    requires
        0 <= i <= s.len(),
    ensures
        i <= spec_tok_start(s, i) <= s.len(),
        spec_tok_start(s, i) < s.len() ==> !spec_is_ascii_space(s[spec_tok_start(s, i)]),
        forall|k: int| i <= k < spec_tok_start(s, i) ==> spec_is_ascii_space(s[k]),
    decreases s.len() - i,
{
    if i < s.len() && spec_is_ascii_space(s[i]) {
        lemma_tok_start_props(s, i + 1);
    }
}

/// End of a token that starts at `i`: the first ASCII whitespace character
/// at or after `i`, or the length.
pub open spec fn spec_tok_end(s: Seq<char>, i: int) -> int
    decreases s.len() - i,
{
    if i < 0 || i >= s.len() {
        s.len() as int
    } else if spec_is_ascii_space(s[i]) {
        i
    } else {
        spec_tok_end(s, i + 1)
    }
}

proof fn lemma_tok_end_char(s: Seq<char>, i: int, k: int)
    requires
        0 <= i <= k <= s.len(),
        forall|m: int| i <= m < k ==> !spec_is_ascii_space(s[m]),
        k < s.len() ==> spec_is_ascii_space(s[k]),
    ensures
        spec_tok_end(s, i) == k,
    decreases k - i,
{
    if i < k {
        lemma_tok_end_char(s, i + 1, k)
    }
}

pub proof fn lemma_tok_end_props(s: Seq<char>, i: int)
    requires
        0 <= i <= s.len(),
    ensures
        i <= spec_tok_end(s, i) <= s.len(),
        spec_tok_end(s, i) < s.len() ==> spec_is_ascii_space(s[spec_tok_end(s, i)]),
        forall|k: int| i <= k < spec_tok_end(s, i) ==> !spec_is_ascii_space(s[k]),
    decreases s.len() - i,
{
    if i < s.len() && !spec_is_ascii_space(s[i]) {
        lemma_tok_end_props(s, i + 1);
    }
}

fn tok_start(s: &str, from: usize) -> (r: usize)
    requires
        from <= s@.len(),
    ensures
        r == spec_tok_start(s@, from as int),
        from <= r <= s@.len(),
{
    let n = s.unicode_len();
    let mut i: usize = from;
    while i < n
        invariant
            from <= i <= n,
            n == s@.len(),
            forall|m: int| from <= m < i ==> spec_is_ascii_space(s@[m]),
        decreases n - i,
    {
        if !is_ascii_space(s.get_char(i)) {
            proof {
                lemma_tok_start_char(s@, from as int, i as int);
            }
            return i;
        }
        i = i + 1;
    }
    proof {
        lemma_tok_start_char(s@, from as int, n as int);
    }
    n
}

fn tok_end(s: &str, from: usize) -> (r: usize)
    requires
        from <= s@.len(),
    ensures
        r == spec_tok_end(s@, from as int),
        from <= r <= s@.len(),
{
    let n = s.unicode_len();
    let mut i: usize = from;
    while i < n
        invariant
            from <= i <= n,
            n == s@.len(),
            forall|m: int| from <= m < i ==> !spec_is_ascii_space(s@[m]),
        decreases n - i,
    {
        if is_ascii_space(s.get_char(i)) {
            proof {
                lemma_tok_end_char(s@, from as int, i as int);
            }
            return i;
        }
        i = i + 1;
    }
    proof {
        lemma_tok_end_char(s@, from as int, n as int);
    }
    n
}

/// The character range of the `n`-th whitespace-separated token at or after
/// position `i`, counting from 0, or `None` if the line runs out first.
pub open spec fn spec_nth_tok_from(s: Seq<char>, i: int, n: nat) -> Option<(int, int)>
    decreases n,
{
    if i < 0 || i > s.len() {
        None
    } else {
        let a = spec_tok_start(s, i);
        if a >= s.len() {
            None
        } else {
            let b = spec_tok_end(s, a + 1);
            if n == 0 {
                Some((a, b))
            } else {
                spec_nth_tok_from(s, b, (n - 1) as nat)
            }
        }
    }
}

/// The character range of the `n`-th token of the line.
pub open spec fn spec_nth_tok(s: Seq<char>, n: nat) -> Option<(int, int)> {
    spec_nth_tok_from(s, 0, n)
}

/// Locates the `n`-th token of a line, mirroring `spec_nth_tok`.
pub fn nth_token(s: &str, n: usize) -> (r: Option<(usize, usize)>)
    ensures
        match r {
            Some(t) => spec_nth_tok(s@, n as nat) == Some((t.0 as int, t.1 as int)) && t.0 < t.1
                <= s@.len(),
            None => spec_nth_tok(s@, n as nat) is None,
        },
{
    let len = s.unicode_len();
    let mut i: usize = 0;
    let mut k: usize = n;
    loop
        invariant
            i <= len,
            len == s@.len(),
            k <= n,
            spec_nth_tok(s@, n as nat) == spec_nth_tok_from(s@, i as int, k as nat),
        decreases len - i, k,
    {
        let a = tok_start(s, i);
        if a == len {
            return None;
        }
        let b = tok_end(s, a + 1);
        proof {
            lemma_tok_end_props(s@, a as int + 1);
        }
        if k == 0 {
            return Some((a, b));
        }
        k = k - 1;
        proof {
            // the next search starts strictly later, so the loop terminates
            assert(b > i);
        }
        i = b;
    }
}

} // verus!
