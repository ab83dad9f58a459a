//! Numeric tokens: the three-radix convention used by map files (`0x` hex,
//! leading-`0` octal, decimal otherwise) and rendering of values back to
//! decimal text.

use vstd::prelude::*;

verus! {

/// Value of a digit character, for any radix up to 16; characters that are
/// no digit at all get the sentinel 36, larger than every supported radix.
pub open spec fn spec_digit_val(c: char) -> nat {
    let u = c as u32;
    if '0' as u32 <= u && u <= '9' as u32 {
        (u - '0' as u32) as nat
    } else if 'a' as u32 <= u && u <= 'f' as u32 {
        (u - 'a' as u32 + 10) as nat
    } else if 'A' as u32 <= u && u <= 'F' as u32 {
        (u - 'A' as u32 + 10) as nat
    } else {
        36
    }
}

pub open spec fn spec_is_digit(c: char, radix: nat) -> bool {
    spec_digit_val(c) < radix
}

pub open spec fn spec_all_digits(s: Seq<char>, radix: nat) -> bool {
    forall|i: int| 0 <= i < s.len() ==> spec_is_digit(s[i], radix)
}

/// Unbounded value of a digit string under the given radix.
pub open spec fn spec_num_val(s: Seq<char>, radix: nat) -> nat
    decreases s.len(),
{
    if s.len() == 0 {
        0
    } else {
        spec_num_val(s.drop_last(), radix) * radix + spec_digit_val(s.last())
    }
}

/// The radix convention: a `0x` prefix selects base 16 (prefix stripped),
/// any other leading `0` selects base 8 (kept, its value is 0), anything
/// else is decimal.
pub open spec fn spec_radix_split(t: Seq<char>) -> (nat, Seq<char>) {
    if t.len() >= 2 && t[0] == '0' && t[1] == 'x' {
        (16, t.skip(2))
    } else if t.len() >= 1 && t[0] == '0' {
        (8, t)
    } else {
        (10, t)
    }
}

/// Unbounded reading of a numeric token: the digit part must be non-empty
/// and consist of digits of the chosen radix alone.
pub open spec fn spec_to_num(t: Seq<char>) -> Option<nat> {
    let (radix, digits) = spec_radix_split(t);
    if digits.len() > 0 && spec_all_digits(digits, radix) {
        Some(spec_num_val(digits, radix))
    } else {
        None
    }
}

/// Reading of a numeric token into a 128-bit value: a well-formed token
/// whose value does not fit is rejected like a malformed one.
pub open spec fn spec_to_num128(t: Seq<char>) -> Option<u128> {
    match spec_to_num(t) {
        Some(v) => if v <= u128::MAX { Some(v as u128) } else { None },
        None => None,
    }
}

pub fn digit_val(c: char) -> (r: u32)
    ensures
        r == spec_digit_val(c),
{
    let u = c as u32;
    if '0' as u32 <= u && u <= '9' as u32 {
        u - '0' as u32
    } else if 'a' as u32 <= u && u <= 'f' as u32 {
        u - 'a' as u32 + 10
    } else if 'A' as u32 <= u && u <= 'F' as u32 {
        u - 'A' as u32 + 10
    } else {
        36
    }
}

/// Appending one more valid digit never decreases the value read so far.
proof fn lemma_num_val_prefix_le(s: Seq<char>, radix: nat, i: int)
    requires
        8 <= radix,
        0 <= i < s.len(),
    ensures
        spec_num_val(s.subrange(0, i), radix) <= spec_num_val(s.subrange(0, i + 1), radix),
    decreases s.len() - i,
{
    let p = s.subrange(0, i + 1);
    assert(p.drop_last() =~= s.subrange(0, i));
    let v = spec_num_val(s.subrange(0, i), radix);
    assert(spec_num_val(p, radix) == v * radix + spec_digit_val(p.last()));
    assert(v <= v * radix) by (nonlinear_arith)
        requires
            8 <= radix,
    {}
}

/// The value of a whole digit string is at least the value of any prefix.
pub(crate) proof fn lemma_num_val_extends(s: Seq<char>, radix: nat, i: int)
    requires
        8 <= radix,
        0 <= i <= s.len(),
    ensures
        spec_num_val(s.subrange(0, i), radix) <= spec_num_val(s, radix),
    decreases s.len() - i,
{
    if i == s.len() {
        assert(s.subrange(0, i) =~= s);
    } else {
        lemma_num_val_prefix_le(s, radix, i);
        lemma_num_val_extends(s, radix, i + 1);
    }
}

/// Converts a numeric token under the three-radix convention; mirrors
/// `spec_to_num128` exactly, so malformed tokens and values over 128 bits
/// both come back as `None`.
pub fn convert_to_num(t: &str) -> (r: Option<u128>)
    ensures
        r == spec_to_num128(t@),
{
    let n = t.unicode_len();
    let (radix, start): (u32, usize) = if n >= 2 && t.get_char(0) == '0' && t.get_char(1) == 'x' {
        (16, 2)
    } else if n >= 1 && t.get_char(0) == '0' {
        (8, 0)
    } else {
        (10, 0)
    };
    proof {
        assert(t@.skip(start as int) =~= t@.subrange(start as int, n as int));
        assert(spec_radix_split(t@).0 == radix);
        assert(spec_radix_split(t@).1 == t@.subrange(start as int, n as int));
    }
    if start == n {
        return None;
    }
    let ghost digits = t@.subrange(start as int, n as int);
    let mut acc: u128 = 0;
    let mut i: usize = start;
    while i < n
        invariant
            start <= i <= n,
            n == t@.len(),
            digits == t@.subrange(start as int, n as int),
            spec_radix_split(t@).0 == radix as nat,
            spec_radix_split(t@).1 == digits,
            8 <= radix <= 16,
            spec_all_digits(t@.subrange(start as int, i as int), radix as nat),
            acc == spec_num_val(t@.subrange(start as int, i as int), radix as nat),
        decreases n - i,
    {
        let c = t.get_char(i);
        let d = digit_val(c);
        if d >= radix {
            proof {
                assert(digits[i - start] == t@[i as int]);
                assert(!spec_all_digits(digits, radix as nat));
            }
            return None;
        }
        // the value would exceed 128 bits: every extension of this prefix
        // does too, so the token is rejected as a whole
        if acc > (u128::MAX - d as u128) / (radix as u128) {
            proof {
                let full = digits;
                let j = i - start;
                assert(full.subrange(0, j + 1).drop_last() =~= full.subrange(0, j));
                assert(full.subrange(0, j) =~= t@.subrange(start as int, i as int));
                assert(full.subrange(0, j + 1).last() == t@[i as int]);
                assert(spec_num_val(full.subrange(0, j + 1), radix as nat) == acc * radix
                    + spec_digit_val(t@[i as int]));
                assert(acc * radix + d > u128::MAX) by (nonlinear_arith)
                    requires
                        acc as int > (u128::MAX as int - d as int) / (radix as int),
                        8 <= radix <= 16,
                        d < radix,
                {}
                if spec_all_digits(full, radix as nat) {
                    lemma_num_val_extends(full, radix as nat, j + 1);
                }
            }
            return None;
        }
        proof {
            assert(acc * radix + d <= u128::MAX) by (nonlinear_arith)
                requires
                    acc as int <= (u128::MAX as int - d as int) / (radix as int),
                    8 <= radix <= 16,
                    d < radix,
            {}
            let j = i - start;
            assert(digits.subrange(0, j + 1).drop_last() =~= digits.subrange(0, j));
            assert(digits.subrange(0, j) =~= t@.subrange(start as int, i as int));
            assert(digits.subrange(0, j + 1).last() == t@[i as int]);
            assert(digits.subrange(0, j + 1) =~= t@.subrange(start as int, i as int + 1));
        }
        acc = acc * (radix as u128) + d as u128;
        i = i + 1;
    }
    proof {
        assert(t@.subrange(start as int, n as int) =~= digits);
    }
    Some(acc)
}

/// The digit character for a value below ten.
pub open spec fn spec_digit_char(d: nat) -> char {
    if d == 0 { '0' }
    else if d == 1 { '1' }
    else if d == 2 { '2' }
    else if d == 3 { '3' }
    else if d == 4 { '4' }
    else if d == 5 { '5' }
    else if d == 6 { '6' }
    else if d == 7 { '7' }
    else if d == 8 { '8' }
    else { '9' }
}

/// Canonical decimal rendering of an unbounded natural number.
pub open spec fn spec_dec(n: nat) -> Seq<char>
    decreases n,
{
    if n < 10 {
        seq![spec_digit_char(n)]
    } else {
        spec_dec(n / 10) + seq![spec_digit_char(n % 10)]
    }
}

fn digit_str(d: u128) -> (r: &'static str)
    requires
        d < 10,
    ensures
        r@ =~= seq![spec_digit_char(d as nat)],
{
    proof {
        reveal_strlit("0");
        reveal_strlit("1");
        reveal_strlit("2");
        reveal_strlit("3");
        reveal_strlit("4");
        reveal_strlit("5");
        reveal_strlit("6");
        reveal_strlit("7");
        reveal_strlit("8");
        reveal_strlit("9");
    }
    if d == 0 { "0" }
    else if d == 1 { "1" }
    else if d == 2 { "2" }
    else if d == 3 { "3" }
    else if d == 4 { "4" }
    else if d == 5 { "5" }
    else if d == 6 { "6" }
    else if d == 7 { "7" }
    else if d == 8 { "8" }
    else { "9" }
}

/// Renders a 128-bit value as decimal text, matching `spec_dec`.
pub fn u128_to_dec(n: u128) -> (r: String)
    ensures
        r@ == spec_dec(n as nat),
    decreases n,
{
    if n < 10 {
        let s = digit_str(n);
        s.to_owned()
    } else {
        let mut s = u128_to_dec(n / 10);
        s.append(digit_str(n % 10));
        s
    }
}

/// Two to the 128th power, the weight of the carry bit in a split sum.
pub open spec fn spec_pow128() -> nat {
    u128::MAX as nat + 1
}

/// Exact value of a (carry, low) pair holding a sum of two 128-bit numbers.
pub open spec fn spec_cval(hi: bool, lo: u128) -> nat {
    if hi {
        (spec_pow128() + lo) as nat
    } else {
        lo as nat
    }
}

/// Adds two 128-bit values exactly, as a carry bit and a low word.
pub fn add_carry(a: u128, b: u128) -> (r: (bool, u128))
    ensures
        spec_cval(r.0, r.1) == a + b,
{
    proof {
        assert(spec_pow128() == u128::MAX as nat + 1);
    }
    if b <= u128::MAX - a {
        (false, a + b)
    } else {
        (true, a - (u128::MAX - b) - 1)
    }
}

/// Renders the exact value of a (carry, low) pair as decimal text.
pub fn dec_carry(hi: bool, lo: u128) -> (r: String)
    ensures
        r@ == spec_dec(spec_cval(hi, lo)),
{
    if !hi {
        u128_to_dec(lo)
    } else {
        let a = lo / 10;
        let b = lo % 10;
        // two to the 128th is 10 * q0 + 6, so the pair divides by ten in
        // one exact step and the rest is a 128-bit rendering
        let q0: u128 = 34028236692093846346337460743176821145;
        proof {
            assert(a <= 34028236692093846346337460743176821145) by (nonlinear_arith)
                requires
                    a == lo / 10,
                    lo <= u128::MAX,
            {}
        }
        let (q, rem): (u128, u128) = if b + 6 >= 10 {
            (q0 + a + 1, b + 6 - 10)
        } else {
            (q0 + a, b + 6)
        };
        proof {
            let v = spec_cval(true, lo);
            assert(spec_pow128() == 10 * (q0 as nat) + 6);
            assert(lo == 10 * a + b) by (nonlinear_arith)
                requires
                    a == lo / 10,
                    b == lo % 10,
            {}
            assert(v == 10 * (q as nat) + rem);
            assert(v / 10 == q as int && v % 10 == rem as int) by (nonlinear_arith)
                requires
                    v == 10 * (q as nat) + rem,
                    0 <= rem < 10,
            {}
        }
        let mut s = u128_to_dec(q);
        let d = digit_str(rem);
        s.append(d);
        proof {
            assert(s@ =~= spec_dec(spec_cval(true, lo)));
        }
        s
    }
}

/// Renders a 32-bit value as decimal text.
pub fn u32_to_dec(n: u32) -> (r: String)
    ensures
        r@ == spec_dec(n as nat),
{
    u128_to_dec(n as u128)
}

/// Renders a machine-word value as decimal text.
pub fn usize_to_dec(n: usize) -> (r: String)
    ensures
        r@ == spec_dec(n as nat),
{
    u128_to_dec(n as u128)
}

} // verus!
