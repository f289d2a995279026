//! Text shown by the charts: human-readable byte counts and the caption of a
//! used/total usage bar.

use vstd::prelude::*;
use vstd::arithmetic::div_mod::lemma_fundamental_div_mod;
use vstd::arithmetic::mul::lemma_mul_inequality;
use crate::text::{decimal, digit_char, digit, push_char, push_decimal};

verus! {

/// Two to the power `e`.
pub open spec fn pow2(e: nat) -> nat
    decreases e,
{
    if e == 0 { 1 } else { 2 * pow2((e - 1) as nat) }
}

/// The number of binary digits of `b` (zero for zero).
pub open spec fn bit_len(b: nat) -> nat
    decreases b,
{
    if b == 0 { 0 } else { 1 + bit_len(b / 2) }
}

/// `x / d` rounded to the nearest integer, ties to the even neighbour.
pub open spec fn round_half_even(x: nat, d: nat) -> nat {
    let q = x / d;
    let r = x % d;
    if 2 * r > d || (2 * r == d && q % 2 == 1) { q + 1 } else { q }
}

/// The value of the integer `b` once stored in a double: `b` itself when it
/// has at most 53 significant bits, else `b` rounded to the nearest multiple
/// of the power of two that keeps 53 significant bits, ties to even.
pub open spec fn as_double(b: nat) -> nat {
    if bit_len(b) <= 53 {
        b
    } else {
        let s = (bit_len(b) - 53) as nat;
        round_half_even(b, pow2(s)) * pow2(s)
    }
}

/// The unit a byte count is shown in: 0 = B, 1 = KB, 2 = MB, 3 = GB, 4 = TB,
/// the largest whose size is at most the count (B for counts below 1 KB).
pub open spec fn byte_unit(b: nat) -> nat {
    if b < pow2(10) {
        0
    } else if b < pow2(20) {
        1
    } else if b < pow2(30) {
        2
    } else if b < pow2(40) {
        3
    } else {
        4
    }
}

/// The name of unit `u`.
pub open spec fn unit_name(u: nat) -> Seq<char> {
    if u == 0 {
        seq!['B']
    } else if u == 1 {
        seq!['K', 'B']
    } else if u == 2 {
        seq!['M', 'B']
    } else if u == 3 {
        seq!['G', 'B']
    } else {
        seq!['T', 'B']
    }
}

/// A byte count in its unit, in tenths, rounded to nearest (ties to even),
/// as a double-precision value printed with one decimal.
pub open spec fn byte_tenths(b: nat) -> nat {
    round_half_even(as_double(b) * 10, pow2(10 * byte_unit(b)))
}

/// How a byte count is shown: the value in its unit with one decimal, a
/// space and the unit name ("512.0 B", "1.5 KB", "3.0 GB").
pub open spec fn bytes_text(b: nat) -> Seq<char> {
    let t = byte_tenths(b);
    decimal(t / 10) + seq!['.', digit_char(t % 10), ' '] + unit_name(byte_unit(b))
}

proof fn lemma_pow2_values()
    ensures
        pow2(10) == 1024,
        pow2(11) == 2048,
        pow2(20) == 1048576,
        pow2(30) == 1073741824,
        pow2(40) == 1099511627776,
        pow2(53) == 9007199254740992,
        pow2(64) == 18446744073709551616,
{
    reveal_with_fuel(pow2, 12);
    assert(pow2(11) == 2048);
    lemma_pow2_step10(10);
    lemma_pow2_step10(20);
    lemma_pow2_step10(30);
    lemma_pow2_step10(43);
    lemma_pow2_step10(54);
    assert(pow2(43) == 8 * pow2(40)) by {
        reveal_with_fuel(pow2, 4);
    }
    assert(pow2(53) == 1024 * pow2(43));
    assert(pow2(54) == 2 * pow2(53));
}

/// Ten more doublings multiply by 1024.
proof fn lemma_pow2_step10(e: nat)
    ensures
        pow2(e + 10) == 1024 * pow2(e),
{
    reveal_with_fuel(pow2, 11);
}

proof fn lemma_pow2_pos(e: nat)
    ensures
        pow2(e) >= 1,
    decreases e,
{
    if e > 0 {
        lemma_pow2_pos((e - 1) as nat);
    }
}

proof fn lemma_pow2_mono(a: nat, b: nat)
    requires
        a <= b,
    ensures
        pow2(a) <= pow2(b),
    decreases b,
{
    if a < b {
        lemma_pow2_mono(a, (b - 1) as nat);
        lemma_pow2_pos((b - 1) as nat);
    }
}

/// `b` fits in `n` bits exactly when it is below `2^n`.
proof fn lemma_bit_len_bound(b: nat, n: nat)
    ensures
        (b < pow2(n)) == (bit_len(b) <= n),
    decreases b,
{
    lemma_pow2_pos(n);
    if b > 0 && n > 0 {
        lemma_bit_len_bound(b / 2, (n - 1) as nat);
    }
}

/// `x / d` rounded to nearest, ties to even.
fn div_round_half_even(x: u128, d: u128) -> (q: u128)
    requires
        d > 0,
        x < 0x1_0000_0000_0000_0000_0000_0000_0000,
    ensures
        q == round_half_even(x as nat, d as nat),
        q * d <= x + d,
{
    let q = x / d;
    let r = x % d;
    proof {
        lemma_fundamental_div_mod(x as int, d as int);
    }
    proof {
        assert((q + 1) * d == q * d + d) by (nonlinear_arith);
        assert(q * d == d * q) by (nonlinear_arith);
    }
    if 2 * r > d || (2 * r == d && q % 2 == 1) {
        q + 1
    } else {
        q
    }
}

/// The integer `bytes` as stored in a double.
fn as_double_exec(bytes: u64) -> (v: u128)
    ensures
        v == as_double(bytes as nat),
        v <= 0x1_0000_0000_0000_0800,
{
    proof {
        lemma_pow2_values();
        lemma_bit_len_bound(bytes as nat, 53);
        lemma_bit_len_bound(bytes as nat, 64);
    }
    if bytes < 0x20_0000_0000_0000 {
        return bytes as u128;
    }
    // Count the significant bits.
    let mut len: u64 = 0;
    let mut x: u64 = bytes;
    while x > 0
        invariant
            bit_len(bytes as nat) == len + bit_len(x as nat),
            bit_len(bytes as nat) <= 64,
        decreases x,
    {
        x = x / 2;
        len += 1;
    }
    let s = len - 53;
    let mut d: u128 = 1;
    let mut i: u64 = 0;
    while i < s
        invariant
            pow2(10) == 1024,
            pow2(11) == 2048,
            i <= s,
            s <= 11,
            d == pow2(i as nat),
        decreases s - i,
    {
        proof {
            lemma_pow2_mono(i as nat, 10);
        }
        d = d * 2;
        i += 1;
    }
    proof {
        lemma_pow2_pos(s as nat);
        lemma_pow2_mono(s as nat, 11);
    }
    let q = div_round_half_even(bytes as u128, d);
    q * d
}

/// The name of unit `u` (B, KB, MB, GB, TB).
fn unit_str(u: usize) -> (s: &'static str)
    requires
        u <= 4,
    ensures
        s@ == unit_name(u as nat),
{
    proof {
        reveal_strlit("B");
        reveal_strlit("KB");
        reveal_strlit("MB");
        reveal_strlit("GB");
        reveal_strlit("TB");
    }
    if u == 0 {
        "B"
    } else if u == 1 {
        "KB"
    } else if u == 2 {
        "MB"
    } else if u == 3 {
        "GB"
    } else {
        "TB"
    }
}

/// Format a byte count into a human-readable string (KB/MB/GB...): the count
/// in the largest unit not above it, up to TB, with one decimal.
pub fn format_bytes(bytes: u64) -> (res: String)
    ensures
        res@ == bytes_text(bytes as nat),
{
    proof {
        lemma_pow2_values();
    }
    // Step up through the units while the value is at least 1024 of the
    // current one.
    let mut unit: usize = 0;
    let mut scale: u64 = 1;
    while bytes / scale >= 1024 && unit < 4
        invariant
            unit <= 4,
            scale == pow2(10 * unit as nat),
            pow2(10) == 1024,
            pow2(20) == 1048576,
            pow2(30) == 1073741824,
            pow2(40) == 1099511627776,
            unit == 0 || bytes >= scale,
        decreases 4 - unit,
    {
        proof {
            lemma_fundamental_div_mod(bytes as int, scale as int);
            lemma_mul_inequality(1024, (bytes / scale) as int, scale as int);
            lemma_pow2_step10(10 * unit as nat);
            assert(10 * (unit + 1) == 10 * unit + 10) by (nonlinear_arith);
        }
        scale = scale * 1024;
        unit += 1;
    }
    proof {
        lemma_fundamental_div_mod(bytes as int, scale as int);
        if unit < 4 {
            lemma_mul_inequality((bytes / scale) as int, 1023, scale as int);
            assert(scale * (bytes / scale) == (bytes / scale) * scale) by (nonlinear_arith);
            assert(bytes % scale < scale);
            assert(bytes < 1024 * scale);
        }
        if unit == 0 {
            assert(scale == pow2(0));
        } else if unit == 1 {
            assert(scale == pow2(10));
        } else if unit == 2 {
            assert(scale == pow2(20));
        } else if unit == 3 {
            assert(scale == pow2(30));
        } else {
            assert(scale == pow2(40));
        }
        assert(unit == byte_unit(bytes as nat));
    }
    let value = as_double_exec(bytes);
    let tenths = div_round_half_even(value * 10, scale as u128);
    let mut s = String::new();
    push_decimal(&mut s, tenths / 10);
    push_char(&mut s, '.');
    push_char(&mut s, digit(tenths % 10));
    push_char(&mut s, ' ');
    s.append(unit_str(unit));
    s
}


/// The caption above a usage bar: "used / total", prefixed by "label: "
/// when the label is not empty.
pub open spec fn usage_text(label: Seq<char>, used: nat, total: nat) -> Seq<char> {
    let body = bytes_text(used) + seq![' ', '/', ' '] + bytes_text(total);
    if label.len() == 0 {
        body
    } else {
        label + seq![':', ' '] + body
    }
}

/// The caption of a labelled used/total usage bar (e.g. "RAM: 1.0 GB / 8.0 GB").
pub fn usage_label(label: &str, used: u64, total: u64) -> (res: String)
    ensures
        res@ == usage_text(label@, used as nat, total as nat),
{
    let mut s = String::new();
    if !label.is_empty() {
        s.append(label);
        s.append(": ");
    }
    let used_text = format_bytes(used);
    let total_text = format_bytes(total);
    s.append(used_text.as_str());
    s.append(" / ");
    s.append(total_text.as_str());
    proof {
        reveal_strlit(": ");
        reveal_strlit(" / ");
        assert(": "@ == seq![':', ' ']);
        assert(" / "@ == seq![' ', '/', ' ']);
    }
    s
}

} // verus!
