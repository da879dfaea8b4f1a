//! File sizes for people: bytes below 1 KiB, else the value in the largest
//! binary unit up to PiB with two decimals, as a `f64` prints with `{:.2}`.

use vstd::prelude::*;
use crate::text::{decimal, digit_char, join2, join3, u64_to_string};

verus! {

/// The unit below 2^53 that repeated halving of `n` reaches, and the power
/// of two it was divided by: the significand and scale of `n` as a `f64`
/// before rounding.
pub open spec fn f64_parts(n: nat) -> (nat, nat)
    decreases n,
{
    if n < 0x20000000000000 {
        (n, 1)
    } else {
        let (q, p) = f64_parts(n / 2);
        (q, 2 * p)
    }
}

/// `num / den` rounded to the nearest integer, ties to even.
pub open spec fn round_half_even(num: nat, den: nat) -> nat {
    let q = num / den;
    let r = num % den;
    if 2 * r > den || (2 * r == den && q % 2 == 1) {
        q + 1
    } else {
        q
    }
}

/// `n` as the nearest `f64` (ties to even), which `n as f64` gives.
pub open spec fn as_f64(n: nat) -> nat {
    let (q, p) = f64_parts(n);
    let r = n - q * p;
    let h = p / 2;
    let m = if p > 1 && (r > h || (r == h && q % 2 == 1)) {
        q + 1
    } else {
        q
    };
    m * p
}

/// The unit of a size and its number of bytes.
pub open spec fn unit_of(size: nat) -> (Seq<char>, nat) {
    if size < 0x100000 {
        ("KiB"@, 0x400)
    } else if size < 0x40000000 {
        ("MiB"@, 0x100000)
    } else if size < 0x10000000000 {
        ("GiB"@, 0x40000000)
    } else if size < 0x4000000000000 {
        ("TiB"@, 0x10000000000)
    } else {
        ("PiB"@, 0x4000000000000)
    }
}

/// Two decimal digits of `n` below 100.
pub open spec fn two_digits(n: nat) -> Seq<char> {
    seq![digit_char((n / 10) as int), digit_char((n % 10) as int)]
}

/// How `format_file_size` writes a size: `N bytes` below 1024, else the
/// hundredths of the size in its unit, `I.FF UNIT`.
pub open spec fn spec_format_file_size(size: nat) -> Seq<char> {
    if size < 1024 {
        decimal(size) + " bytes"@
    } else {
        let (unit, scale) = unit_of(size);
        let h = round_half_even(as_f64(size) * 100, scale);
        decimal(h / 100) + "."@ + two_digits(h % 100) + " "@ + unit
    }
}

proof fn lemma_parts_bound(n: nat)
    ensures
        f64_parts(n).0 * f64_parts(n).1 <= n,
        f64_parts(n).0 < 0x20000000000000,
        f64_parts(n).1 >= 1,
        n < 0x10000000000000000 ==> f64_parts(n).1 <= 0x1000,
        f64_parts(n).1 > 1 ==> f64_parts(n).0 >= 0x10000000000000,
    decreases n,
{
    if n >= 0x20000000000000 {
        lemma_parts_bound(n / 2);
        let (q, p) = f64_parts(n / 2);
        assert(q * (2 * p) <= n) by (nonlinear_arith)
            requires
                q * p <= n / 2,
        ;
        if n < 0x10000000000000000 {
            assert(n / 2 < 0x8000000000000000);
            if p > 1 {
                assert(q * p >= 0x10000000000000 * p) by (nonlinear_arith)
                    requires
                        q >= 0x10000000000000,
                        p >= 1,
                ;
                assert(0x10000000000000 * p <= n / 2);
                assert(p <= 0x800);
            } else {
                assert(p == 1);
            }
        }
        if p == 1 {
            assert(n / 2 < 0x20000000000000 || f64_parts(n / 2).1 > 1);
        }
    }
}

fn two_digit_text(n: u64) -> (r: String)
    requires
        n < 100,
    ensures
        r@ == two_digits(n as nat),
{
    let tens = u64_to_string(n / 10);
    let ones = u64_to_string(n % 10);
    assert(decimal((n / 10) as nat) == seq![digit_char((n / 10) as int)]);
    assert(decimal((n % 10) as nat) == seq![digit_char((n % 10) as int)]);
    let r = join2(tens.as_str(), ones.as_str());
    assert(r@ =~= two_digits(n as nat));
    r
}

/// A size in bytes as people read it (`format_file_size`): `N bytes`
/// below 1 KiB, else two decimals in KiB, MiB, GiB, TiB or PiB.
pub fn format_file_size(size_bytes: u64) -> (r: String)
    ensures
        r@ == spec_format_file_size(size_bytes as nat),
{
    if size_bytes < 1024 {
        return join2(u64_to_string(size_bytes).as_str(), " bytes");
    }
    let (unit, scale): (&str, u128) = if size_bytes < 0x100000 {
        ("KiB", 0x400)
    } else if size_bytes < 0x40000000 {
        ("MiB", 0x100000)
    } else if size_bytes < 0x10000000000 {
        ("GiB", 0x40000000)
    } else if size_bytes < 0x4000000000000 {
        ("TiB", 0x10000000000)
    } else {
        ("PiB", 0x4000000000000)
    };
    assert(unit@ == unit_of(size_bytes as nat).0 && scale == unit_of(size_bytes as nat).1);
    let n = size_bytes as u128;
    let mut q: u128 = n;
    let mut p: u128 = 1;
    proof {
        lemma_parts_bound(n as nat);
    }
    while q >= 0x20000000000000
        invariant
            f64_parts(n as nat) == (f64_parts(q as nat).0, (f64_parts(q as nat).1 * p) as nat),
            1 <= p <= 0x1000,
            q <= n,
            n < 0x10000000000000000,
            f64_parts(n as nat).1 <= 0x1000,
        decreases q,
    {
        proof {
            let (a, b) = f64_parts((q / 2) as nat);
            assert(f64_parts(q as nat) == (a, 2 * b));
            assert(f64_parts(n as nat).1 == 2 * b * p);
            lemma_parts_bound((q / 2) as nat);
            assert(2 * b * p >= 2 * p) by (nonlinear_arith)
                requires
                    b >= 1,
                    p >= 1,
            ;
            assert(b * (2 * p) == 2 * b * p) by (nonlinear_arith);
        }
        q = q / 2;
        p = p * 2;
    }
    assert(f64_parts(q as nat) == (q as nat, 1nat));
    assert(f64_parts(n as nat) == (q as nat, p as nat));
    assert(q * p <= n);
    let qp = q * p;
    let r = n - qp;
    let h = p / 2;
    let m: u128 = if p > 1 && (r > h || (r == h && q % 2 == 1)) {
        q + 1
    } else {
        q
    };
    assert(m * p <= 0x10000000000001000) by (nonlinear_arith)
        requires
            m <= q + 1,
            q * p <= n,
            n < 0x10000000000000000,
            p <= 0x1000,
            p >= 1,
    ;
    let f = m * p;
    assert(f == as_f64(size_bytes as nat));
    let x = f * 100;
    let hq = x / scale;
    let hr = x % scale;
    let hundredths: u128 = if 2 * hr > scale || (2 * hr == scale && hq % 2 == 1) {
        hq + 1
    } else {
        hq
    };
    assert(hundredths == round_half_even(as_f64(size_bytes as nat) * 100, scale as nat));
    assert(hq <= x / 1024) by (nonlinear_arith)
        requires
            scale >= 1024,
            hq == x / scale,
    ;
    assert(hundredths / 100 < 0x10000000000000000);
    let whole = (hundredths / 100) as u64;
    let frac = (hundredths % 100) as u64;
    let a = join2(u64_to_string(whole).as_str(), ".");
    let b = join3(a.as_str(), two_digit_text(frac).as_str(), " ");
    join2(b.as_str(), unit)
}

} // verus!
