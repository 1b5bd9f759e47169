//! Fixed-point numbers in text: a signed 16-bit raw value `raw` with a
//! divisor `d` stands for the number `raw / d`.
use crate::text::{
    all_digits, decimal, digits_at_most, digits_value, lemma_decimal, lemma_digits_concat,
    lemma_padded, lemma_pow10_positive, padded, pow10, push_decimal, push_padded,
};
use vstd::arithmetic::div_mod::{lemma_fundamental_div_mod, lemma_fundamental_div_mod_converse};
use vstd::prelude::*;

verus! {

/// Mantissas at or above this bound are refused when reading.
pub const MANTISSA_LIMIT: u64 = 1_000_000_000_000_000;

/// At most this many digits after the decimal point are read.
pub const MAX_FRACTION_DIGITS: usize = 15;

/// `n / m` rounded to the nearest integer, ties to even.
pub open spec fn round_nat(n: nat, m: nat) -> nat {
    let q = n / m;
    let r = n % m;
    if 2 * r < m {
        q
    } else if 2 * r > m {
        q + 1
    } else if q % 2 == 0 {
        q
    } else {
        q + 1
    }
}

/// `±n / m` rounded to the nearest integer, ties to even.
pub open spec fn round_signed(neg: bool, n: nat, m: nat) -> int {
    if neg {
        -(round_nat(n, m) as int)
    } else {
        round_nat(n, m) as int
    }
}

pub open spec fn abs(x: int) -> nat {
    if x < 0 {
        (-x) as nat
    } else {
        x as nat
    }
}

/// With `k` digits after the point, the magnitude `a / d` reads back as `a`.
pub open spec fn reads_back(a: nat, d: nat, k: nat) -> bool {
    round_nat(round_nat(a * pow10(k), d) * d, pow10(k)) == a
}

/// The fewest digits after the point with which `a / d` reads back.
pub open spec fn fixed_scale(a: nat, d: nat) -> nat {
    if reads_back(a, d, 0) {
        0
    } else if reads_back(a, d, 1) {
        1
    } else if reads_back(a, d, 2) {
        2
    } else {
        3
    }
}

/// The text of `raw / d`: the shortest decimal, with at most three digits
/// after the point, that reads back as `raw`.
pub open spec fn fixed_text(raw: int, d: nat) -> Seq<char> {
    let a = abs(raw);
    let k = fixed_scale(a, d);
    let q = round_nat(a * pow10(k), d);
    let sign = if raw < 0 {
        seq!['-']
    } else {
        Seq::<char>::empty()
    };
    let frac = if k == 0 {
        Seq::<char>::empty()
    } else {
        seq!['.'] + padded(q % pow10(k), k)
    };
    sign + decimal(q / pow10(k)) + frac
}

/// The first position at or after `i` that holds `c`, or the length of `s`.
pub open spec fn char_from(s: Seq<char>, c: char, i: int) -> int
    decreases s.len() - i,
{
    if i < 0 || i >= s.len() {
        s.len() as int
    } else if s[i] == c {
        i
    } else {
        char_from(s, c, i + 1)
    }
}

/// Text without its sign.
pub open spec fn unsigned_part(s: Seq<char>) -> Seq<char> {
    if s.len() > 0 && (s[0] == '-' || s[0] == '+') {
        s.drop_first()
    } else {
        s
    }
}

/// Reading `s` as a decimal number (an optional sign, digits, optionally a
/// point and more digits, with at least one digit on either side of the
/// point) and scaling it by `d`: the raw value, rounded to
/// the nearest integer with ties to even, if it fits in 16 bits.
pub open spec fn parse_fixed(s: Seq<char>, d: nat) -> Option<int> {
    let neg = s.len() > 0 && s[0] == '-';
    let body = unsigned_part(s);
    let dot = char_from(body, '.', 0);
    let ip = body.subrange(0, dot);
    let fp = if dot < body.len() {
        body.subrange(dot + 1, body.len() as int)
    } else {
        Seq::<char>::empty()
    };
    let k = fp.len();
    let m = digits_value(ip + fp);
    if ip.len() + fp.len() == 0 || k > MAX_FRACTION_DIGITS || !all_digits(ip + fp) || m
        >= MANTISSA_LIMIT {
        None
    } else {
        let r = round_signed(neg, m * d, pow10(k));
        if -32768 <= r <= 32767 {
            Some(r)
        } else {
            None
        }
    }
}

proof fn lemma_pow10_small()
    ensures
        pow10(0) == 1,
        pow10(1) == 10,
        pow10(2) == 100,
        pow10(3) == 1000,
{
    assert(pow10(0) == 1);
    assert(pow10(1) == 10);
    assert(pow10(2) == 100);
    assert(pow10(3) == 1000);
}

proof fn lemma_round_unique(n: nat, m: nat, q: nat, r: nat)
    requires
        m > 0,
        r < m,
        n == q * m + r,
    ensures
        n / m == q,
        n % m == r,
{
    lemma_fundamental_div_mod_converse(n as int, m as int, q as int, r as int);
}

proof fn lemma_round_bound(n: nat, m: nat)
    requires
        m > 0,
    ensures
        round_nat(n, m) <= n + 1,
{
    lemma_fundamental_div_mod(n as int, m as int);
    assert(n / m <= n) by (nonlinear_arith)
        requires
            m > 0,
            n == m * (n / m) + n % m,
            n % m >= 0,
    ;
}

/// With three digits after the point every raw value reads back.
proof fn lemma_reads_back_three(a: nat, d: nat)
    requires
        1 <= d <= 255,
    ensures
        reads_back(a, d, 3),
{
    lemma_pow10_small();
    let n = a * 1000;
    let q0 = n / d;
    let r = n % d;
    lemma_fundamental_div_mod(n as int, d as int);
    assert(n == q0 * d + r);
    let big_q = round_nat(n, d);
    if big_q == q0 {
        assert(2 * r <= d);
        assert(big_q * d + r == n);
        if r == 0 {
            lemma_round_unique(big_q * d, 1000, a, 0);
        } else {
            assert(a >= 1) by (nonlinear_arith)
                requires
                    n == a * 1000,
                    r > 0,
                    r == n % d,
                    n == q0 * d + r,
                    d >= 1,
            {
                if a == 0 {
                    assert(n == 0);
                    lemma_round_unique(0, d, 0, 0);
                }
            }
            assert(big_q * d == ((a - 1) as nat) * 1000 + (1000 - r));
            lemma_round_unique(big_q * d, 1000, (a - 1) as nat, (1000 - r) as nat);
        }
    } else {
        assert(big_q == q0 + 1);
        assert(2 * r >= d);
        assert(big_q * d == n + (d - r)) by (nonlinear_arith)
            requires
                big_q == q0 + 1,
                n == q0 * d + r,
        ;
        lemma_round_unique(big_q * d, 1000, a, (d - r) as nat);
    }
}

pub proof fn lemma_char_from_skip(s: Seq<char>, c: char, i: int, j: int)
    requires
        0 <= i <= j <= s.len(),
        forall|t: int| i <= t < j ==> s[t] != c,
    ensures
        char_from(s, c, i) == char_from(s, c, j),
    decreases j - i,
{
    if i < j {
        lemma_char_from_skip(s, c, i + 1, j);
    }
}

/// Reading the text of a raw value gives the raw value back.
pub proof fn lemma_fixed_round_trip(raw: int, d: nat)
    requires
        -32768 <= raw <= 32767,
        1 <= d <= 255,
    ensures
        parse_fixed(fixed_text(raw, d), d) == Some(raw),
{
    let a = abs(raw);
    let k = fixed_scale(a, d);
    lemma_reads_back_three(a, d);
    assert(reads_back(a, d, k));
    let p = pow10(k);
    lemma_pow10_positive(k);
    let q = round_nat(a * p, d);
    let i = q / p;
    let f = q % p;
    lemma_fundamental_div_mod(q as int, p as int);
    vstd::arithmetic::div_mod::lemma_mod_bound(q as int, p as int);
    let s = fixed_text(raw, d);
    lemma_decimal(i);
    lemma_padded(f, k);
    let dec = decimal(i);
    let body = unsigned_part(s);
    if raw < 0 {
        assert(s == seq!['-'] + (dec + (if k == 0 {
            Seq::<char>::empty()
        } else {
            seq!['.'] + padded(f, k)
        })));
    }
    let frac = if k == 0 {
        Seq::<char>::empty()
    } else {
        seq!['.'] + padded(f, k)
    };
    assert(body =~= dec + frac);
    assert(s.len() > 0 && s[0] == '-' <==> raw < 0);
    assert forall|t: int| 0 <= t < dec.len() implies body[t] != '.' by {
        assert(crate::text::is_digit(dec[t]));
    }
    lemma_char_from_skip(body, '.', 0, dec.len() as int);
    let dot = char_from(body, '.', 0);
    assert(dot == dec.len());
    let ip = body.subrange(0, dot);
    assert(ip =~= dec);
    let fp = if dot < body.len() {
        body.subrange(dot + 1, body.len() as int)
    } else {
        Seq::<char>::empty()
    };
    assert(fp =~= padded(f, k));
    lemma_digits_concat(i, f, k);
    assert(q == i * p + f) by (nonlinear_arith)
        requires
            q == p * i + f,
    ;
    assert(digits_value(ip + fp) == q);
    assert(k <= 3);
    lemma_pow10_small();
    assert(p <= 1000);
    lemma_round_bound(a * p, d);
    assert(a * p <= 32768 * 1000) by (nonlinear_arith)
        requires
            a <= 32768,
            p <= 1000,
    ;
    assert(round_nat(q * d, p) == a);
}

proof fn lemma_pow10_monotone(i: nat, j: nat)
    requires
        i <= j,
    ensures
        pow10(i) <= pow10(j),
    decreases j - i,
{
    if i < j {
        lemma_pow10_monotone(i, (j - 1) as nat);
        lemma_pow10_positive((j - 1) as nat);
    }
}

proof fn lemma_pow10_fifteen()
    ensures
        pow10(15) == 1_000_000_000_000_000,
{
    reveal_with_fuel(pow10, 16);
}

/// `10^k`.
fn pow10_exec(k: usize) -> (r: u64)
    requires
        k <= MAX_FRACTION_DIGITS,
    ensures
        r == pow10(k as nat),
        r <= MANTISSA_LIMIT,
{
    let mut r: u64 = 1;
    let mut i: usize = 0;
    proof {
        lemma_pow10_fifteen();
    }
    while i < k
        invariant
            i <= k <= MAX_FRACTION_DIGITS,
            r == pow10(i as nat),
            pow10(15) == MANTISSA_LIMIT,
        decreases k - i,
    {
        proof {
            lemma_pow10_monotone((i + 1) as nat, 15);
        }
        i += 1;
        r = r * 10;
    }
    proof {
        lemma_pow10_monotone(k as nat, 15);
    }
    r
}

/// `n / m` rounded to the nearest integer, ties to even.
fn round_div(n: u64, m: u64) -> (r: u64)
    requires
        m > 0,
        n < 0xffff_ffff_ffff_fff0u64,
    ensures
        r == round_nat(n as nat, m as nat),
{
    let q = n / m;
    let rem = n % m;
    assert(q <= n) by (nonlinear_arith)
        requires
            m > 0,
            q == n / m,
    ;
    if rem < m - rem {
        q
    } else if rem > m - rem {
        q + 1
    } else if q % 2 == 0 {
        q
    } else {
        q + 1
    }
}

/// Whether `a / d` reads back with the digits after the point that `p`
/// allows.
fn reads_back_exec(a: u64, d: u64, p: u64, k: Ghost<nat>) -> (r: bool)
    requires
        a <= 32768,
        1 <= d <= 255,
        1 <= p <= 1000,
        p == pow10(k@),
    ensures
        r == reads_back(a as nat, d as nat, k@),
{
    assert(a * p <= 32768 * 1000) by (nonlinear_arith)
        requires
            a <= 32768,
            p <= 1000,
    ;
    let q = round_div(a * p, d);
    proof {
        lemma_round_bound((a * p) as nat, d as nat);
    }
    assert(q * d <= (32768 * 1000 + 1) * 255) by (nonlinear_arith)
        requires
            q <= 32768 * 1000 + 1,
            d <= 255,
    ;
    round_div(q * d, p) == a
}

/// Append the text of `raw / d`.
pub fn push_fixed(out: &mut Vec<char>, raw: i16, d: u8)
    requires
        d >= 1,
    ensures
        final(out)@ == old(out)@ + fixed_text(raw as int, d as nat),
{
    let a: u64 = if raw < 0 {
        (0i32 - raw as i32) as u64
    } else {
        raw as u64
    };
    let dd = d as u64;
    proof {
        lemma_pow10_small();
    }
    let (k, p): (u64, u64) = if reads_back_exec(a, dd, 1, Ghost(0)) {
        (0, 1)
    } else if reads_back_exec(a, dd, 10, Ghost(1)) {
        (1, 10)
    } else if reads_back_exec(a, dd, 100, Ghost(2)) {
        (2, 100)
    } else {
        (3, 1000)
    };
    assert(k == fixed_scale(a as nat, d as nat));
    assert(p == pow10(k as nat));
    assert(a * p <= 32768 * 1000) by (nonlinear_arith)
        requires
            a <= 32768,
            p <= 1000,
    ;
    let q = round_div(a * p, dd);
    let ghost before = out@;
    if raw < 0 {
        out.push('-');
    }
    let ghost signed = out@;
    push_decimal(out, q / p);
    if k > 0 {
        out.push('.');
        push_padded(out, q % p, k);
    }
    let ghost sign = if raw < 0 {
        seq!['-']
    } else {
        Seq::<char>::empty()
    };
    assert(signed =~= before + sign);
    assert(out@ =~= before + fixed_text(raw as int, d as nat));
}

/// Append `s[from..to]` to `dst`.
pub fn copy_chars(dst: &mut Vec<char>, s: &Vec<char>, from: usize, to: usize)
    requires
        from <= to <= s@.len(),
    ensures
        final(dst)@ == old(dst)@ + s@.subrange(from as int, to as int),
{
    let mut i = from;
    while i < to
        invariant
            from <= i <= to <= s@.len(),
            dst@ == old(dst)@ + s@.subrange(from as int, i as int),
        decreases to - i,
    {
        dst.push(s[i]);
        i += 1;
        assert(dst@ =~= old(dst)@ + s@.subrange(from as int, i as int));
    }
}

/// Read `s` as a decimal number and scale it by `d` (see `parse_fixed`).
pub fn parse_fixed_exec(s: &Vec<char>, d: u8) -> (r: Option<i16>)
    requires
        d >= 1,
    ensures
        r matches Some(v) ==> parse_fixed(s@, d as nat) == Some(v as int),
        r is None ==> parse_fixed(s@, d as nat) is None,
{
    let n = s.len();
    let neg = n > 0 && s[0] == '-';
    let b: usize = if n > 0 && (s[0] == '-' || s[0] == '+') {
        1
    } else {
        0
    };
    let ghost body = unsigned_part(s@);
    assert(body =~= s@.subrange(b as int, n as int));
    let mut dot = b;
    while dot < n && s[dot] != '.'
        invariant
            b <= dot <= n,
            n == s@.len(),
            body == s@.subrange(b as int, n as int),
            char_from(body, '.', 0) == char_from(body, '.', dot - b),
        decreases n - dot,
    {
        dot += 1;
    }
    assert(char_from(body, '.', dot - b) == dot - b);
    let has_dot = dot < n;
    let k: usize = if has_dot {
        n - dot - 1
    } else {
        0
    };
    if k > MAX_FRACTION_DIGITS {
        return None;
    }
    let mut digits: Vec<char> = Vec::new();
    copy_chars(&mut digits, s, b, dot);
    if has_dot {
        copy_chars(&mut digits, s, dot + 1, n);
    }
    let ghost ip = body.subrange(0, dot - b);
    let ghost fp = if dot < n {
        body.subrange(dot - b + 1, body.len() as int)
    } else {
        Seq::<char>::empty()
    };
    assert(digits@ =~= ip + fp);
    if digits.len() == 0 {
        return None;
    }
    assert(digits@.subrange(0, digits@.len() as int) =~= digits@);
    let m = match digits_at_most(&digits, 0, digits.len(), MANTISSA_LIMIT - 1) {
        Some(m) => m,
        None => {
            return None;
        },
    };
    let p = pow10_exec(k);
    proof {
        lemma_pow10_positive(k as nat);
    }
    assert(m * (d as u64) < 1_000_000_000_000_000 * 256) by (nonlinear_arith)
        requires
            m < 1_000_000_000_000_000u64,
            d < 256,
    ;
    let q = round_div(m * d as u64, p);
    if neg {
        if q > 32768 {
            None
        } else {
            Some((0i32 - q as i32) as i16)
        }
    } else {
        if q > 32767 {
            None
        } else {
            Some(q as i16)
        }
    }
}

} // verus!
