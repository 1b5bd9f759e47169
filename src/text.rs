//! Decimal digits in text: reading and writing unsigned numbers.
use vstd::prelude::*;

verus! {

/// The character is an ASCII decimal digit.
pub open spec fn is_digit(c: char) -> bool {
    '0' <= c && c <= '9'
}

/// The value of an ASCII decimal digit.
pub open spec fn digit_num(c: char) -> nat {
    if c == '1' {
        1
    } else if c == '2' {
        2
    } else if c == '3' {
        3
    } else if c == '4' {
        4
    } else if c == '5' {
        5
    } else if c == '6' {
        6
    } else if c == '7' {
        7
    } else if c == '8' {
        8
    } else if c == '9' {
        9
    } else {
        0
    }
}

/// The ASCII digit of a number below ten.
pub open spec fn digit_char(n: nat) -> char {
    if n == 0 {
        '0'
    } else if n == 1 {
        '1'
    } else if n == 2 {
        '2'
    } else if n == 3 {
        '3'
    } else if n == 4 {
        '4'
    } else if n == 5 {
        '5'
    } else if n == 6 {
        '6'
    } else if n == 7 {
        '7'
    } else if n == 8 {
        '8'
    } else {
        '9'
    }
}

pub open spec fn all_digits(s: Seq<char>) -> bool {
    forall|i: int| 0 <= i < s.len() ==> is_digit(#[trigger] s[i])
}

/// The number that a string of decimal digits spells.
pub open spec fn digits_value(s: Seq<char>) -> nat
    decreases s.len(),
{
    if s.len() == 0 {
        0
    } else {
        digits_value(s.drop_last()) * 10 + digit_num(s.last())
    }
}

/// Decimal digits of `n`, without leading zeros.
pub open spec fn decimal(n: nat) -> Seq<char>
    decreases n,
{
    if n < 10 {
        seq![digit_char(n)]
    } else {
        decimal(n / 10).push(digit_char(n % 10))
    }
}

/// The last `k` decimal digits of `n`, with leading zeros.
pub open spec fn padded(n: nat, k: nat) -> Seq<char>
    decreases k,
{
    if k == 0 {
        seq![]
    } else {
        padded(n / 10, (k - 1) as nat).push(digit_char(n % 10))
    }
}

pub open spec fn pow10(k: nat) -> nat
    decreases k,
{
    if k == 0 {
        1
    } else {
        10 * pow10((k - 1) as nat)
    }
}

/// The digits of an unsigned number in text: a leading `+` is allowed.
pub open spec fn unsigned_digits(s: Seq<char>) -> Seq<char> {
    if s.len() > 0 && s[0] == '+' {
        s.drop_first()
    } else {
        s
    }
}

/// Reading an unsigned number of at most `max` from text, as the standard
/// library reads `u8` and `u16`: an optional `+`, then one or more digits.
pub open spec fn parse_unsigned(s: Seq<char>, max: nat) -> Option<nat> {
    let d = unsigned_digits(s);
    if d.len() > 0 && all_digits(d) && digits_value(d) <= max {
        Some(digits_value(d))
    } else {
        None
    }
}

pub proof fn lemma_digit_char(n: nat)
    requires
        n < 10,
    ensures
        is_digit(digit_char(n)),
        digit_num(digit_char(n)) == n,
{
}

pub proof fn lemma_pow10_positive(k: nat)
    ensures
        pow10(k) >= 1,
    decreases k,
{
    if k > 0 {
        lemma_pow10_positive((k - 1) as nat);
    }
}

/// A longer run of digits spells at least the number of its prefix.
pub proof fn lemma_digits_prefix_monotone(s: Seq<char>, i: int)
    requires
        0 <= i <= s.len(),
    ensures
        digits_value(s.subrange(0, i)) <= digits_value(s),
    decreases s.len() - i,
{
    if i < s.len() {
        lemma_digits_prefix_monotone(s, i + 1);
        assert(s.subrange(0, i + 1).drop_last() =~= s.subrange(0, i));
        assert(digits_value(s.subrange(0, i + 1)) == digits_value(s.subrange(0, i)) * 10
            + digit_num(s.subrange(0, i + 1).last()));
    } else {
        assert(s.subrange(0, i) =~= s);
    }
}

pub proof fn lemma_decimal(n: nat)
    ensures
        decimal(n).len() > 0,
        all_digits(decimal(n)),
        digits_value(decimal(n)) == n,
        decimal(n)[0] != '+',
        decimal(n)[0] != '-',
    decreases n,
{
    if n < 10 {
        lemma_digit_char(n);
        let s = decimal(n);
        assert(s.drop_last() =~= Seq::<char>::empty());
        assert(digits_value(s.drop_last()) == 0);
        assert(digits_value(s) == digit_num(s.last()));
    } else {
        lemma_decimal(n / 10);
        lemma_digit_char(n % 10);
        let s = decimal(n);
        assert(s.drop_last() =~= decimal(n / 10));
        assert(s.last() == digit_char(n % 10));
        assert(digits_value(s) == digits_value(decimal(n / 10)) * 10 + digit_num(s.last()));
        assert(n == (n / 10) * 10 + n % 10);
    }
}

pub proof fn lemma_padded(n: nat, k: nat)
    ensures
        padded(n, k).len() == k,
        all_digits(padded(n, k)),
        digits_value(padded(n, k)) == n % pow10(k),
    decreases k,
{
    if k > 0 {
        let k1 = (k - 1) as nat;
        lemma_padded(n / 10, k1);
        lemma_digit_char(n % 10);
        assert(padded(n, k).drop_last() =~= padded(n / 10, k1));
        lemma_pow10_positive(k1);
        let p = pow10(k1);
        // n == 10 * (n / 10) + n % 10 and (n / 10) == p * ((n / 10) / p) + (n / 10) % p
        let a = n / 10;
        let b = n % 10;
        let c = a / p;
        let e = a % p;
        assert(n == 10 * a + b);
        assert(a == p * c + e) by {
            vstd::arithmetic::div_mod::lemma_fundamental_div_mod(a as int, p as int);
        }
        assert(e < p) by {
            vstd::arithmetic::div_mod::lemma_mod_bound(a as int, p as int);
        }
        assert(n == c * (10 * p) + (10 * e + b)) by (nonlinear_arith)
            requires
                n == 10 * a + b,
                a == p * c + e,
        ;
        assert(10 * e + b < 10 * p) by (nonlinear_arith)
            requires
                e < p,
                b < 10,
        ;
        vstd::arithmetic::div_mod::lemma_fundamental_div_mod_converse(
            n as int,
            (10 * p) as int,
            c as int,
            (10 * e + b) as int,
        );
    }
}

/// Digits of `i` followed by `k` padded digits of `f` spell `i * 10^k + f`.
pub proof fn lemma_digits_concat(i: nat, f: nat, k: nat)
    requires
        f < pow10(k),
    ensures
        all_digits(decimal(i) + padded(f, k)),
        digits_value(decimal(i) + padded(f, k)) == i * pow10(k) + f,
    decreases k,
{
    lemma_decimal(i);
    lemma_padded(f, k);
    if k == 0 {
        assert(decimal(i) + padded(f, k) =~= decimal(i));
    } else {
        let k1 = (k - 1) as nat;
        let p = pow10(k1);
        lemma_pow10_positive(k1);
        assert(f / 10 < p) by {
            vstd::arithmetic::div_mod::lemma_fundamental_div_mod(f as int, 10);
            assert(f < 10 * p);
            assert(f / 10 < p) by (nonlinear_arith)
                requires
                    f < 10 * p,
                    f == 10 * (f / 10) + f % 10,
                    f % 10 >= 0,
            ;
        }
        lemma_digits_concat(i, f / 10, k1);
        lemma_digit_char(f % 10);
        let s = decimal(i) + padded(f, k);
        assert(s.drop_last() =~= decimal(i) + padded(f / 10, k1));
        assert(s.last() == digit_char(f % 10));
        assert(digits_value(s) == (i * p + f / 10) * 10 + f % 10);
        assert((i * p + f / 10) * 10 + f % 10 == i * (10 * p) + f) by (nonlinear_arith)
            requires
                f == 10 * (f / 10) + f % 10,
        ;
        vstd::arithmetic::div_mod::lemma_fundamental_div_mod(f as int, 10);
    }
}

/// Parsing the decimal digits of `n` gives `n` back.
pub proof fn lemma_parse_decimal(n: nat, max: nat)
    requires
        n <= max,
    ensures
        parse_unsigned(decimal(n), max) == Some(n),
{
    lemma_decimal(n);
}

/// Text with its leading spaces removed.
pub open spec fn trim_start(s: Seq<char>) -> Seq<char>
    decreases s.len(),
{
    if s.len() > 0 && s[0] == ' ' {
        trim_start(s.drop_first())
    } else {
        s
    }
}

/// Text with its trailing spaces removed.
pub open spec fn trim_end(s: Seq<char>) -> Seq<char>
    decreases s.len(),
{
    if s.len() > 0 && s.last() == ' ' {
        trim_end(s.drop_last())
    } else {
        s
    }
}

/// Text with the spaces at both ends removed.
pub open spec fn trim(s: Seq<char>) -> Seq<char> {
    trim_end(trim_start(s))
}

/// The ASCII digit of `n`.
pub fn digit_char_of(n: u8) -> (c: char)
    requires
        n < 10,
    ensures
        c == digit_char(n as nat),
{
    match n {
        0 => '0',
        1 => '1',
        2 => '2',
        3 => '3',
        4 => '4',
        5 => '5',
        6 => '6',
        7 => '7',
        8 => '8',
        _ => '9',
    }
}

/// The value of `c` if it is an ASCII digit.
pub fn digit_of(c: char) -> (r: Option<u8>)
    ensures
        r is Some <==> is_digit(c),
        r matches Some(v) ==> v as nat == digit_num(c) && v < 10,
{
    match c {
        '0' => Some(0),
        '1' => Some(1),
        '2' => Some(2),
        '3' => Some(3),
        '4' => Some(4),
        '5' => Some(5),
        '6' => Some(6),
        '7' => Some(7),
        '8' => Some(8),
        '9' => Some(9),
        _ => None,
    }
}

/// Append the decimal digits of `n`.
pub fn push_decimal(out: &mut Vec<char>, n: u64)
    ensures
        final(out)@ == old(out)@ + decimal(n as nat),
    decreases n,
{
    if n < 10 {
        out.push(digit_char_of(n as u8));
        assert(old(out)@ + decimal(n as nat) =~= old(out)@.push(digit_char(n as nat)));
    } else {
        push_decimal(out, n / 10);
        out.push(digit_char_of((n % 10) as u8));
        assert(old(out)@ + decimal(n as nat) =~= old(out)@ + decimal((n / 10) as nat) + seq![
            digit_char((n % 10) as nat),
        ]);
    }
}

/// Append the last `k` decimal digits of `n`, with leading zeros.
pub fn push_padded(out: &mut Vec<char>, n: u64, k: u64)
    ensures
        final(out)@ == old(out)@ + padded(n as nat, k as nat),
    decreases k,
{
    if k == 0 {
        assert(old(out)@ + padded(n as nat, k as nat) =~= old(out)@);
    } else {
        push_padded(out, n / 10, k - 1);
        out.push(digit_char_of((n % 10) as u8));
        assert(old(out)@ + padded(n as nat, k as nat) =~= old(out)@ + padded(
            (n / 10) as nat,
            (k - 1) as nat,
        ) + seq![digit_char((n % 10) as nat)]);
    }
}

/// The number that `s[from..to]` spells, if it is all digits and at most `max`.
pub fn digits_at_most(s: &Vec<char>, from: usize, to: usize, max: u64) -> (r: Option<u64>)
    requires
        from <= to <= s@.len(),
        max <= 1_000_000_000_000_000_000u64,
    ensures
        r is Some <==> all_digits(s@.subrange(from as int, to as int)) && digits_value(
            s@.subrange(from as int, to as int),
        ) <= max,
        r matches Some(v) ==> v == digits_value(s@.subrange(from as int, to as int)),
{
    let mut acc: u64 = 0;
    let mut i: usize = from;
    while i < to
        invariant
            from <= i <= to <= s@.len(),
            max <= 1_000_000_000_000_000_000u64,
            all_digits(s@.subrange(from as int, i as int)),
            acc == digits_value(s@.subrange(from as int, i as int)),
            acc <= max,
        decreases to - i,
    {
        let ghost whole = s@.subrange(from as int, to as int);
        let ghost nexts = s@.subrange(from as int, i + 1);
        assert(nexts.drop_last() =~= s@.subrange(from as int, i as int));
        assert(whole.subrange(0, i + 1 - from) =~= nexts);
        match digit_of(s[i]) {
            None => {
                assert(!is_digit(whole[i - from]));
                return None;
            },
            Some(d) => {
                assert(acc * 10 + 9 <= 10_000_000_000_000_000_009u64) by (nonlinear_arith)
                    requires
                        acc <= 1_000_000_000_000_000_000u64,
                ;
                let next = acc * 10 + d as u64;
                assert(next == digits_value(nexts));
                if next > max {
                    proof {
                        lemma_digits_prefix_monotone(whole, i + 1 - from);
                    }
                    return None;
                }
                acc = next;
                i += 1;
            },
        }
    }
    assert(s@.subrange(from as int, i as int) =~= s@.subrange(from as int, to as int));
    Some(acc)
}

/// Reads an unsigned number of at most `max` from `s[from..to]`, as the
/// standard library reads `u8` and `u16`.
pub fn parse_unsigned_at(s: &Vec<char>, from: usize, to: usize, max: u64) -> (r: Option<u64>)
    requires
        from <= to <= s@.len(),
        max <= 1_000_000_000_000_000_000u64,
    ensures
        r matches Some(v) ==> parse_unsigned(s@.subrange(from as int, to as int), max as nat)
            == Some(v as nat),
        r is None ==> parse_unsigned(s@.subrange(from as int, to as int), max as nat) is None,
{
    let ghost t = s@.subrange(from as int, to as int);
    let start = if from < to && s[from] == '+' {
        from + 1
    } else {
        from
    };
    assert(unsigned_digits(t) =~= s@.subrange(start as int, to as int));
    if start == to {
        return None;
    }
    digits_at_most(s, start, to, max)
}

/// The characters of `s`.
pub fn chars_of(s: &str) -> (r: Vec<char>)
    ensures
        r@ == s@,
{
    let n = s.unicode_len();
    let mut r: Vec<char> = Vec::new();
    let mut i: usize = 0;
    while i < n
        invariant
            i <= n,
            n == s@.len(),
            r@ == s@.subrange(0, i as int),
        decreases n - i,
    {
        r.push(s.get_char(i));
        i += 1;
        assert(r@ =~= s@.subrange(0, i as int));
    }
    assert(r@ =~= s@);
    r
}

/// Append the characters of `s`.
pub fn push_str_chars(out: &mut Vec<char>, s: &str)
    ensures
        final(out)@ == old(out)@ + s@,
{
    let v = chars_of(s);
    let mut i: usize = 0;
    while i < v.len()
        invariant
            i <= v@.len(),
            v@ == s@,
            out@ == old(out)@ + v@.subrange(0, i as int),
        decreases v@.len() - i,
    {
        out.push(v[i]);
        i += 1;
        assert(out@ =~= old(out)@ + v@.subrange(0, i as int));
    }
    assert(v@.subrange(0, i as int) =~= s@);
}

/// Bounds of `s[lo..hi]` without the spaces at both ends.
pub fn trim_bounds(s: &Vec<char>, lo: usize, hi: usize) -> (r: (usize, usize))
    requires
        lo <= hi <= s@.len(),
    ensures
        lo <= r.0 <= r.1 <= hi,
        s@.subrange(r.0 as int, r.1 as int) == trim(s@.subrange(lo as int, hi as int)),
{
    let mut a = lo;
    while a < hi && s[a] == ' '
        invariant
            lo <= a <= hi <= s@.len(),
            trim_start(s@.subrange(lo as int, hi as int)) == trim_start(
                s@.subrange(a as int, hi as int),
            ),
        decreases hi - a,
    {
        assert(s@.subrange(a as int, hi as int).drop_first() =~= s@.subrange(a + 1, hi as int));
        a += 1;
    }
    let mut b = hi;
    while b > a && s[b - 1] == ' '
        invariant
            lo <= a <= b <= hi <= s@.len(),
            trim_end(s@.subrange(a as int, hi as int)) == trim_end(s@.subrange(a as int, b as int)),
        decreases b - a,
    {
        assert(s@.subrange(a as int, b as int).drop_last() =~= s@.subrange(a as int, b - 1));
        b -= 1;
    }
    (a, b)
}

/// Relies on `String`'s `FromIterator<&char>`: the string of the characters.
#[verifier::external_body]
pub(crate) fn string_of(chars: &Vec<char>) -> (r: String)
    ensures
        r@ == chars@,
{
    chars.iter().collect()
}

} // verus!
