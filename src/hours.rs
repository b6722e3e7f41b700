use vstd::prelude::*;
use crate::text::{chars_of, digit_char, is_blank, nat_text, push_chars, push_nat, trim, trim_end, trim_start, trimmed};

verus! {

/// Hundredths of an hour in a number of seconds (magnitude, half rounds up).
pub open spec fn centi_hours(secs: int) -> nat {
    let m = if secs < 0 { -secs } else { secs };
    ((m + 18) / 36) as nat
}

/// A duration as hours with two decimals, such as `1.30` or `-0.25`.
pub open spec fn hours_text(secs: int) -> Seq<char> {
    let c = centi_hours(secs);
    let sign = if secs < 0 { seq!['-'] } else { Seq::<char>::empty() };
    sign + nat_text(c / 100) + seq!['.', digit_char((c % 100) / 10), digit_char(c % 10)]
}

/// Append a duration in seconds as hours with two decimals.
pub fn push_hours(out: &mut String, secs: i64)
    ensures
        final(out)@ == old(out)@ + hours_text(secs as int),
{
    let m: u128 = if secs < 0 { (0i128 - secs as i128) as u128 } else { secs as u128 };
    let c: u128 = (m + 18) / 36;
    let mut tail: Vec<char> = Vec::new();
    if secs < 0 {
        out.push('-');
    }
    let ghost mid = out@;
    push_nat(out, (c / 100) as u64);
    tail.push('.');
    tail.push(digit_of_small(((c % 100) / 10) as u64));
    tail.push(digit_of_small((c % 10) as u64));
    push_chars(out, &tail);
    proof {
        let sign = if secs < 0 { seq!['-'] } else { Seq::<char>::empty() };
        assert(mid == old(out)@ + sign);
        assert(tail@ == seq!['.', digit_char(((c % 100) / 10) as nat), digit_char((c % 10) as nat)]);
        assert(c as nat == centi_hours(secs as int));
    }
}

fn digit_of_small(d: u64) -> (c: char)
    requires
        d < 10,
    ensures
        c == digit_char(d as nat),
{
    if d == 0 { '0' } else if d == 1 { '1' } else if d == 2 { '2' } else if d == 3 { '3' }
    else if d == 4 { '4' } else if d == 5 { '5' } else if d == 6 { '6' } else if d == 7 { '7' }
    else if d == 8 { '8' } else { '9' }
}

/// A decimal digit.
pub open spec fn is_digit(c: char) -> bool {
    '0' <= c && c <= '9'
}

/// The value of a decimal digit.
pub open spec fn digit_value(c: char) -> nat {
    (c as int - '0' as int) as nat
}

/// The value of a run of decimal digits (most significant first).
pub open spec fn digits_value(s: Seq<char>) -> nat
    decreases s.len(),
{
    if s.len() == 0 {
        0
    } else {
        digits_value(s.drop_last()) * 10 + digit_value(s.last())
    }
}

/// Ten to the power `k`.
pub open spec fn pow10(k: nat) -> nat
    decreases k,
{
    if k == 0 {
        1
    } else {
        10 * pow10((k - 1) as nat)
    }
}

/// The text with trailing `h` characters removed.
pub open spec fn strip_h(s: Seq<char>) -> Seq<char>
    decreases s.len(),
{
    if s.len() > 0 && s.last() == 'h' {
        strip_h(s.drop_last())
    } else {
        s
    }
}

/// Position of the first `c` in `s`, if any.
pub open spec fn first_index(s: Seq<char>, c: char) -> Option<int>
    decreases s.len(),
{
    if s.len() == 0 {
        None
    } else if s[0] == c {
        Some(0)
    } else {
        match first_index(s.drop_first(), c) {
            Some(k) => Some(k + 1),
            None => None,
        }
    }
}

/// Whether every character is a decimal digit.
pub open spec fn all_digits(s: Seq<char>) -> bool {
    forall|i: int| 0 <= i < s.len() ==> is_digit(#[trigger] s[i])
}

/// Most digits accepted before the decimal point.
pub const MAX_INT_DIGITS: usize = 12;

/// Fraction digits that count (finer ones lie below a nanohour).
pub const FRACTION_DIGITS: usize = 9;

/// Seconds in an unsigned decimal number of hours `ip.fp`, truncated.
pub open spec fn unsigned_hours_secs(ip: Seq<char>, fp: Seq<char>) -> int {
    let f = if fp.len() > FRACTION_DIGITS { fp.subrange(0, FRACTION_DIGITS as int) } else { fp };
    let scaled = digits_value(f) * pow10((FRACTION_DIGITS - f.len()) as nat);
    (digits_value(ip) * 3600) as int + ((scaled * 3600) as int) / (pow10(FRACTION_DIGITS as nat) as int)
}

/// The digits before the decimal point.
pub open spec fn int_part(u: Seq<char>) -> Seq<char> {
    match first_index(u, '.') {
        Some(k) => u.subrange(0, k),
        None => u,
    }
}

/// The digits after the decimal point.
pub open spec fn frac_part(u: Seq<char>) -> Seq<char> {
    match first_index(u, '.') {
        Some(k) => u.subrange(k + 1, u.len() as int),
        None => Seq::<char>::empty(),
    }
}

/// The seconds an unsigned number of hours `u` denotes, if it is one.
pub open spec fn unsigned_value(u: Seq<char>) -> Option<int> {
    let ip = int_part(u);
    let fp = frac_part(u);
    if all_digits(ip) && all_digits(fp) && ip.len() + fp.len() >= 1 && ip.len() <= MAX_INT_DIGITS {
        Some(unsigned_hours_secs(ip, fp))
    } else {
        None
    }
}

/// The seconds a duration field such as `1.5h` denotes: an optional sign,
/// digits with an optional decimal point, and optional trailing `h`.
pub open spec fn duration_value(s: Seq<char>) -> Option<int> {
    let b = strip_h(trim(s));
    if b.len() > 0 && (b[0] == '-' || b[0] == '+') {
        match unsigned_value(b.drop_first()) {
            Some(v) => Some(if b[0] == '-' { -v } else { v }),
            None => None,
        }
    } else {
        unsigned_value(b)
    }
}

fn strip_h_exec(s: &Vec<char>) -> (r: Vec<char>)
    ensures
        r@ == strip_h(s@),
{
    let mut k: usize = s.len();
    assert(s@.subrange(0, s@.len() as int) == s@);
    while k > 0 && s[k - 1] == 'h'
        invariant
            k <= s@.len(),
            strip_h(s@.subrange(0, k as int)) == strip_h(s@),
        decreases k,
    {
        assert(s@.subrange(0, k as int).drop_last() == s@.subrange(0, k - 1));
        k = k - 1;
    }
    assert(s@.subrange(0, s@.len() as int) == s@);
    crate::text::slice_of(s, 0, k)
}

fn find_char(s: &Vec<char>, c: char) -> (r: Option<usize>)
    ensures
        r is Some ==> first_index(s@, c) == Some(r->0 as int) && r->0 < s@.len(),
        r is None ==> first_index(s@, c) is None,
{
    let mut i: usize = 0;
    while i < s.len()
        invariant
            i <= s@.len(),
            forall|j: int| 0 <= j < i ==> s@[j] != c,
        decreases s@.len() - i,
    {
        if s[i] == c {
            proof { lemma_first_index_at(s@, c, i as int); }
            return Some(i);
        }
        i = i + 1;
    }
    proof { lemma_first_index_none(s@, c); }
    None
}

/// The first occurrence of `c` is at `k` when `s[k]` is `c` and nothing before it is.
pub proof fn lemma_first_index_at(s: Seq<char>, c: char, k: int)
    requires
        0 <= k < s.len(),
        s[k] == c,
        forall|j: int| 0 <= j < k ==> s[j] != c,
    ensures
        first_index(s, c) == Some(k),
    decreases k,
{
    if k > 0 {
        let t = s.drop_first();
        assert forall|j: int| 0 <= j < k - 1 implies t[j] != c by {
            assert(t[j] == s[j + 1]);
        }
        lemma_first_index_at(t, c, k - 1);
    }
}

/// A text without `c` has no first occurrence of it.
pub proof fn lemma_first_index_none(s: Seq<char>, c: char)
    requires
        forall|j: int| 0 <= j < s.len() ==> s[j] != c,
    ensures
        first_index(s, c) is None,
    decreases s.len(),
{
    if s.len() > 0 {
        let t = s.drop_first();
        assert forall|j: int| 0 <= j < t.len() implies t[j] != c by {
            assert(t[j] == s[j + 1]);
        }
        lemma_first_index_none(t, c);
    }
}

/// Read a run of digits; `None` unless all are digits and at most `max` of them.
fn digits_exec(s: &Vec<char>, from: usize, to: usize, max: usize) -> (r: Option<u64>)
    requires
        from <= to <= s@.len(),
        max <= 12,
    ensures
        match r {
            Some(v) => all_digits(s@.subrange(from as int, to as int)) && to - from <= max
                && v == digits_value(s@.subrange(from as int, to as int)),
            None => !(all_digits(s@.subrange(from as int, to as int)) && to - from <= max),
        },
{
    if to - from > max {
        return None;
    }
    let mut v: u64 = 0;
    let mut i: usize = from;
    while i < to
        invariant
            from <= i <= to <= s@.len(),
            to - from <= max,
            max <= 12,
            all_digits(s@.subrange(from as int, i as int)),
            v == digits_value(s@.subrange(from as int, i as int)),
            v < pow10((i - from) as nat),
        decreases to - i,
    {
        let c = s[i];
        if !('0' <= c && c <= '9') {
            assert(s@.subrange(from as int, to as int)[i - from] == c);
            return None;
        }
        proof {
            let a = s@.subrange(from as int, i + 1);
            assert(a.drop_last() == s@.subrange(from as int, i as int));
            assert(a.last() == c);
            lemma_pow10_le(((i - from) + 1) as nat, 12);
            lemma_pow10_values();
        }
        let d: u64 = (c as u32 - '0' as u32) as u64;
        v = v * 10 + d;
        i = i + 1;
    }
    Some(v)
}

proof fn lemma_pow10_le(a: nat, b: nat)
    requires
        a <= b,
    ensures
        pow10(a) <= pow10(b),
        pow10(a) >= 1,
    decreases b - a,
{
    lemma_pow10_pos(a);
    if a < b {
        lemma_pow10_le(a, (b - 1) as nat);
    }
}

proof fn lemma_pow10_pos(a: nat)
    ensures
        pow10(a) >= 1,
    decreases a,
{
    if a > 0 {
        lemma_pow10_pos((a - 1) as nat);
    }
}

/// Read an unsigned number of hours into seconds.
fn parse_unsigned(u: &Vec<char>) -> (r: Option<u64>)
    ensures
        match unsigned_value(u@) {
            Some(v) => r == Some(v as u64) && 0 <= v < 4000000000000000,
            None => r is None,
        },
{
    let n = u.len();
    let dot = find_char(u, '.');
    let (ip_end, fp_start) = match dot {
        Some(k) => {
            assert(k < u@.len());
            (k, k + 1)
        },
        None => (u.len(), u.len()),
    };
    let ghost ipv = u@.subrange(0, ip_end as int);
    let ghost fpv = u@.subrange(fp_start as int, u@.len() as int);
    proof {
        if dot is None {
            assert(u@.subrange(0, u@.len() as int) == u@);
            assert(fpv == Seq::<char>::empty());
        }
        assert(int_part(u@) == ipv);
        assert(frac_part(u@) == fpv);
    }
    let ip = digits_exec(u, 0, ip_end, MAX_INT_DIGITS);
    let fp_end: usize = if u.len() - fp_start > FRACTION_DIGITS { fp_start + FRACTION_DIGITS } else { u.len() };
    let fp_all = all_digits_exec(u, fp_start, u.len());
    let fp = digits_exec(u, fp_start, fp_end, FRACTION_DIGITS);
    let ghost f = u@.subrange(fp_start as int, fp_end as int);
    proof {
        if u@.len() - fp_start > FRACTION_DIGITS {
            assert(fpv.subrange(0, FRACTION_DIGITS as int) == f);
        } else {
            assert(f == fpv);
        }
        if fp_all {
            assert forall|i: int| 0 <= i < f.len() implies is_digit(#[trigger] f[i]) by {
                assert(f[i] == fpv[i]);
            }
        }
    }
    match ip {
        None => None,
        Some(iv) => {
            if !fp_all || ip_end + (u.len() - fp_start) < 1 {
                return None;
            }
            match fp {
                None => None,
                Some(fv) => {
                    let flen = fp_end - fp_start;
                    let scale = pow10_exec(FRACTION_DIGITS - flen);
                    proof {
                        lemma_pow10_values();
                        lemma_pow10_split(flen as nat, (FRACTION_DIGITS - flen) as nat);
                        lemma_digits_below(f);
                        assert(fv * scale < 1000000000) by (nonlinear_arith)
                            requires fv < pow10(flen as nat), pow10(flen as nat) * scale == 1000000000;
                        lemma_digits_below(ipv);
                        lemma_pow10_le(ip_end as nat, 12);
                        assert(iv < 1000000000000);
                    }
                    let secs: u64 = iv * 3600 + (fv * scale * 3600) / 1000000000;
                    Some(secs)
                },
            }
        },
    }
}

/// Parse a duration such as `1.5h` into seconds (truncated toward zero).
pub fn parse_duration(s: &str) -> (r: Option<i64>)
    ensures
        match duration_value(s@) {
            Some(v) => r == Some(v as i64) && -4000000000000000 < v < 4000000000000000,
            None => r is None,
        },
{
    let cs = chars_of(s);
    duration_of_chars(&cs)
}

/// Parse a duration given as characters.
pub fn duration_of_chars(cs: &[char]) -> (r: Option<i64>)
    ensures
        match duration_value(cs@) {
            Some(v) => r == Some(v as i64) && -4000000000000000 < v < 4000000000000000,
            None => r is None,
        },
{
    let t = trimmed(cs);
    let b = strip_h_exec(&t);
    let signed = b.len() > 0 && (b[0] == '-' || b[0] == '+');
    let from: usize = if signed { 1 } else { 0 };
    let u = crate::text::slice_of(&b, from, b.len());
    assert(signed ==> u@ == b@.drop_first());
    assert(!signed ==> u@ == b@);
    match parse_unsigned(&u) {
        None => None,
        Some(secs) => {
            if signed && b[0] == '-' {
                Some(-(secs as i64))
            } else {
                Some(secs as i64)
            }
        },
    }
}

fn all_digits_exec(s: &Vec<char>, from: usize, to: usize) -> (r: bool)
    requires
        from <= to <= s@.len(),
    ensures
        r == all_digits(s@.subrange(from as int, to as int)),
{
    let mut i: usize = from;
    while i < to
        invariant
            from <= i <= to <= s@.len(),
            forall|j: int| from <= j < i ==> is_digit(#[trigger] s@[j]),
        decreases to - i,
    {
        if !('0' <= s[i] && s[i] <= '9') {
            assert(s@.subrange(from as int, to as int)[i - from] == s@[i as int]);
            return false;
        }
        i = i + 1;
    }
    assert forall|j: int| 0 <= j < to - from implies is_digit(#[trigger] s@.subrange(from as int, to as int)[j]) by {
        assert(s@.subrange(from as int, to as int)[j] == s@[j + from]);
    }
    true
}

fn pow10_exec(k: usize) -> (r: u64)
    requires
        k <= 9,
    ensures
        r == pow10(k as nat),
{
    let mut r: u64 = 1;
    let mut i: usize = 0;
    while i < k
        invariant
            i <= k <= 9,
            r == pow10(i as nat),
        decreases k - i,
    {
        proof {
            lemma_pow10_le((i + 1) as nat, 9);
            lemma_pow10_values();
        }
        r = r * 10;
        i = i + 1;
    }
    r
}

proof fn lemma_pow10_values()
    ensures
        pow10(9) == 1000000000,
        pow10(12) == 1000000000000,
{
    reveal_with_fuel(pow10, 13);
}

proof fn lemma_pow10_split(a: nat, b: nat)
    ensures
        pow10(a) * pow10(b) == pow10(a + b),
    decreases a,
{
    if a == 0 {
        assert(pow10(0) == 1);
        assert(a + b == b);
    } else {
        lemma_pow10_split((a - 1) as nat, b);
        assert(((a - 1) as nat + b) as nat == (a + b - 1) as nat);
        assert(pow10(a + b) == 10 * pow10((a + b - 1) as nat));
        assert(pow10(a) * pow10(b) == 10 * (pow10((a - 1) as nat) * pow10(b))) by (nonlinear_arith)
            requires pow10(a) == 10 * pow10((a - 1) as nat);
    }
}

proof fn lemma_digits_below(s: Seq<char>)
    requires
        all_digits(s),
    ensures
        digits_value(s) < pow10(s.len()),
    decreases s.len(),
{
    if s.len() > 0 {
        let t = s.drop_last();
        assert forall|i: int| 0 <= i < t.len() implies is_digit(#[trigger] t[i]) by {
            assert(t[i] == s[i]);
        }
        lemma_digits_below(t);
        assert(is_digit(s[s.len() - 1]));
        assert(digits_value(t) * 10 + digit_value(s.last()) < pow10(s.len())) by (nonlinear_arith)
            requires digits_value(t) < pow10(t.len()), digit_value(s.last()) < 10,
                pow10(s.len()) == 10 * pow10(t.len());
    }
}


proof fn lemma_digit_char(d: nat)
    requires
        d < 10,
    ensures
        is_digit(digit_char(d)),
        digit_value(digit_char(d)) == d,
{
}

proof fn lemma_nat_text(n: nat, k: nat)
    requires
        n < pow10(k),
    ensures
        all_digits(nat_text(n)),
        digits_value(nat_text(n)) == n,
        1 <= nat_text(n).len() <= if k == 0 { 1 } else { k },
    decreases n,
{
    if n < 10 {
        lemma_digit_char(n);
        assert(nat_text(n) == seq![digit_char(n)]);
        assert(nat_text(n).drop_last() == Seq::<char>::empty());
        assert(nat_text(n).last() == digit_char(n));
        assert(digits_value(nat_text(n)) == digits_value(Seq::<char>::empty()) * 10 + digit_value(digit_char(n)));
        if k == 0 {
            assert(pow10(0) == 1);
        }
    } else {
        assert(k > 0) by {
            if k == 0 {
                assert(pow10(0) == 1);
            }
        }
        assert(n / 10 < pow10((k - 1) as nat)) by {
            assert(pow10(k) == 10 * pow10((k - 1) as nat));
        }
        lemma_nat_text(n / 10, (k - 1) as nat);
        lemma_digit_char(n % 10);
        let t = nat_text(n);
        assert(t.drop_last() == nat_text(n / 10));
        assert(t.last() == digit_char(n % 10));
        assert(digits_value(t) == digits_value(nat_text(n / 10)) * 10 + digit_value(digit_char(n % 10)));
        assert((n / 10) * 10 + n % 10 == n);
        assert forall|i: int| 0 <= i < t.len() implies is_digit(#[trigger] t[i]) by {
            if i < t.len() - 1 {
                assert(t[i] == nat_text(n / 10)[i]);
            }
        }
        if k == 1 {
            assert(pow10(1) == 10) by {
                reveal_with_fuel(pow10, 2);
            }
        }
    }
}

proof fn lemma_first_dot(a: Seq<char>, rest: Seq<char>)
    requires
        all_digits(a),
    ensures
        first_index(a + seq!['.'] + rest, '.') == Some(a.len() as int),
    decreases a.len(),
{
    let s = a + seq!['.'] + rest;
    if a.len() == 0 {
        assert(s[0] == '.');
    } else {
        assert(s[0] == a[0]);
        assert(is_digit(a[0]));
        let a2 = a.drop_first();
        assert(all_digits(a2)) by {
            assert forall|i: int| 0 <= i < a2.len() implies is_digit(#[trigger] a2[i]) by {
                assert(a2[i] == a[i + 1]);
            }
        }
        assert(s.drop_first() == a2 + seq!['.'] + rest);
        lemma_first_dot(a2, rest);
    }
}

proof fn lemma_no_blank_ends(s: Seq<char>)
    requires
        s.len() > 0,
        !is_blank(s[0]),
        !is_blank(s.last()),
    ensures
        trim(s) == s,
{
    assert(trim_start(s) == s);
    assert(trim_end(s) == s);
}

proof fn lemma_two_digits(r: nat)
    requires
        r < 100,
    ensures
        all_digits(seq![digit_char(r / 10), digit_char(r % 10)]),
        digits_value(seq![digit_char(r / 10), digit_char(r % 10)]) == r,
{
    let frac = seq![digit_char(r / 10), digit_char(r % 10)];
    lemma_digit_char(r / 10);
    lemma_digit_char(r % 10);
    let one = seq![digit_char(r / 10)];
    assert(frac.drop_last() == one);
    assert(one.drop_last() == Seq::<char>::empty());
    assert(digits_value(one) == digits_value(Seq::<char>::empty()) * 10 + digit_value(one.last()));
    assert(digits_value(one) == r / 10);
    assert(digits_value(frac) == digits_value(one) * 10 + digit_value(frac.last()));
}

proof fn lemma_unsigned_num(q: nat, r: nat)
    requires
        q < 1000000000000,
        r < 100,
    ensures
        unsigned_value(nat_text(q) + seq!['.', digit_char(r / 10), digit_char(r % 10)]) == Some((36 * (100 * q + r)) as int),
        is_digit(nat_text(q)[0]),
        is_digit(digit_char(r % 10)),
{
    lemma_pow10_values();
    lemma_nat_text(q, 12);
    lemma_two_digits(r);
    let frac = seq![digit_char(r / 10), digit_char(r % 10)];
    let num = nat_text(q) + seq!['.', digit_char(r / 10), digit_char(r % 10)];
    assert(num == nat_text(q) + seq!['.'] + frac);
    lemma_first_dot(nat_text(q), frac);
    assert(num.subrange(0, nat_text(q).len() as int) == nat_text(q));
    assert(num.subrange(nat_text(q).len() as int + 1, num.len() as int) == frac);
    assert(int_part(num) == nat_text(q));
    assert(frac_part(num) == frac);
    assert(pow10(7) == 10000000) by {
        reveal_with_fuel(pow10, 8);
    }
    assert(unsigned_hours_secs(nat_text(q), frac) == q * 3600 + (r * 10000000 * 3600) / 1000000000);
    assert((r * 10000000 * 3600) / 1000000000 == r * 36) by (nonlinear_arith);
    assert(unsigned_value(num) == Some(unsigned_hours_secs(nat_text(q), frac)));
}

/// Writing a duration as hours with two decimals and reading it back gives
/// the same number of seconds, when it is a whole number of hundredths of
/// an hour (36 s) and has at most twelve digits of whole hours.
#[verifier::rlimit(60)]
pub proof fn lemma_hours_round_trip(secs: int)
    requires
        secs % 36 == 0,
        -3600000000000000 < secs < 3600000000000000,
    ensures
        crate::hours::duration_value(hours_text(secs) + "h"@) == Some(secs),
        (hours_text(secs) + "h"@).len() > 0,
        !is_blank((hours_text(secs) + "h"@)[0]),
        (hours_text(secs) + "h"@).last() == 'h',
{
    reveal_strlit("h");
    let m = if secs < 0 { -secs } else { secs };
    let c = centi_hours(secs);
    assert(c == m / 36);
    let q = c / 100;
    let r = c % 100;
    assert(36 * (100 * q + r) == m) by (nonlinear_arith)
        requires q == c / 100, r == c % 100, c == m / 36, m % 36 == 0, m >= 0;
    lemma_unsigned_num(q, r);
    let num = nat_text(q) + seq!['.', digit_char(r / 10), digit_char(r % 10)];
    let sign = if secs < 0 { seq!['-'] } else { Seq::<char>::empty() };
    let body = sign + num;
    let s = hours_text(secs) + "h"@;
    assert(hours_text(secs) == body);
    assert(s == body.push('h'));
    assert(s[0] == if secs < 0 { '-' } else { nat_text(q)[0] });
    lemma_no_blank_ends(s);
    assert(s.drop_last() == body);
    assert(body.last() == digit_char(r % 10));
    assert(strip_h(body) == body);
    assert(strip_h(s) == body);
    if secs < 0 {
        assert(body.drop_first() == num);
    } else {
        assert(body == num);
    }
}

} // verus!
