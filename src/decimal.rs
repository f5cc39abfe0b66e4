//! Exact decimal numbers: what readings and log rows carry in place of
//! binary floating point.
use vstd::prelude::*;
use crate::text::{
    all_digits, chars_of, lemma_nat_text, lemma_padded_text, lemma_pow10_positive, nat_text,
    numeral_len, padded_text, push_char, push_nat, push_padded, digits_value, is_digit, lemma_digits_value_bound,
    lemma_digits_value_concat, lemma_pow10_18, lemma_pow10_add, lemma_pow10_monotone, pow10,
};

verus! {

/// Most digits a decimal may have, before and after the point together.
pub const MAX_DIGITS: usize = 18;

/// Most digits a decimal may have after the point.
pub const MAX_SCALE: u32 = 17;

/// The number `mantissa / 10^scale`.
#[derive(Clone, Copy, Debug, PartialEq, Eq, Structural)]
pub struct Decimal {
    pub mantissa: i64,
    pub scale: u32,
}

pub open spec fn abs(x: int) -> nat {
    if x < 0 {
        (-x) as nat
    } else {
        x as nat
    }
}

impl Decimal {
    pub open spec fn wf(&self) -> bool {
        self.scale <= MAX_SCALE && abs(self.mantissa as int) < pow10(MAX_DIGITS as nat)
    }
}

/// `a` and `b` denote the same number.
pub open spec fn same_value(a: Decimal, b: Decimal) -> bool {
    a.mantissa * pow10(b.scale as nat) == b.mantissa * pow10(a.scale as nat)
}

pub proof fn lemma_same_value_symmetric(a: Decimal, b: Decimal)
    requires
        same_value(a, b),
    ensures
        same_value(b, a),
{
}

/// The number `a` denotes is at most the one `b` denotes.
pub open spec fn value_le(a: Decimal, b: Decimal) -> bool {
    a.mantissa * pow10(b.scale as nat) <= b.mantissa * pow10(a.scale as nat)
}

/// The index of the first `c` in `s`, or -1.
pub open spec fn index_of(s: Seq<char>, c: char) -> int
    decreases s.len(),
{
    if s.len() == 0 {
        -1
    } else if s[0] == c {
        0
    } else {
        let r = index_of(s.drop_first(), c);
        if r < 0 {
            -1
        } else {
            r + 1
        }
    }
}

/// Whether `c` starts an exponent.
pub open spec fn is_exp_marker(c: char) -> bool {
    c == 'e' || c == 'E'
}

/// The index of the first exponent marker in `s`, or -1.
pub open spec fn exp_index(s: Seq<char>) -> int
    decreases s.len(),
{
    if s.len() == 0 {
        -1
    } else if is_exp_marker(s[0]) {
        0
    } else {
        let r = exp_index(s.drop_first());
        if r < 0 {
            -1
        } else {
            r + 1
        }
    }
}

pub open spec fn has_sign(s: Seq<char>) -> bool {
    s.len() > 0 && (s[0] == '-' || s[0] == '+')
}

pub open spec fn is_negative_text(s: Seq<char>) -> bool {
    s.len() > 0 && s[0] == '-'
}

/// The characters after an optional leading sign.
pub open spec fn unsigned_part(s: Seq<char>) -> Seq<char> {
    if has_sign(s) {
        s.drop_first()
    } else {
        s
    }
}

/// The characters before the exponent marker, if any.
pub open spec fn number_part(body: Seq<char>) -> Seq<char> {
    let k = exp_index(body);
    if k < 0 {
        body
    } else {
        body.subrange(0, k)
    }
}

/// The characters after the exponent marker (empty without one).
pub open spec fn exponent_part(body: Seq<char>) -> Seq<char> {
    let k = exp_index(body);
    if k < 0 {
        Seq::empty()
    } else {
        body.subrange(k + 1, body.len() as int)
    }
}

pub open spec fn integer_digits(num: Seq<char>) -> Seq<char> {
    let k = index_of(num, '.');
    if k < 0 {
        num
    } else {
        num.subrange(0, k)
    }
}

pub open spec fn fraction_digits(num: Seq<char>) -> Seq<char> {
    let k = index_of(num, '.');
    if k < 0 {
        Seq::empty()
    } else {
        num.subrange(k + 1, num.len() as int)
    }
}

/// The digits of a number part (`D*`, optionally `.` and `D*`, with at
/// least one and at most `MAX_DIGITS` digits): their value and how many
/// follow the point.
pub open spec fn mantissa_digits(num: Seq<char>) -> Option<(nat, nat)> {
    let ip = integer_digits(num);
    let fp = fraction_digits(num);
    if all_digits(ip) && all_digits(fp) && 1 <= ip.len() + fp.len() <= MAX_DIGITS {
        Some((digits_value(ip + fp), fp.len()))
    } else {
        None
    }
}

/// The value of an exponent: an optional sign and at least one digit.
pub open spec fn exponent_value(e: Seq<char>) -> Option<int> {
    let digits = unsigned_part(e);
    if digits.len() >= 1 && all_digits(digits) {
        Some(
            if is_negative_text(e) {
                -digits_value(digits)
            } else {
                digits_value(digits) as int
            },
        )
    } else {
        None
    }
}

/// The decimal `±d * 10^(e - fl)`, when it can be held: zero always; a
/// whole number below `10^18`; else at most `MAX_SCALE` digits after the
/// point.
pub open spec fn assemble(neg: bool, d: nat, fl: nat, e: int) -> Option<Decimal> {
    let t = e - fl;
    if d == 0 {
        Some(Decimal { mantissa: 0, scale: 0 })
    } else if t >= 0 {
        if d * pow10(t as nat) < pow10(MAX_DIGITS as nat) {
            Some(
                Decimal {
                    mantissa: (if neg {
                        -(d * pow10(t as nat))
                    } else {
                        d * pow10(t as nat) as int
                    }) as i64,
                    scale: 0,
                },
            )
        } else {
            None
        }
    } else if -t <= MAX_SCALE {
        Some(
            Decimal {
                mantissa: (if neg {
                    -d
                } else {
                    d as int
                }) as i64,
                scale: (-t) as u32,
            },
        )
    } else {
        None
    }
}

/// The decimal that a text in the finite float grammar denotes: an
/// optional sign, digits with an optional point (at least one digit, at
/// most `MAX_DIGITS`), and an optional exponent (`e` or `E`, an optional
/// sign, digits); `None` for other texts and for values it cannot hold.
pub open spec fn parse_decimal_spec(s: Seq<char>) -> Option<Decimal> {
    let body = unsigned_part(s);
    match mantissa_digits(number_part(body)) {
        None => None,
        Some((d, fl)) => if exp_index(body) < 0 {
            assemble(is_negative_text(s), d, fl, 0)
        } else {
            match exponent_value(exponent_part(body)) {
                None => None,
                Some(e) => assemble(is_negative_text(s), d, fl, e),
            }
        },
    }
}

/// The same decimal with trailing zeros after the point removed.
pub open spec fn normalized(d: Decimal) -> Decimal
    decreases d.scale,
{
    if d.scale > 0 && d.mantissa % 10 == 0 {
        normalized(Decimal { mantissa: (d.mantissa / 10) as i64, scale: (d.scale - 1) as u32 })
    } else {
        d
    }
}

/// How a normalized decimal is written: sign, integer digits, and the
/// fraction digits (exactly `scale` of them) after a point when there are any.
pub open spec fn plain_text(d: Decimal) -> Seq<char> {
    let a = abs(d.mantissa as int);
    let p = pow10(d.scale as nat);
    let sign = if d.mantissa < 0 {
        seq!['-']
    } else {
        Seq::<char>::empty()
    };
    if d.scale == 0 {
        sign + nat_text(a)
    } else {
        sign + nat_text(a / p) + seq!['.'] + padded_text(a % p, d.scale as nat)
    }
}

/// The text of a decimal: shortest form, no trailing zeros after the point.
pub open spec fn decimal_text(d: Decimal) -> Seq<char> {
    plain_text(normalized(d))
}

pub proof fn lemma_normalized(d: Decimal)
    requires
        d.wf(),
    ensures
        normalized(d).wf(),
        same_value(d, normalized(d)),
        normalized(d).scale == 0 || normalized(d).mantissa % 10 != 0,
    decreases d.scale,
{
    if d.scale > 0 && d.mantissa % 10 == 0 {
        let e = Decimal { mantissa: (d.mantissa / 10) as i64, scale: (d.scale - 1) as u32 };
        assert(e.mantissa * 10 == d.mantissa);
        assert(abs(e.mantissa as int) <= abs(d.mantissa as int));
        lemma_normalized(e);
        let n = normalized(d);
        let pe = pow10(e.scale as nat);
        let pn = pow10(n.scale as nat);
        assert(pow10(d.scale as nat) == 10 * pe);
        assert(e.mantissa * pn == n.mantissa * pe);
        assert(d.mantissa * pn == n.mantissa * (10 * pe)) by (nonlinear_arith)
            requires
                e.mantissa * pn == n.mantissa * pe,
                e.mantissa * 10 == d.mantissa,
        ;
    } else {
        assert(d.mantissa * pow10(d.scale as nat) == d.mantissa * pow10(d.scale as nat));
    }
}

/// Reading back the text of a decimal gives the same decimal, normalized.
pub proof fn lemma_text_round_trip(d: Decimal)
    requires
        d.wf(),
    ensures
        parse_decimal_spec(decimal_text(d)) == Some(normalized(d)),
        same_value(d, normalized(d)),
{
    lemma_normalized(d);
    let n = normalized(d);
    let a = abs(n.mantissa as int);
    let sc = n.scale as nat;
    let p = pow10(sc);
    lemma_pow10_positive(sc);
    lemma_pow10_18();
    let sign = if n.mantissa < 0 {
        seq!['-']
    } else {
        Seq::<char>::empty()
    };
    let (ip_t, fp_t) = text_parts(n);
    let body = if sc == 0 {
        ip_t
    } else {
        ip_t + seq!['.'] + fp_t
    };
    lemma_text_parts(n);
    assert(plain_text(n) =~= sign + body);
    assert(is_digit(body[0]));
    assert(unsigned_part(plain_text(n)) =~= body);
    assert(is_negative_text(plain_text(n)) == (n.mantissa < 0));
    assert forall|j: int| 0 <= j < ip_t.len() implies body[j] != '.' by {
        assert(body[j] == ip_t[j]);
        assert(is_digit(ip_t[j]));
    }
    assert forall|j: int| 0 <= j < body.len() implies !is_exp_marker(body[j]) by {
        if j < ip_t.len() {
            assert(body[j] == ip_t[j]);
            assert(is_digit(ip_t[j]));
        } else if j > ip_t.len() {
            assert(body[j] == fp_t[j - ip_t.len() - 1]);
            assert(is_digit(fp_t[j - ip_t.len() - 1]));
        }
    }
    lemma_exp_index(body, body.len() as int);
    assert(number_part(body) == body);
    if sc == 0 {
        lemma_index_of(body, '.', body.len() as int);
        assert(integer_digits(body) =~= ip_t);
        assert(fraction_digits(body) =~= fp_t);
        assert(ip_t + fp_t =~= ip_t);
    } else {
        lemma_index_of(body, '.', ip_t.len() as int);
        assert(integer_digits(body) =~= ip_t);
        assert(fraction_digits(body) =~= fp_t);
    }
    assert(mantissa_digits(body) == Some((a, sc)));
    if a == 0 {
        assert(n.mantissa == 0);
        assert(n.scale == 0);
    } else if sc == 0 {
        assert(pow10(0) == 1);
        assert(a * pow10(0) == a);
    }
}

proof fn lemma_exp_index(s: Seq<char>, k: int)
    requires
        0 <= k <= s.len(),
        forall|j: int| 0 <= j < k ==> !is_exp_marker(#[trigger] s[j]),
        k < s.len() ==> is_exp_marker(s[k]),
    ensures
        exp_index(s) == if k < s.len() {
            k
        } else {
            -1
        },
    decreases s.len(),
{
    if s.len() > 0 && k > 0 {
        assert(!is_exp_marker(s[0]));
        lemma_exp_index(s.drop_first(), k - 1);
    }
}

/// The integer digits and the fraction digits of the text of a normalized decimal.
pub open spec fn text_parts(n: Decimal) -> (Seq<char>, Seq<char>) {
    let a = abs(n.mantissa as int);
    let p = pow10(n.scale as nat);
    if n.scale == 0 {
        (nat_text(a), Seq::<char>::empty())
    } else {
        (nat_text(a / p), padded_text(a % p, n.scale as nat))
    }
}

proof fn lemma_text_parts(n: Decimal)
    requires
        n.wf(),
    ensures
        all_digits(text_parts(n).0),
        all_digits(text_parts(n).1),
        text_parts(n).0.len() >= 1,
        text_parts(n).1.len() == n.scale,
        text_parts(n).0.len() + text_parts(n).1.len() <= MAX_DIGITS,
        digits_value(text_parts(n).0 + text_parts(n).1) == abs(n.mantissa as int),
{
    let a = abs(n.mantissa as int);
    let sc = n.scale as nat;
    let p = pow10(sc);
    lemma_pow10_positive(sc);
    lemma_pow10_18();
    let (ip_t, fp_t) = text_parts(n);
    if sc == 0 {
        lemma_nat_text(a);
        assert(ip_t + fp_t =~= ip_t);
        if ip_t.len() > MAX_DIGITS {
            lemma_pow10_monotone(MAX_DIGITS as nat, (ip_t.len() - 1) as nat);
        }
    } else {
        lemma_nat_text(a / p);
        lemma_padded_text(a % p, sc);
        lemma_pow10_monotone(1, sc);
        assert(pow10(1) == 10) by {
            reveal_with_fuel(pow10, 2);
        }
        assert(a == (a / p) * p + a % p) by (nonlinear_arith)
            requires
                p > 0,
        ;
        lemma_digits_value_concat(ip_t, fp_t);
        if ip_t.len() > 1 {
            lemma_pow10_add((ip_t.len() - 1) as nat, sc);
            assert(pow10((ip_t.len() - 1) as nat) * p <= (a / p) * p) by (nonlinear_arith)
                requires
                    pow10((ip_t.len() - 1) as nat) <= a / p,
                    p > 0,
            ;
            if ip_t.len() + sc > MAX_DIGITS {
                lemma_pow10_monotone(MAX_DIGITS as nat, (ip_t.len() - 1 + sc) as nat);
            }
        }
    }
}

pub proof fn lemma_index_of(s: Seq<char>, c: char, k: int)
    requires
        0 <= k <= s.len(),
        forall|j: int| 0 <= j < k ==> s[j] != c,
        k < s.len() ==> s[k] == c,
    ensures
        index_of(s, c) == if k < s.len() {
            k
        } else {
            -1
        },
    decreases s.len(),
{
    if s.len() > 0 && k > 0 {
        lemma_index_of(s.drop_first(), c, k - 1);
    }
}

/// `10^n` as a machine integer.
pub fn pow10_u64(n: u32) -> (r: u64)
    requires
        n <= MAX_DIGITS,
    ensures
        r == pow10(n as nat),
{
    let mut r: u64 = 1;
    let mut i: u32 = 0;
    while i < n
        invariant
            i <= n <= MAX_DIGITS,
            r == pow10(i as nat),
        decreases n - i,
    {
        proof {
            lemma_pow10_monotone((i + 1) as nat, MAX_DIGITS as nat);
            lemma_pow10_18();
        }
        r = r * 10;
        i = i + 1;
    }
    r
}

/// The first position in `from..end` that holds `c`, or `end`.
fn find_char(v: &Vec<char>, from: usize, end: usize, c: char) -> (r: usize)
    requires
        from <= end <= v.len(),
    ensures
        from <= r <= end,
        forall|j: int| from <= j < r ==> v@[j] != c,
        r < end ==> v@[r as int] == c,
{
    let mut i = from;
    while i < end
        invariant
            from <= i <= end <= v.len(),
            forall|j: int| from <= j < i ==> v@[j] != c,
        decreases end - i,
    {
        if v[i] == c {
            return i;
        }
        i = i + 1;
    }
    i
}

/// The first position at or after `from` that holds an exponent marker, or
/// the end.
fn find_exp(v: &Vec<char>, from: usize) -> (r: usize)
    requires
        from <= v.len(),
    ensures
        from <= r <= v.len(),
        forall|j: int| from <= j < r ==> !is_exp_marker(#[trigger] v@[j]),
        r < v.len() ==> is_exp_marker(v@[r as int]),
{
    let mut i = from;
    while i < v.len()
        invariant
            from <= i <= v.len(),
            forall|j: int| from <= j < i ==> !is_exp_marker(#[trigger] v@[j]),
        decreases v.len() - i,
    {
        if v[i] == 'e' || v[i] == 'E' {
            return i;
        }
        i = i + 1;
    }
    i
}

/// The value of the digits in `v[start..end]`, if they are all digits.
fn digits_in(v: &Vec<char>, start: usize, end: usize) -> (r: Option<u64>)
    requires
        start <= end <= v.len(),
        end - start <= MAX_DIGITS,
    ensures
        r is Some <==> all_digits(v@.subrange(start as int, end as int)),
        r is Some ==> r->0 as int == digits_value(v@.subrange(start as int, end as int)),
{
    let mut acc: u64 = 0;
    let mut i = start;
    while i < end
        invariant
            start <= i <= end <= v.len(),
            end - start <= MAX_DIGITS,
            all_digits(v@.subrange(start as int, i as int)),
            acc == digits_value(v@.subrange(start as int, i as int)),
            acc < pow10((i - start) as nat),
        decreases end - i,
    {
        let c = v[i];
        if !('0' <= c && c <= '9') {
            proof {
                let sub = v@.subrange(start as int, end as int);
                assert(sub[i - start] == c);
            }
            return None;
        }
        let ghost prev = v@.subrange(start as int, i as int);
        let ghost next = v@.subrange(start as int, i + 1);
        proof {
            assert(next.drop_last() =~= prev);
            assert(next.last() == c);
            assert forall|j: int| 0 <= j < next.len() implies is_digit(#[trigger] next[j]) by {
                if j < prev.len() {
                    assert(next[j] == prev[j]);
                }
            }
            lemma_pow10_monotone((i + 1 - start) as nat, MAX_DIGITS as nat);
            lemma_pow10_18();
            assert(pow10((i + 1 - start) as nat) == 10 * pow10((i - start) as nat));
        }
        acc = acc * 10 + ((c as u32) - 48) as u64;
        i = i + 1;
    }
    assert(v@.subrange(start as int, i as int) =~= v@.subrange(start as int, end as int));
    Some(acc)
}

proof fn lemma_join_digits(ip: Seq<char>, fp: Seq<char>)
    requires
        all_digits(ip),
        all_digits(fp),
        ip.len() + fp.len() <= MAX_DIGITS,
    ensures
        all_digits(ip + fp),
        digits_value(ip + fp) == digits_value(ip) * pow10(fp.len() as nat) + digits_value(fp),
        digits_value(ip + fp) < 1000000000000000000,
{
    lemma_digits_value_concat(ip, fp);
    assert forall|j: int| 0 <= j < (ip + fp).len() implies is_digit(#[trigger] (ip + fp)[j]) by {
        if j < ip.len() {
            assert((ip + fp)[j] == ip[j]);
        } else {
            assert((ip + fp)[j] == fp[j - ip.len()]);
        }
    }
    lemma_digits_value_bound(ip + fp);
    lemma_pow10_monotone((ip + fp).len() as nat, MAX_DIGITS as nat);
    lemma_pow10_18();
}

impl Decimal {
    /// Reads a decimal in the finite float grammar (see
    /// `parse_decimal_spec`); `None` for any other text and for values out
    /// of range.
    pub fn parse(s: &str) -> (r: Option<Decimal>)
        ensures
            r == parse_decimal_spec(s@),
            r is Some ==> r->0.wf(),
    {
        let v = chars_of(s);
        Decimal::parse_chars(&v)
    }

    /// Reads a decimal from a sequence of characters, as `parse` does.
    pub fn parse_chars(v: &Vec<char>) -> (r: Option<Decimal>)
        ensures
            r == parse_decimal_spec(v@),
            r is Some ==> r->0.wf(),
    {
        let n = v.len();
        let neg = n > 0 && v[0] == '-';
        let start: usize = if n > 0 && (v[0] == '-' || v[0] == '+') {
            1
        } else {
            0
        };
        let ghost body = unsigned_part(v@);
        assert(body =~= v@.subrange(start as int, n as int));
        let ek = find_exp(v, start);
        proof {
            assert forall|j: int| 0 <= j < ek - start implies !is_exp_marker(#[trigger] body[j]) by {
                assert(body[j] == v@[start + j]);
            }
            lemma_exp_index(body, ek - start);
        }
        assert(number_part(body) =~= v@.subrange(start as int, ek as int));
        let (d, fl) = match mantissa_in(v, start, ek) {
            Some(m) => m,
            None => {
                return None;
            },
        };
        if ek < n {
            assert(exponent_part(body) =~= v@.subrange(ek + 1, n as int));
            match exponent_in(v, ek + 1, n) {
                Some(ec) => {
                    let ghost e = exponent_value(exponent_part(body))->0;
                    assemble_exec(neg, d, fl, ec, Ghost(e))
                },
                None => None,
            }
        } else {
            assemble_exec(neg, d, fl, 0, Ghost(0))
        }
    }
}

/// The digits of the number part `v[start..end]`, as `mantissa_digits`.
fn mantissa_in(v: &Vec<char>, start: usize, end: usize) -> (r: Option<(u64, u32)>)
    requires
        start <= end <= v.len(),
    ensures
        match mantissa_digits(v@.subrange(start as int, end as int)) {
            Some((d, fl)) => r is Some && (r->0).0 as nat == d && (r->0).1 as nat == fl,
            None => r is None,
        },
        r is Some ==> (r->0).0 < 1000000000000000000 && (r->0).1 <= MAX_DIGITS,
{
    let ghost num = v@.subrange(start as int, end as int);
    let k = find_char(v, start, end, '.');
    proof {
        assert forall|j: int| 0 <= j < k - start implies num[j] != '.' by {
            assert(num[j] == v@[start + j]);
        }
        lemma_index_of(num, '.', k - start);
    }
    let ghost ip = integer_digits(num);
    let ghost fp = fraction_digits(num);
    let frac_start: usize = if k < end {
        k + 1
    } else {
        end
    };
    assert(ip =~= v@.subrange(start as int, k as int));
    assert(fp =~= v@.subrange(frac_start as int, end as int));
    let il = k - start;
    let fl = end - frac_start;
    if il + fl < 1 || il + fl > MAX_DIGITS {
        return None;
    }
    let iv = digits_in(v, start, k);
    let fv = digits_in(v, frac_start, end);
    match (iv, fv) {
        (Some(a), Some(b)) => {
            let p = pow10_u64(fl as u32);
            proof {
                lemma_join_digits(ip, fp);
                assert(a * p + b == digits_value(ip + fp));
            }
            Some((a * p + b, fl as u32))
        },
        _ => None,
    }
}

/// `x` limited to the range from -1000 to 1000.
pub open spec fn clamp_exponent(x: int) -> int {
    if x > 1000 {
        1000
    } else if x < -1000 {
        -1000
    } else {
        x
    }
}

/// The exponent written in `v[start..end]`, limited to the range from -1000
/// to 1000 (beyond which every nonzero value is out of range anyway).
fn exponent_in(v: &Vec<char>, start: usize, end: usize) -> (r: Option<i64>)
    requires
        start <= end <= v.len(),
    ensures
        r is Some <==> exponent_value(v@.subrange(start as int, end as int)) is Some,
        r is Some ==> r->0 == clamp_exponent(
            exponent_value(v@.subrange(start as int, end as int))->0,
        ),
{
    let ghost e = v@.subrange(start as int, end as int);
    let neg = start < end && v[start] == '-';
    let ds: usize = if start < end && (v[start] == '-' || v[start] == '+') {
        start + 1
    } else {
        start
    };
    let ghost digits = unsigned_part(e);
    assert(digits =~= v@.subrange(ds as int, end as int));
    if ds >= end {
        return None;
    }
    let mut acc: u64 = 0;
    let mut i = ds;
    assert(v@.subrange(ds as int, ds as int) =~= Seq::<char>::empty());
    while i < end
        invariant
            ds <= i <= end <= v.len(),
            start <= ds,
            e == v@.subrange(start as int, end as int),
            digits == unsigned_part(e),
            digits == v@.subrange(ds as int, end as int),
            all_digits(v@.subrange(ds as int, i as int)),
            acc as int == if digits_value(v@.subrange(ds as int, i as int)) > 1000 {
                1000
            } else {
                digits_value(v@.subrange(ds as int, i as int)) as int
            },
        decreases end - i,
    {
        let c = v[i];
        if !('0' <= c && c <= '9') {
            proof {
                assert(digits[i - ds] == c);
            }
            return None;
        }
        let ghost prev = v@.subrange(ds as int, i as int);
        let ghost next = v@.subrange(ds as int, i + 1);
        proof {
            assert(next.drop_last() =~= prev);
            assert(next.last() == c);
            assert forall|j: int| 0 <= j < next.len() implies is_digit(#[trigger] next[j]) by {
                if j < prev.len() {
                    assert(next[j] == prev[j]);
                }
            }
        }
        let x = acc * 10 + ((c as u32) - 48) as u64;
        acc = if x > 1000 {
            1000
        } else {
            x
        };
        i = i + 1;
    }
    assert(v@.subrange(ds as int, end as int) =~= digits);
    let a = acc as i64;
    Some(if neg { -a } else { a })
}

/// Builds `±d * 10^(e - fl)` from the exponent limited as `exponent_in`
/// gives it.
fn assemble_exec(neg: bool, d: u64, fl: u32, ec: i64, e: Ghost<int>) -> (r: Option<Decimal>)
    requires
        d < 1000000000000000000,
        fl <= MAX_DIGITS,
        ec == clamp_exponent(e@),
    ensures
        r == assemble(neg, d as nat, fl as nat, e@),
        r is Some ==> r->0.wf(),
{
    proof {
        lemma_pow10_18();
    }
    if d == 0 {
        return Some(Decimal { mantissa: 0, scale: 0 });
    }
    let t: i64 = ec - fl as i64;
    let ghost tr = e@ - fl;
    if t >= 0 {
        if t > 17 {
            proof {
                assert(tr >= 18);
                lemma_pow10_monotone(18, tr as nat);
                assert(d * pow10(tr as nat) >= pow10(tr as nat)) by (nonlinear_arith)
                    requires
                        d >= 1,
                ;
            }
            return None;
        }
        assert(tr == t);
        let lim = pow10_u64((18 - t) as u32);
        let f = pow10_u64(t as u32);
        proof {
            lemma_pow10_add(t as nat, (18 - t) as nat);
            assert(pow10(18) == f * lim);
            lemma_pow10_positive(t as nat);
            assert((d * f < f * lim) == (d < lim)) by (nonlinear_arith)
                requires
                    f > 0,
            ;
        }
        if d < lim {
            let m = (d * f) as i64;
            Some(Decimal { mantissa: if neg { -m } else { m }, scale: 0 })
        } else {
            None
        }
    } else {
        if t < -17 {
            assert(tr < -17);
            return None;
        }
        assert(tr == t);
        let m = d as i64;
        Some(Decimal { mantissa: if neg { -m } else { m }, scale: (-t) as u32 })
    }
}

impl Decimal {
    /// The same number with trailing zeros after the point removed.
    pub fn normalize(&self) -> (r: Decimal)
        requires
            self.wf(),
        ensures
            r == normalized(*self),
            r.wf(),
    {
        let mut d = *self;
        proof {
            lemma_normalized(*self);
        }
        while d.scale > 0 && d.mantissa % 10 == 0
            invariant
                d.wf(),
                normalized(d) == normalized(*self),
            decreases d.scale,
        {
            proof {
                lemma_normalized(d);
            }
            d = Decimal { mantissa: d.mantissa / 10, scale: d.scale - 1 };
            proof {
                lemma_normalized(d);
            }
        }
        d
    }

    /// Writes the number in its shortest form: an optional `-`, the integer
    /// digits, and the fraction digits after a point with trailing zeros
    /// removed (no point at all for a whole number).
    pub fn to_text(&self) -> (r: String)
        requires
            self.wf(),
        ensures
            r@ == decimal_text(*self),
    {
        let d = self.normalize();
        let mut out = String::new();
        let neg = d.mantissa < 0;
        proof {
            lemma_pow10_18();
        }
        let a: u64 = if neg {
            (-(d.mantissa as i128)) as u64
        } else {
            d.mantissa as u64
        };
        assert(a as int == abs(d.mantissa as int));
        if neg {
            push_char(&mut out, '-');
        }
        let ghost sign = out@;
        if d.scale == 0 {
            push_nat(&mut out, a);
        } else {
            let p = pow10_u64(d.scale);
            proof {
                lemma_pow10_positive(d.scale as nat);
            }
            push_nat(&mut out, a / p);
            push_char(&mut out, '.');
            push_padded(&mut out, a % p, d.scale);
        }
        proof {
            if neg {
                assert(sign =~= seq!['-']);
            } else {
                assert(sign =~= Seq::<char>::empty());
            }
        }
        assert(out@ =~= plain_text(d));
        out
    }
}

/// Largest magnitude of a Celsius mantissa that converts without overflow.
pub const MAX_CELSIUS_MANTISSA: i64 = 10000000000000000;

/// Largest scale of a Celsius value that converts without overflow.
pub const MAX_CELSIUS_SCALE: u32 = 15;

/// `c` in degrees Celsius, expressed in degrees Fahrenheit: `c * 1.8 + 32`,
/// exactly, one decimal place finer than `c`.
pub open spec fn fahrenheit_of(c: Decimal) -> Decimal {
    Decimal {
        mantissa: (c.mantissa * 18 + 32 * pow10((c.scale + 1) as nat)) as i64,
        scale: (c.scale + 1) as u32,
    }
}

/// Zero.
pub open spec fn zero_spec() -> Decimal {
    Decimal { mantissa: 0, scale: 0 }
}

/// One hundred.
pub open spec fn hundred_spec() -> Decimal {
    Decimal { mantissa: 100, scale: 0 }
}

/// `h` limited to the range from 0 to 100.
pub open spec fn clamp_percent_spec(h: Decimal) -> Decimal {
    if !value_le(zero_spec(), h) {
        zero_spec()
    } else if !value_le(h, hundred_spec()) {
        hundred_spec()
    } else {
        h
    }
}

impl Decimal {
    /// A whole number.
    pub fn from_int(n: i64) -> (r: Decimal)
        requires
            -1000000000000000000 < n < 1000000000000000000,
        ensures
            r == (Decimal { mantissa: n, scale: 0 }),
            r.wf(),
    {
        proof {
            lemma_pow10_18();
        }
        Decimal { mantissa: n, scale: 0 }
    }

    /// Whether the value lies in the range that Celsius conversion accepts.
    pub open spec fn convertible(&self) -> bool {
        self.scale <= MAX_CELSIUS_SCALE && -MAX_CELSIUS_MANTISSA < self.mantissa
            < MAX_CELSIUS_MANTISSA
    }

    /// Converts a Celsius value to Fahrenheit (`c * 1.8 + 32`), exactly.
    pub fn celsius_to_fahrenheit(&self) -> (r: Decimal)
        requires
            self.convertible(),
        ensures
            r == fahrenheit_of(*self),
            r.wf(),
    {
        let p = pow10_u64(self.scale + 1);
        proof {
            lemma_pow10_monotone((self.scale + 1) as nat, 16);
            assert(pow10(16) == 10000000000000000) by {
                reveal_with_fuel(pow10, 17);
            }
            lemma_pow10_18();
        }
        Decimal { mantissa: self.mantissa * 18 + 32 * (p as i64), scale: self.scale + 1 }
    }

    /// The value limited to the range from 0 to 100.
    pub fn clamp_percent(&self) -> (r: Decimal)
        requires
            self.wf(),
        ensures
            r == clamp_percent_spec(*self),
            r.wf(),
    {
        let p = pow10_u64(self.scale);
        proof {
            lemma_pow10_18();
            lemma_pow10_monotone(self.scale as nat, MAX_DIGITS as nat);
            assert(pow10(0) == 1);
            let z = zero_spec();
            let h = hundred_spec();
            assert(pow10(z.scale as nat) == 1);
            assert(z.mantissa == 0);
            assert(z.mantissa * pow10(self.scale as nat) == 0) by (nonlinear_arith)
                requires
                    z.mantissa == 0,
            ;
            assert(self.mantissa * pow10(z.scale as nat) == self.mantissa);
            assert(self.mantissa * pow10(h.scale as nat) == self.mantissa);
            assert(value_le(zero_spec(), *self) <==> self.mantissa >= 0);
            assert(value_le(*self, hundred_spec()) <==> self.mantissa <= 100 * p);
        }
        if self.mantissa < 0 {
            Decimal { mantissa: 0, scale: 0 }
        } else if (self.mantissa as i128) > 100 * (p as i128) {
            Decimal { mantissa: 100, scale: 0 }
        } else {
            *self
        }
    }

    /// Whether this number is at most `other`.
    pub fn le(&self, other: &Decimal) -> (r: bool)
        requires
            self.wf(),
            other.wf(),
        ensures
            r == value_le(*self, *other),
    {
        let pa = pow10_u64(self.scale);
        let pb = pow10_u64(other.scale);
        proof {
            lemma_pow10_18();
            lemma_pow10_monotone(self.scale as nat, MAX_DIGITS as nat);
            lemma_pow10_monotone(other.scale as nat, MAX_DIGITS as nat);
            let x = self.mantissa as int;
            let y = other.mantissa as int;
            assert(-1000000000000000000000000000000000000 <= x * pb <= 1000000000000000000000000000000000000) by (nonlinear_arith)
                requires
                    -1000000000000000000 <= x <= 1000000000000000000,
                    0 <= pb <= 1000000000000000000,
            ;
            assert(-1000000000000000000000000000000000000 <= y * pa <= 1000000000000000000000000000000000000) by (nonlinear_arith)
                requires
                    -1000000000000000000 <= y <= 1000000000000000000,
                    0 <= pa <= 1000000000000000000,
            ;
        }
        (self.mantissa as i128) * (pb as i128) <= (other.mantissa as i128) * (pa as i128)
    }
}

/// `d` rounded to at most `p` significant digits, halves rounded away from
/// zero.
pub open spec fn round_significant_spec(d: Decimal, p: nat) -> Decimal {
    let a = abs(d.mantissa as int);
    let n = nat_text(a).len();
    if n <= p {
        d
    } else {
        let k = (n - p) as nat;
        let q = (a + 5 * pow10((k - 1) as nat)) / pow10(k);
        let sq = if d.mantissa < 0 {
            -q
        } else {
            q as int
        };
        if k <= d.scale {
            Decimal { mantissa: sq as i64, scale: (d.scale - k) as u32 }
        } else {
            Decimal { mantissa: (sq * pow10((k - d.scale) as nat)) as i64, scale: 0 }
        }
    }
}

impl Decimal {
    /// Magnitudes below `10^17`, which rounding to significant digits keeps
    /// in range.
    pub open spec fn roundable(&self) -> bool {
        self.wf() && abs(self.mantissa as int) < pow10(17)
    }

    /// This number rounded to at most `p` significant digits, halves
    /// rounded away from zero.
    pub fn round_significant(&self, p: u32) -> (r: Decimal)
        requires
            self.roundable(),
            1 <= p <= 17,
        ensures
            r == round_significant_spec(*self, p as nat),
            r.wf(),
    {
        proof {
            lemma_pow10_18();
            lemma_pow10_monotone(17, 18);
        }
        let neg = self.mantissa < 0;
        let a: u64 = if neg {
            (-(self.mantissa as i128)) as u64
        } else {
            self.mantissa as u64
        };
        assert(a as int == abs(self.mantissa as int));
        let n = numeral_len(a);
        proof {
            lemma_nat_text(a as nat);
            if n > 17 {
                lemma_pow10_monotone(17, (n - 1) as nat);
            }
        }
        if n <= p {
            return *self;
        }
        let k = n - p;
        let div = pow10_u64(k);
        let half = 5 * pow10_u64(k - 1);
        let ghost pp = pow10(p as nat);
        proof {
            lemma_pow10_add(p as nat, k as nat);
            assert(p + k == n);
            assert(div == 10 * pow10((k - 1) as nat));
            assert(half < div);
            lemma_pow10_positive(p as nat);
            assert(a + half < (pp + 1) * div) by (nonlinear_arith)
                requires
                    a < pp * div,
                    half < div,
            ;
            assert((a + half) / (div as int) <= pp) by (nonlinear_arith)
                requires
                    a + half < (pp + 1) * div,
                    div > 0,
            ;
            lemma_pow10_monotone(p as nat, 17);
            lemma_pow10_monotone(n as nat, 17);
        }
        let q = (a + half) / div;
        if k <= self.scale {
            let m = if neg {
                -(q as i64)
            } else {
                q as i64
            };
            Decimal { mantissa: m, scale: self.scale - k }
        } else {
            let f = pow10_u64(k - self.scale);
            proof {
                lemma_pow10_monotone((k - self.scale) as nat, k as nat);
                assert(q * f <= pp * div) by (nonlinear_arith)
                    requires
                        q <= pp,
                        f <= div,
                ;
            }
            let qf = q * f;
            assert(-(q as int * f as int) == (-(q as int)) * f as int) by (nonlinear_arith);
            let m = if neg {
                -(qf as i64)
            } else {
                qf as i64
            };
            Decimal { mantissa: m, scale: 0 }
        }
    }
}

} // verus!
