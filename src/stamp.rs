//! Local date and time, and the text that names an archive directory.

use vstd::prelude::*;
use chrono::{Datelike, Timelike};

verus! {

/// A local date and time, to the second.
#[derive(Debug, Clone, Copy, PartialEq, Eq, Structural)]
pub struct Timestamp {
    pub year: i32,
    pub month: u32,
    pub day: u32,
    pub hour: u32,
    pub minute: u32,
    pub second: u32,
}

impl Timestamp {
    /// Every field lies in its calendar or clock range.
    pub open spec fn wf(&self) -> bool {
        &&& 1 <= self.month <= 12
        &&& 1 <= self.day <= 31
        &&& self.hour < 24
        &&& self.minute < 60
        &&& self.second < 60
    }
}

/// Relies on chrono::Local::now, the Datelike / Timelike accessors, whose
/// documented ranges are those of `Timestamp::wf`, and chrono's formatting of
/// `%Y-%m-%d-%H%M%S`: a four-digit year, signed outside 0 to 9999, then
/// two-digit fields. The time comes from the system clock, which has no
/// leap seconds, so `%S` shows the same second as `second()`.
#[verifier::external_body]
pub fn now_local() -> (r: (Timestamp, String))
    ensures
        r.0.wf(),
        r.1@ == stamp_text(r.0),
{
    let now = chrono::Local::now();
    let time = Timestamp {
        year: now.year(),
        month: now.month(),
        day: now.day(),
        hour: now.hour(),
        minute: now.minute(),
        second: now.second(),
    };
    (time, now.format("%Y-%m-%d-%H%M%S").to_string())
}

/// The decimal digit for `d < 10`.
pub open spec fn digit(d: nat) -> char {
    if d == 0 {
        '0'
    } else if d == 1 {
        '1'
    } else if d == 2 {
        '2'
    } else if d == 3 {
        '3'
    } else if d == 4 {
        '4'
    } else if d == 5 {
        '5'
    } else if d == 6 {
        '6'
    } else if d == 7 {
        '7'
    } else if d == 8 {
        '8'
    } else {
        '9'
    }
}

/// The last `w` decimal digits of `n`, with leading zeros.
pub open spec fn fixed_digits(n: nat, w: nat) -> Seq<char>
    decreases w,
{
    if w == 0 {
        Seq::empty()
    } else {
        fixed_digits(n / 10, (w - 1) as nat).push(digit(n % 10))
    }
}

/// The decimal digits of `n`, without leading zeros.
pub open spec fn decimal(n: nat) -> Seq<char>
    decreases n,
{
    if n < 10 {
        seq![digit(n)]
    } else {
        decimal(n / 10).push(digit(n % 10))
    }
}

/// A year as at least four digits, after a `-` when it is negative and a
/// `+` when it is above 9999.
pub open spec fn year_text(y: int) -> Seq<char> {
    let a: nat = if y < 0 {
        (-y) as nat
    } else {
        y as nat
    };
    let body = if a < 10000 {
        fixed_digits(a, 4)
    } else {
        decimal(a)
    };
    if y < 0 {
        seq!['-'] + body
    } else if y >= 10000 {
        seq!['+'] + body
    } else {
        body
    }
}

/// `YYYY-MM-DD-HHMMSS`.
pub open spec fn stamp_text(t: Timestamp) -> Seq<char> {
    year_text(t.year as int) + seq!['-'] + fixed_digits(t.month as nat, 2) + seq!['-'] + fixed_digits(
        t.day as nat,
        2,
    ) + seq!['-'] + fixed_digits(t.hour as nat, 2) + fixed_digits(t.minute as nat, 2)
        + fixed_digits(t.second as nat, 2)
}

pub open spec fn pow10(w: nat) -> nat
    decreases w,
{
    if w == 0 {
        1
    } else {
        10 * pow10((w - 1) as nat)
    }
}

/// Digits are never a sign.
pub open spec fn all_digits(s: Seq<char>) -> bool {
    forall|i: int| 0 <= i < s.len() ==> #[trigger] s[i] != '-' && s[i] != '+'
}

proof fn lemma_fixed_digits(n: nat, w: nat)
    ensures
        fixed_digits(n, w).len() == w,
        all_digits(fixed_digits(n, w)),
    decreases w,
{
    if w > 0 {
        lemma_fixed_digits(n / 10, (w - 1) as nat);
    }
}

proof fn lemma_decimal(n: nat)
    ensures
        decimal(n).len() >= 1,
        n >= 10 ==> decimal(n).len() >= 2,
        n >= 100 ==> decimal(n).len() >= 3,
        n >= 1000 ==> decimal(n).len() >= 4,
        n >= 10000 ==> decimal(n).len() >= 5,
        all_digits(decimal(n)),
    decreases n,
{
    if n >= 10 {
        lemma_decimal(n / 10);
    }
}

proof fn lemma_digit_injective(a: nat, b: nat)
    requires
        a < 10,
        b < 10,
        digit(a) == digit(b),
    ensures
        a == b,
{
}

proof fn lemma_fixed_digits_injective(n: nat, m: nat, w: nat)
    requires
        fixed_digits(n, w) == fixed_digits(m, w),
        n < pow10(w),
        m < pow10(w),
    ensures
        n == m,
    decreases w,
{
    if w > 0 {
        let p = pow10((w - 1) as nat);
        let a = fixed_digits(n, w);
        let b = fixed_digits(m, w);
        assert(a.last() == b.last());
        lemma_digit_injective(n % 10, m % 10);
        assert(a.drop_last() == fixed_digits(n / 10, (w - 1) as nat));
        assert(b.drop_last() == fixed_digits(m / 10, (w - 1) as nat));
        assert(n / 10 < p) by (nonlinear_arith)
            requires
                n < 10 * p,
        ;
        assert(m / 10 < p) by (nonlinear_arith)
            requires
                m < 10 * p,
        ;
        lemma_fixed_digits_injective(n / 10, m / 10, (w - 1) as nat);
    }
}

proof fn lemma_decimal_injective(n: nat, m: nat)
    requires
        decimal(n) == decimal(m),
    ensures
        n == m,
    decreases n,
{
    lemma_decimal(n);
    lemma_decimal(m);
    if n >= 10 && m >= 10 {
        assert(decimal(n) == decimal(n / 10).push(digit(n % 10)));
        assert(decimal(m) == decimal(m / 10).push(digit(m % 10)));
        assert(decimal(n).last() == digit(n % 10));
        assert(decimal(m).last() == digit(m % 10));
        lemma_digit_injective(n % 10, m % 10);
        assert(decimal(n).drop_last() =~= decimal(n / 10));
        assert(decimal(m).drop_last() =~= decimal(m / 10));
        lemma_decimal_injective(n / 10, m / 10);
    } else if n < 10 && m < 10 {
        assert(decimal(n) == seq![digit(n)]);
        assert(decimal(m) == seq![digit(m)]);
        assert(decimal(n)[0] == digit(n));
        assert(decimal(m)[0] == digit(m));
        lemma_digit_injective(n, m);
    }
}

proof fn lemma_year_text_injective(a: int, b: int)
    requires
        year_text(a) == year_text(b),
    ensures
        a == b,
{
    let x: nat = if a < 0 { (-a) as nat } else { a as nat };
    let y: nat = if b < 0 { (-b) as nat } else { b as nat };
    let bx = if x < 10000 { fixed_digits(x, 4) } else { decimal(x) };
    let by = if y < 10000 { fixed_digits(y, 4) } else { decimal(y) };
    lemma_fixed_digits(x, 4);
    lemma_fixed_digits(y, 4);
    lemma_decimal(x);
    lemma_decimal(y);
    assert(bx.len() >= 1 && all_digits(bx));
    assert(by.len() >= 1 && all_digits(by));
    let ta = year_text(a);
    let tb = year_text(b);
    let signed_a = a < 0 || a >= 10000;
    let signed_b = b < 0 || b >= 10000;
    if signed_a {
        assert(bx =~= ta.drop_first());
    } else {
        assert(ta == bx);
    }
    if signed_b {
        assert(by =~= tb.drop_first());
    } else {
        assert(tb == by);
    }
    assert(ta[0] == tb[0]);
    if signed_a && !signed_b {
        assert(tb[0] == by[0]);
    } else if !signed_a && signed_b {
        assert(ta[0] == bx[0]);
    } else {
        if signed_a {
            assert(ta.drop_first() == tb.drop_first());
            assert(a < 0 <==> b < 0);
        }
        assert(bx == by);
        if x < 10000 && y < 10000 {
            reveal_with_fuel(pow10, 5);
            lemma_fixed_digits_injective(x, y, 4);
        } else if x >= 10000 && y >= 10000 {
            lemma_decimal_injective(x, y);
        }
    }
}

/// Different valid times give different stamps.
pub proof fn lemma_stamp_text_injective(a: Timestamp, b: Timestamp)
    requires
        a.wf(),
        b.wf(),
        stamp_text(a) == stamp_text(b),
    ensures
        a == b,
{
    let ya = year_text(a.year as int);
    let yb = year_text(b.year as int);
    lemma_fixed_digits(a.month as nat, 2);
    lemma_fixed_digits(a.day as nat, 2);
    lemma_fixed_digits(a.hour as nat, 2);
    lemma_fixed_digits(a.minute as nat, 2);
    lemma_fixed_digits(a.second as nat, 2);
    lemma_fixed_digits(b.month as nat, 2);
    lemma_fixed_digits(b.day as nat, 2);
    lemma_fixed_digits(b.hour as nat, 2);
    lemma_fixed_digits(b.minute as nat, 2);
    lemma_fixed_digits(b.second as nat, 2);
    let sa = stamp_text(a);
    let sb = stamp_text(b);
    assert(sa.len() == ya.len() + 13);
    assert(sb.len() == yb.len() + 13);
    let k = ya.len() as int;
    assert(ya =~= sa.subrange(0, k));
    assert(yb =~= sb.subrange(0, k));
    lemma_year_text_injective(a.year as int, b.year as int);
    assert(fixed_digits(a.month as nat, 2) =~= sa.subrange(k + 1, k + 3));
    assert(fixed_digits(b.month as nat, 2) =~= sb.subrange(k + 1, k + 3));
    assert(fixed_digits(a.day as nat, 2) =~= sa.subrange(k + 4, k + 6));
    assert(fixed_digits(b.day as nat, 2) =~= sb.subrange(k + 4, k + 6));
    assert(fixed_digits(a.hour as nat, 2) =~= sa.subrange(k + 7, k + 9));
    assert(fixed_digits(b.hour as nat, 2) =~= sb.subrange(k + 7, k + 9));
    assert(fixed_digits(a.minute as nat, 2) =~= sa.subrange(k + 9, k + 11));
    assert(fixed_digits(b.minute as nat, 2) =~= sb.subrange(k + 9, k + 11));
    assert(fixed_digits(a.second as nat, 2) =~= sa.subrange(k + 11, k + 13));
    assert(fixed_digits(b.second as nat, 2) =~= sb.subrange(k + 11, k + 13));
    reveal_with_fuel(pow10, 3);
    lemma_fixed_digits_injective(a.month as nat, b.month as nat, 2);
    lemma_fixed_digits_injective(a.day as nat, b.day as nat, 2);
    lemma_fixed_digits_injective(a.hour as nat, b.hour as nat, 2);
    lemma_fixed_digits_injective(a.minute as nat, b.minute as nat, 2);
    lemma_fixed_digits_injective(a.second as nat, b.second as nat, 2);
}

} // verus!
