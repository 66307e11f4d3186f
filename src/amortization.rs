use vstd::prelude::*;

verus! {

/// Unit of an annual rate: a ten-thousandth of a percent (10 % is 100_000).
pub const RATE_UNITS_PER_PERCENT: u128 = 10_000;

/// An annual rate of `rate` units is a monthly fraction of
/// `rate / MONTHLY_RATE_DENOM`: twelve months, a hundred percent.
pub const MONTHLY_RATE_DENOM: u128 = 12_000_000;

/// Amounts of money are counted in ten-thousandths of a currency unit.
pub const MONEY_SCALE: u128 = 10_000;

/// Fixed-point scale of the discount factor: `FACTOR_SCALE` stands for 1.
pub const FACTOR_SCALE: u128 = 1_000_000_000_000;

/// Largest balance that `interest_part` takes, so that the product with any
/// rate fits in 128 bits.
pub const MAX_BALANCE: u128 = 10_000_000_000_000_000_000_000_000_000;

/// Interest of one month on `balance` at the annual rate `rate`, rounded down.
pub open spec fn interest_spec(balance: int, rate: int) -> int {
    balance * rate / (MONTHLY_RATE_DENOM as int)
}

/// `a / b` rounded up.
pub open spec fn ceil_div(a: int, b: int) -> int {
    (a + b - 1) / b
}

/// `(1 + monthly rate)^-months`, scaled by `FACTOR_SCALE` and rounded up at
/// each month, so that the payment derived from it never falls short.
pub open spec fn discount_spec(rate: int, months: nat) -> int
    decreases months,
{
    if months == 0 {
        FACTOR_SCALE as int
    } else {
        ceil_div(discount_spec(rate, (months - 1) as nat) * (MONTHLY_RATE_DENOM as int),
        MONTHLY_RATE_DENOM + rate)
    }
}

/// The fixed monthly payment that repays `base` currency units over `months`
/// months: `base * rate * factor / (factor - 1)` with
/// `factor = (1 + rate)^months`, written as `base * rate / (1 - 1 / factor)`;
/// `base / months` at a zero rate. In `MONEY_SCALE` units, rounded up once,
/// at the end, so that the payments repay the loan in full.
pub open spec fn annuity_spec(base: int, rate: int, months: nat) -> int {
    let scaled = base * MONEY_SCALE;
    if rate == 0 {
        ceil_div(scaled, months as int)
    } else {
        ceil_div(
            scaled * rate * FACTOR_SCALE,
            MONTHLY_RATE_DENOM * (FACTOR_SCALE - discount_spec(rate, months)),
        )
    }
}

/// One month of the debt projection: a debt of at least one payment is
/// reduced by it and the rest accrues a month's interest; a smaller debt is
/// retired by that payment.
pub open spec fn debt_step(debt: int, payment: int, rate: int) -> int {
    if debt >= payment {
        (debt - payment) + interest_spec(debt - payment, rate)
    } else {
        0
    }
}

/// The projected debt after `month` months, starting from `base` currency
/// units with one month's interest accrued.
pub open spec fn debt_spec(base: int, rate: int, payment: int, month: nat) -> int
    decreases month,
{
    if month == 0 {
        base * MONEY_SCALE + interest_spec(base * MONEY_SCALE, rate)
    } else {
        debt_step(debt_spec(base, rate, payment, (month - 1) as nat), payment, rate)
    }
}

/// Interest is monotone in the balance and at most 358 times it.
pub proof fn lemma_interest_bounds(a: int, b: int, rate: int)
    requires
        0 <= a <= b,
        0 <= rate <= u32::MAX,
    ensures
        0 <= interest_spec(a, rate) <= interest_spec(b, rate),
        interest_spec(b, rate) <= b * 358,
{
    let d = MONTHLY_RATE_DENOM as int;
    assert(0 <= a * rate <= b * rate) by (nonlinear_arith)
        requires
            0 <= a <= b,
            0 <= rate,
    ;
    assert(0 <= (a * rate) / d <= (b * rate) / d) by (nonlinear_arith)
        requires
            0 <= a * rate <= b * rate,
            d == 12_000_000,
    ;
    assert((b * rate) / d <= b * 358) by (nonlinear_arith)
        requires
            0 <= b,
            0 <= rate <= u32::MAX,
            d == 12_000_000,
    ;
}

proof fn lemma_ceil_div(a: int, b: int)
    requires
        0 <= a,
        b > 0,
    ensures
        ceil_div(a, b) * b >= a,
        ceil_div(a, b) * b < a + b,
        ceil_div(a, b) >= 0,
{
    assert(ceil_div(a, b) * b >= a) by (nonlinear_arith)
        requires
            b > 0,
            0 <= a,
    ;
    assert(ceil_div(a, b) * b < a + b) by (nonlinear_arith)
        requires
            b > 0,
            0 <= a,
    ;
    assert(ceil_div(a, b) >= 0) by (nonlinear_arith)
        requires
            b > 0,
            0 <= a,
    ;
}

/// The discount factor stays in `0..=FACTOR_SCALE`, falls month by month by
/// at most the monthly rate, and keeps above its exact value.
proof fn lemma_discount_bounds(rate: int, months: nat)
    requires
        0 <= rate,
    ensures
        0 <= discount_spec(rate, months) <= FACTOR_SCALE,
        months >= 1 ==> discount_spec(rate, months) <= discount_spec(rate, 1),
        months >= 1 ==> discount_spec(rate, months) * (MONTHLY_RATE_DENOM + rate)
            >= discount_spec(rate, (months - 1) as nat) * MONTHLY_RATE_DENOM,
        (FACTOR_SCALE - discount_spec(rate, months)) * (MONTHLY_RATE_DENOM + rate) <= months
            * FACTOR_SCALE * rate,
    decreases months,
{
    if months > 0 {
        lemma_discount_bounds(rate, (months - 1) as nat);
        let x = discount_spec(rate, (months - 1) as nat);
        let y = discount_spec(rate, months);
        let d = MONTHLY_RATE_DENOM as int;
        let s = FACTOR_SCALE as int;
        let m = months as int;
        lemma_ceil_div(x * d, d + rate);
        assert(y * (d + rate) < (x + 1) * (d + rate)) by (nonlinear_arith)
            requires
                y * (d + rate) < x * d + (d + rate),
                x >= 0,
                rate >= 0,
        ;
        assert(y <= x) by (nonlinear_arith)
            requires
                y * (d + rate) < (x + 1) * (d + rate),
                d + rate > 0,
        ;
        assert((s - y) * (d + rate) <= m * s * rate) by (nonlinear_arith)
            requires
                y * (d + rate) >= x * d,
                (s - x) * (d + rate) <= (m - 1) * s * rate,
                x <= s,
                rate >= 0,
        ;
    }
}

/// At a positive rate the discount factor over at least one month is below
/// one, by at least half the monthly rate.
proof fn lemma_discount_below_scale(rate: int, months: nat)
    requires
        1 <= rate <= u32::MAX,
        months >= 1,
    ensures
        2 * (FACTOR_SCALE - discount_spec(rate, months)) * (MONTHLY_RATE_DENOM + rate)
            >= FACTOR_SCALE * rate,
        discount_spec(rate, months) < FACTOR_SCALE,
{
    let d = MONTHLY_RATE_DENOM as int;
    let s = FACTOR_SCALE as int;
    lemma_discount_bounds(rate, months);
    lemma_discount_bounds(rate, 1);
    let a = discount_spec(rate, 1);
    let x = discount_spec(rate, months);
    assert(discount_spec(rate, 0) == s);
    lemma_ceil_div(s * d, d + rate);
    assert(2 * (s - a) * (d + rate) >= s * rate) by (nonlinear_arith)
        requires
            a * (d + rate) < s * d + (d + rate),
            d == 12_000_000,
            s == 1_000_000_000_000,
            rate >= 1,
    ;
    assert(2 * (s - x) * (d + rate) >= s * rate) by (nonlinear_arith)
        requires
            2 * (s - a) * (d + rate) >= s * rate,
            x <= a,
            d > 0,
            rate >= 1,
    ;
    assert(x < s) by (nonlinear_arith)
        requires
            2 * (s - x) * (d + rate) >= s * rate,
            s > 0,
            d > 0,
            rate >= 1,
    ;
}

/// In `FACTOR_SCALE` units, the discount factor over `months` months.
pub fn discount_factor(rate: u32, months: u32) -> (r: u128)
    ensures
        r == discount_spec(rate as int, months as nat),
        r <= FACTOR_SCALE,
{
    let mut x: u128 = FACTOR_SCALE;
    let mut k: u32 = 0;
    while k < months
        invariant
            k <= months,
            x == discount_spec(rate as int, k as nat),
            x <= FACTOR_SCALE,
        decreases months - k,
    {
        proof {
            lemma_discount_bounds(rate as int, (k + 1) as nat);
            assert(x * MONTHLY_RATE_DENOM <= FACTOR_SCALE * MONTHLY_RATE_DENOM) by (nonlinear_arith)
                requires
                    x <= FACTOR_SCALE,
            ;
        }
        let step = MONTHLY_RATE_DENOM + rate as u128;
        x = (x * MONTHLY_RATE_DENOM + step - 1) / step;
        k = k + 1;
    }
    x
}

/// Interest of one month on `balance` (in `MONEY_SCALE` units) at the annual
/// rate `rate`. The same formula serves both payment schemes.
pub fn interest_part(balance: u128, rate: u32) -> (r: u128)
    requires
        balance <= MAX_BALANCE,
    ensures
        r == interest_spec(balance as int, rate as int),
{
    proof {
        assert(balance * rate <= MAX_BALANCE * u32::MAX) by (nonlinear_arith)
            requires
                balance <= MAX_BALANCE,
                rate <= u32::MAX,
        ;
    }
    balance * rate as u128 / MONTHLY_RATE_DENOM
}

/// The fixed payment covers at least the first month's interest on the loan,
/// stays within 720 times the loan (and one ten-thousandth), and over the
/// whole term repays at least the loan, strictly more when there is interest.
pub proof fn lemma_annuity_bounds(base: int, rate: int, months: nat)
    requires
        0 <= base <= u64::MAX,
        0 <= rate <= u32::MAX,
        months >= 1,
    ensures
        interest_spec(base * MONEY_SCALE, rate) <= annuity_spec(base, rate, months),
        annuity_spec(base, rate, months) <= 720 * (base * MONEY_SCALE) + 1,
        annuity_spec(base, rate, months) * months >= base * MONEY_SCALE,
        rate > 0 && base > 0 ==> annuity_spec(base, rate, months) * months > base * MONEY_SCALE,
{
    let l = base * MONEY_SCALE;
    let m = months as int;
    let p = annuity_spec(base, rate, months);
    lemma_interest_bounds(l, l, rate);
    if rate == 0 {
        assert(l * rate == 0) by (nonlinear_arith)
            requires
                rate == 0,
        ;
        lemma_ceil_div(l, m);
        assert(p <= l + 1) by (nonlinear_arith)
            requires
                p * m < l + m,
                p >= 0,
                m >= 1,
                l >= 0,
        ;
    } else {
        let d = MONTHLY_RATE_DENOM as int;
        let s = FACTOR_SCALE as int;
        lemma_discount_bounds(rate, months);
        lemma_discount_below_scale(rate, months);
        let x = discount_spec(rate, months);
        let y = s - x;
        assert(2 * y * (d + rate) >= s * rate);
        let num = l * rate * s;
        let den = d * y;
        assert(den > 0) by (nonlinear_arith)
            requires
                d > 0,
                y > 0,
                den == d * y,
        ;
        assert(num >= 0) by (nonlinear_arith)
            requires
                l >= 0,
                rate >= 0,
                s >= 0,
                num == l * rate * s,
        ;
        lemma_ceil_div(num, den);
        assert(p == ceil_div(num, den));
        // at least the first month's interest
        assert(p >= l * rate / d) by (nonlinear_arith)
            requires
                p * den >= num,
                num == l * rate * s,
                den == d * y,
                0 < y <= s,
                d > 0,
                l >= 0,
                rate >= 0,
        ;
        // at most 720 times the loan
        assert(p * d * y <= l * rate * s + d * y) by (nonlinear_arith)
            requires
                p * den < num + den,
                num == l * rate * s,
                den == d * y,
        ;
        assert(p <= 720 * l + 1) by (nonlinear_arith)
            requires
                p * d * y <= l * rate * s + d * y,
                2 * y * (d + rate) >= s * rate,
                d == 12_000_000,
                s > 0,
                y > 0,
                l >= 0,
                1 <= rate <= u32::MAX,
        ;
        // the term repays the loan
        assert(y * d < m * s * rate) by (nonlinear_arith)
            requires
                y * (d + rate) <= m * s * rate,
                y > 0,
                rate > 0,
        ;
        assert(p * m >= l) by (nonlinear_arith)
            requires
                p * den >= num,
                num == l * rate * s,
                den == d * y,
                y * d < m * s * rate,
                l >= 0,
                m >= 1,
                y > 0,
                d > 0,
        ;
        if base > 0 {
            assert(p * m > l) by (nonlinear_arith)
                requires
                    p * den >= num,
                    num == l * rate * s,
                    den == d * y,
                    y * d < m * s * rate,
                    l > 0,
                    m >= 1,
                    y > 0,
                    d > 0,
            ;
        }
    }
}

/// The fixed monthly payment, in `MONEY_SCALE` units, that repays `base`
/// currency units over `months` months at the annual rate `rate`. A zero rate
/// gives `base / months`, rounded up.
pub fn annuity_payment(base: u64, rate: u32, months: u32) -> (r: u128)
    requires
        months > 0,
    ensures
        r == annuity_spec(base as int, rate as int, months as nat),
        rate == 0 ==> r == ceil_div(base * MONEY_SCALE, months as int),
        rate > 0 && base > 0 ==> r * months > base * MONEY_SCALE,
        interest_spec(base * MONEY_SCALE, rate as int) <= r,
        r <= 720 * (base * MONEY_SCALE) + 1,
{
    proof {
        lemma_annuity_bounds(base as int, rate as int, months as nat);
    }
    let scaled: u128 = base as u128 * MONEY_SCALE;
    if rate == 0 {
        (scaled + months as u128 - 1) / months as u128
    } else {
        let x = discount_factor(rate, months);
        proof {
            lemma_discount_below_scale(rate as int, months as nat);
            assert(scaled * rate <= scaled * u32::MAX) by (nonlinear_arith)
                requires
                    rate <= u32::MAX,
            ;
        }
        let num = scaled * rate as u128;
        let den = MONTHLY_RATE_DENOM * (FACTOR_SCALE - x);
        let whole = num / den;
        let rest = num % den;
        proof {
            let s = FACTOR_SCALE as int;
            let dn = den as int;
            let t = rest * s + dn - 1;
            vstd::arithmetic::div_mod::lemma_fundamental_div_mod(num as int, dn);
            assert(num == dn * whole + rest);
            assert(num == whole * dn + rest) by (nonlinear_arith)
                requires
                    num == dn * whole + rest,
            ;
            assert(num * s + dn - 1 == (whole * s + t / dn) * dn + t % dn) by (nonlinear_arith)
                requires
                    num == whole * dn + rest,
                    t == rest * s + dn - 1,
                    dn > 0,
            ;
            assert(0 <= t % dn < dn) by (nonlinear_arith)
                requires
                    dn > 0,
            ;
            vstd::arithmetic::div_mod::lemma_fundamental_div_mod_converse(
                num * s + dn - 1,
                dn,
                whole * s + t / dn,
                t % dn,
            );
            assert(t / dn >= 0) by (nonlinear_arith)
                requires
                    t >= 0,
                    dn > 0,
            ;
            assert(rest * s < den * s) by (nonlinear_arith)
                requires
                    rest < den,
                    s > 0,
            ;
        }
        whole * FACTOR_SCALE + (rest * FACTOR_SCALE + den - 1) / den
    }
}

proof fn lemma_debt_step(debt: int, payment: int, loan: int, rate: int)
    requires
        0 <= loan,
        0 <= rate <= u32::MAX,
        0 <= debt <= loan + interest_spec(loan, rate),
        interest_spec(loan, rate) <= payment,
    ensures
        0 <= debt_step(debt, payment, rate) <= debt,
{
    if debt >= payment {
        lemma_interest_bounds(debt - payment, loan, rate);
    }
}

/// The projected debt never grows from one month to the next, and stays
/// between zero and the starting debt.
pub proof fn lemma_debt_non_increasing(base: int, rate: int, months: nat, month: nat)
    requires
        0 <= base <= u64::MAX,
        0 <= rate <= u32::MAX,
        months >= 1,
    ensures
        ({
            let p = annuity_spec(base, rate, months);
            &&& 0 <= debt_spec(base, rate, p, month + 1)
            &&& debt_spec(base, rate, p, month + 1) <= debt_spec(base, rate, p, month)
            &&& debt_spec(base, rate, p, month) <= debt_spec(base, rate, p, 0)
        }),
    decreases month,
{
    let p = annuity_spec(base, rate, months);
    let l = base * MONEY_SCALE;
    lemma_annuity_bounds(base, rate, months);
    lemma_interest_bounds(l, l, rate);
    if month > 0 {
        lemma_debt_non_increasing(base, rate, months, (month - 1) as nat);
    }
    lemma_debt_step(debt_spec(base, rate, p, month), p, l, rate);
}

/// With `k` months paid, the debt is at most what the remaining
/// `months - k` payments, discounted, can repay.
proof fn lemma_debt_within_term(base: int, rate: int, months: nat, k: nat)
    requires
        0 <= base <= u64::MAX,
        0 <= rate <= u32::MAX,
        months >= 1,
        k <= months,
    ensures
        ({
            let p = annuity_spec(base, rate, months);
            let debt = debt_spec(base, rate, p, k);
            &&& rate > 0 ==> debt * rate * FACTOR_SCALE <= p * (MONTHLY_RATE_DENOM + rate) * (
            FACTOR_SCALE - discount_spec(rate, (months - k) as nat))
            &&& rate == 0 ==> debt <= (months - k) * p
        }),
    decreases k,
{
    let p = annuity_spec(base, rate, months);
    let l = base * MONEY_SCALE;
    let d = MONTHLY_RATE_DENOM as int;
    let s = FACTOR_SCALE as int;
    lemma_annuity_bounds(base, rate, months);
    lemma_interest_bounds(l, l, rate);
    lemma_discount_bounds(rate, (months - k) as nat);
    if k == 0 {
        assert(debt_spec(base, rate, p, 0) == l + interest_spec(l, rate));
        if rate == 0 {
            assert(l * rate == 0) by (nonlinear_arith)
                requires
                    rate == 0,
            ;
            assert(l <= (months - k) * p) by (nonlinear_arith)
                requires
                    p * months >= l,
                    k == 0,
            ;
        } else {
            let x = discount_spec(rate, months);
            let y = s - x;
            lemma_discount_below_scale(rate, months);
            let num = l * rate * s;
            let den = d * y;
            assert(den > 0) by (nonlinear_arith)
                requires
                    d > 0,
                    y > 0,
                    den == d * y,
            ;
            assert(num >= 0) by (nonlinear_arith)
                requires
                    num == l * rate * s,
                    l >= 0,
                    rate >= 0,
                    s >= 0,
            ;
            lemma_ceil_div(num, den);
            let d0 = l + interest_spec(l, rate);
            assert(d0 * d <= l * (d + rate)) by (nonlinear_arith)
                requires
                    d0 == l + l * rate / d,
                    d > 0,
                    l >= 0,
                    rate >= 0,
            ;
            assert(d0 * rate * s <= p * (d + rate) * y) by (nonlinear_arith)
                requires
                    d0 * d <= l * (d + rate),
                    p * den >= num,
                    num == l * rate * s,
                    den == d * y,
                    d > 0,
                    rate > 0,
                    s > 0,
                    d0 >= 0,
            ;
        }

    } else {
        let j = (k - 1) as nat;
        lemma_debt_within_term(base, rate, months, j);
        lemma_debt_non_increasing(base, rate, months, j);
        let prev = debt_spec(base, rate, p, j);
        let next = debt_spec(base, rate, p, k);
        assert(next == debt_step(prev, p, rate));
        if prev >= p {
            let e = prev - p;
            lemma_interest_bounds(e, e, rate);
            if rate == 0 {
                assert(e * rate == 0) by (nonlinear_arith)
                    requires
                        rate == 0,
                ;
                assert(next <= (months - k) * p) by (nonlinear_arith)
                    requires
                        next == prev - p,
                        prev <= (months - j) * p,
                        k == j + 1,
                ;
            } else {
                let m = (months - j) as nat;
                lemma_discount_bounds(rate, m);
                let xm = discount_spec(rate, m);
                let xk = discount_spec(rate, (m - 1) as nat);
                assert((m - 1) as nat == (months - k) as nat);
                assert(next * d <= e * (d + rate)) by (nonlinear_arith)
                    requires
                        next == e + e * rate / d,
                        d > 0,
                        e >= 0,
                        rate >= 0,
                ;
                assert(p * (xm * (d + rate)) >= p * (xk * d)) by (nonlinear_arith)
                    requires
                        xm * (d + rate) >= xk * d,
                        p >= 0,
                ;
                assert(p * (d + rate) * (s - xm) == p * (d + rate) * s - p * (xm * (d + rate)))
                    by (nonlinear_arith);
                assert(e * rate * s == prev * rate * s - p * rate * s) by (nonlinear_arith)
                    requires
                        e == prev - p,
                ;
                assert(p * d * (s - xk) == p * (d + rate) * s - p * rate * s - p * (xk * d))
                    by (nonlinear_arith);
                assert(e * rate * s <= p * d * (s - xk));
                assert(next * rate * s <= p * (d + rate) * (s - xk)) by (nonlinear_arith)
                    requires
                        next * d <= e * (d + rate),
                        e * rate * s <= p * d * (s - xk),
                        d > 0,
                        rate > 0,
                        s > 0,
                ;
            }
        } else {
            assert((months - k) * p >= 0) by (nonlinear_arith)
                requires
                    p >= 0,
                    k <= months,
            ;
            if rate > 0 {
                let xk = discount_spec(rate, (months - k) as nat);
                assert(p * (d + rate) * (s - xk) >= 0) by (nonlinear_arith)
                    requires
                        p >= 0,
                        rate > 0,
                        d > 0,
                        xk <= s,
                ;
            }
        }
    }
}

/// The term's last payment retires the loan: after the full term the
/// projected debt is exactly zero.
pub proof fn lemma_debt_retired_at_term(base: int, rate: int, months: nat)
    requires
        0 <= base <= u64::MAX,
        0 <= rate <= u32::MAX,
        months >= 1,
    ensures
        debt_spec(base, rate, annuity_spec(base, rate, months), months) == 0,
{
    let p = annuity_spec(base, rate, months);
    lemma_debt_within_term(base, rate, months, months);
    lemma_debt_non_increasing(base, rate, months, (months - 1) as nat);
    let debt = debt_spec(base, rate, p, months);
    assert(discount_spec(rate, 0) == FACTOR_SCALE);
    if rate > 0 {
        assert(p * (MONTHLY_RATE_DENOM + rate) * (FACTOR_SCALE - FACTOR_SCALE) == 0)
            by (nonlinear_arith);
        assert(debt == 0) by (nonlinear_arith)
            requires
                debt * rate * FACTOR_SCALE <= 0,
                debt >= 0,
                rate > 0,
        ;
    }
}

/// At a zero rate the debt falls by one payment a month until it is gone.
pub proof fn lemma_zero_rate_debt(base: int, months: nat, k: nat)
    requires
        0 <= base <= u64::MAX,
        months >= 1,
    ensures
        ({
            let p = annuity_spec(base, 0, months);
            let left = base * MONEY_SCALE - k * p;
            debt_spec(base, 0, p, k) == if left >= 0 {
                left
            } else {
                0
            }
        }),
    decreases k,
{
    let p = annuity_spec(base, 0, months);
    let l = base * MONEY_SCALE;
    lemma_annuity_bounds(base, 0, months);
    assert(l * 0 == 0);
    assert(p > 0 || l == 0) by (nonlinear_arith)
        requires
            p * months >= l,
            l >= 0,
            p >= 0,
    ;
    if k == 0 {
        assert(k * p == 0) by (nonlinear_arith)
            requires
                k == 0,
        ;
    } else {
        let j = (k - 1) as nat;
        lemma_zero_rate_debt(base, months, j);
        let prev = debt_spec(base, 0, p, j);
        assert(debt_spec(base, 0, p, k) == debt_step(prev, p, 0));
        assert((prev - p) * 0 == 0);
        assert(l - k * p == l - j * p - p) by (nonlinear_arith)
            requires
                k == j + 1,
        ;
        assert(p == 0 ==> k * p == 0) by (nonlinear_arith);
    }
}

/// One month of the debt projection, on a debt in `MONEY_SCALE` units.
pub fn next_debt(debt: u128, payment: u128, rate: u32) -> (r: u128)
    requires
        debt <= MAX_BALANCE,
    ensures
        r == debt_step(debt as int, payment as int, rate as int),
{
    if debt >= payment {
        let rest = debt - payment;
        proof {
            lemma_interest_bounds(rest as int, rest as int, rate as int);
        }
        rest + interest_part(rest, rate)
    } else {
        0
    }
}

/// The debt after `month` months of paying the fixed annuity payment on a loan
/// of `base` currency units over `months` months, in `MONEY_SCALE` units.
pub fn outstanding_balance(base: u64, rate: u32, months: u32, month: u32) -> (r: u128)
    requires
        months > 0,
    ensures
        r == debt_spec(
            base as int,
            rate as int,
            annuity_spec(base as int, rate as int, months as nat),
            month as nat,
        ),
        month == months ==> r == 0,
{
    proof {
        if month == months {
            lemma_debt_retired_at_term(base as int, rate as int, months as nat);
        }
    }
    let payment = annuity_payment(base, rate, months);
    let scaled: u128 = base as u128 * MONEY_SCALE;
    proof {
        lemma_interest_bounds(scaled as int, scaled as int, rate as int);
    }
    let mut debt = scaled + interest_part(scaled, rate);
    let mut k: u32 = 0;
    while k < month
        invariant
            k <= month,
            months > 0,
            payment == annuity_spec(base as int, rate as int, months as nat),
            debt == debt_spec(base as int, rate as int, payment as int, k as nat),
            debt_spec(base as int, rate as int, payment as int, 0) <= MAX_BALANCE,
        decreases month - k,
    {
        proof {
            lemma_debt_non_increasing(base as int, rate as int, months as nat, k as nat);
        }
        debt = next_debt(debt, payment, rate);
        k = k + 1;
    }
    debt
}

} // verus!
