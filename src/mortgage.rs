use vstd::prelude::*;
use vstd::string::StringExecFns;
use crate::amortization::{
    annuity_payment, annuity_spec, ceil_div, debt_spec, interest_part, interest_spec, lemma_annuity_bounds,
    lemma_debt_retired_at_term, lemma_interest_bounds, lemma_zero_rate_debt,
    lemma_debt_non_increasing, next_debt, outstanding_balance, MAX_BALANCE, MONEY_SCALE,
};
use crate::calendar::{
    add_calendar_months, date_text, dmy_parse, iso_text, lemma_months_later_ascending, lemma_months_later_in_range, months_later,
    parse_date, CalendarDate,
};

verus! {

/// How the loan is repaid.
#[derive(Clone, Copy, Debug, PartialEq, Eq, Structural)]
pub enum PaymentScheme {
    /// The same total payment every month.
    Annuity,
    /// The same principal part every month; the total shrinks with the interest.
    Differentiated,
}

/// Why a computation on a mortgage was refused.
#[derive(Clone, Copy, Debug, PartialEq, Eq, Structural)]
pub enum MortgageError {
    /// The term is zero years, or the down payment exceeds the loan.
    InvalidTerms,
    /// The origination date is not a `DD.MM.YYYY` date.
    InvalidDateFormat,
    /// A payment date falls outside the calendar's range.
    DateOutOfRange,
    /// The payment type is neither `annuity` nor `differentiated`.
    UnrecognizedPaymentScheme,
}

/// The balance that interest is charged on.
#[derive(Clone, Copy, Debug, PartialEq, Eq, Structural)]
pub enum Balance {
    /// The loan as taken out: the down payment is subtracted first, since no
    /// interest accrues on it.
    OriginalPrincipal,
    /// A balance still owed, in `MONEY_SCALE` units, charged as it is.
    Outstanding(u128),
}

pub open spec fn scheme_spec(text: Seq<char>) -> Option<PaymentScheme> {
    if text == "annuity"@ {
        Some(PaymentScheme::Annuity)
    } else if text == "differentiated"@ {
        Some(PaymentScheme::Differentiated)
    } else {
        None
    }
}

/// Reads a payment type: `annuity` or `differentiated`.
pub fn parse_payment_scheme(text: &String) -> (r: Result<PaymentScheme, MortgageError>)
    ensures
        r == (match scheme_spec(text@) {
            Some(s) => Ok(s),
            None => Err(MortgageError::UnrecognizedPaymentScheme),
        }),
{
    let annuity = <String as StringExecFns>::from_str("annuity");
    let differentiated = <String as StringExecFns>::from_str("differentiated");
    if *text == annuity {
        Ok(PaymentScheme::Annuity)
    } else if *text == differentiated {
        Ok(PaymentScheme::Differentiated)
    } else {
        Err(MortgageError::UnrecognizedPaymentScheme)
    }
}

/// One month of a payment schedule. Amounts are in `MONEY_SCALE` units.
#[derive(Debug)]
pub struct ScheduleEntry {
    /// The payment date as `YYYY-MM-DD`.
    pub date: String,
    pub payment_date: CalendarDate,
    /// The fixed payment.
    pub mounthly_payment: u128,
    /// The interest part.
    pub percent_part: u128,
    /// The principal part; below zero where the month's interest exceeds the
    /// fixed payment.
    pub body_part: i128,
    /// The projected debt after this month.
    pub remaining_debt: u128,
}

/// The months of a loan in order of their dates.
#[derive(Debug)]
pub struct PaymentShedule {
    pub payment_details: Vec<ScheduleEntry>,
}

/// A mortgage as it is requested.
pub struct Mortgage {
    /// The loan, in currency units.
    pub amount: u64,
    /// The nominal annual rate, in ten-thousandths of a percent.
    pub mortgage_rate: u32,
    /// The term, in years.
    pub period: u16,
    /// The origination date, `DD.MM.YYYY`.
    pub taking_date: String,
    /// `annuity` or `differentiated`.
    pub payment_type: String,
    /// The down payment, in currency units.
    pub initial_payment: u64,
}

impl Mortgage {
    pub fn new(
        amount: u64,
        mortgage_rate: u32,
        period: u16,
        taking_date: String,
        payment_type: String,
        initial_payment: u64,
    ) -> (r: Self)
        ensures
            r.amount == amount,
            r.mortgage_rate == mortgage_rate,
            r.period == period,
            r.taking_date == taking_date,
            r.payment_type == payment_type,
            r.initial_payment == initial_payment,
    {
        Mortgage { amount, mortgage_rate, period, taking_date, payment_type, initial_payment }
    }

    /// A term of at least one year, and a down payment within the loan.
    pub open spec fn terms_valid(&self) -> bool {
        self.period > 0 && self.initial_payment <= self.amount
    }

    pub open spec fn total_months(&self) -> nat {
        (self.period * 12) as nat
    }

    /// The part of the loan that interest accrues on, in currency units.
    pub open spec fn loan_base(&self) -> int {
        self.amount - self.initial_payment
    }

    pub open spec fn fixed_payment(&self) -> int {
        annuity_spec(self.loan_base(), self.mortgage_rate as int, self.total_months())
    }

    pub open spec fn percent_spec(&self, balance: Balance) -> int {
        match balance {
            Balance::OriginalPrincipal => interest_spec(
                self.loan_base() * MONEY_SCALE,
                self.mortgage_rate as int,
            ),
            Balance::Outstanding(b) => interest_spec(b as int, self.mortgage_rate as int),
        }
    }

    pub open spec fn repayment_spec(&self) -> int {
        self.amount * MONEY_SCALE / (self.total_months() as int)
    }

    /// The debt projected after `month` months, in `MONEY_SCALE` units.
    pub open spec fn debt_after(&self, month: nat) -> int {
        debt_spec(self.loan_base(), self.mortgage_rate as int, self.fixed_payment(), month)
    }

    pub open spec fn overpayment_spec(&self) -> Result<int, MortgageError> {
        if !self.terms_valid() {
            Err(MortgageError::InvalidTerms)
        } else {
            match scheme_spec(self.payment_type@) {
                Some(PaymentScheme::Annuity) => Ok(
                    self.fixed_payment() * self.total_months() - self.amount * MONEY_SCALE,
                ),
                Some(PaymentScheme::Differentiated) => Ok(
                    (self.repayment_spec() + self.percent_spec(Balance::OriginalPrincipal))
                        * self.total_months() - self.amount * MONEY_SCALE,
                ),
                None => Err(MortgageError::UnrecognizedPaymentScheme),
            }
        }
    }

    /// Checks the terms that the arithmetic needs.
    pub fn check_terms(&self) -> (r: Result<(), MortgageError>)
        ensures
            r is Ok <==> self.terms_valid(),
            r matches Err(e) ==> e == MortgageError::InvalidTerms,
    {
        if self.period > 0 && self.initial_payment <= self.amount {
            Ok(())
        } else {
            Err(MortgageError::InvalidTerms)
        }
    }

    fn months(&self) -> (r: u32)
        ensures
            r == self.total_months(),
    {
        self.period as u32 * 12
    }

    /// The fixed annuity payment for the whole term, in `MONEY_SCALE` units.
    pub fn calculate_annuity_monthly_payment(&self) -> (r: u128)
        requires
            self.terms_valid(),
        ensures
            r == self.fixed_payment(),
            self.mortgage_rate == 0 ==> r == ceil_div(
                self.loan_base() * MONEY_SCALE,
                self.total_months() as int,
            ),
            self.mortgage_rate > 0 && self.loan_base() > 0 ==> r * self.total_months()
                > self.loan_base() * MONEY_SCALE,
    {
        annuity_payment(self.amount - self.initial_payment, self.mortgage_rate, self.months())
    }

    /// Interest of one month on the given balance, in `MONEY_SCALE` units.
    pub fn calculate_percent_part(&self, balance: Balance) -> (r: u128)
        requires
            self.terms_valid(),
            balance matches Balance::Outstanding(b) ==> b <= MAX_BALANCE,
        ensures
            r == self.percent_spec(balance),
    {
        match balance {
            Balance::OriginalPrincipal => {
                let base = (self.amount - self.initial_payment) as u128 * MONEY_SCALE;
                interest_part(base, self.mortgage_rate)
            },
            Balance::Outstanding(b) => interest_part(b, self.mortgage_rate),
        }
    }

    /// The constant principal part of a differentiated payment: the loan over
    /// the number of months, with the down payment not taken off.
    pub fn calculate_monthly_repayment_debt(&self) -> (r: u128)
        requires
            self.terms_valid(),
        ensures
            r == self.repayment_spec(),
    {
        self.amount as u128 * MONEY_SCALE / self.months() as u128
    }

    /// The differentiated payment of a month with the given balance.
    pub fn calculate_differentiated_monthly_payment(&self, balance: Balance) -> (r: u128)
        requires
            self.terms_valid(),
            balance matches Balance::Outstanding(b) ==> b <= MAX_BALANCE,
        ensures
            r == self.repayment_spec() + self.percent_spec(balance),
    {
        let repayment = self.calculate_monthly_repayment_debt();
        let percent = self.calculate_percent_part(balance);
        proof {
            assert(repayment <= self.amount * MONEY_SCALE) by (nonlinear_arith)
                requires
                    repayment == self.amount * MONEY_SCALE / (self.total_months() as int),
                    self.total_months() >= 1,
            ;
            match balance {
                Balance::OriginalPrincipal => {
                    let l = self.loan_base() * MONEY_SCALE;
                    lemma_interest_bounds(l, l, self.mortgage_rate as int);
                },
                Balance::Outstanding(b) => {
                    lemma_interest_bounds(b as int, b as int, self.mortgage_rate as int);
                },
            }
        }
        repayment + percent
    }

    /// The principal part of the annuity payment in a month with the given
    /// balance: the fixed payment less that month's interest.
    pub fn calculate_annuity_body_part(&self, balance: Balance) -> (r: i128)
        requires
            self.terms_valid(),
            balance matches Balance::Outstanding(b) ==> b <= MAX_BALANCE,
        ensures
            r == self.fixed_payment() - self.percent_spec(balance),
    {
        let payment = self.calculate_annuity_monthly_payment();
        let percent = self.calculate_percent_part(balance);
        proof {
            let l = self.loan_base() * MONEY_SCALE;
            lemma_annuity_bounds(self.loan_base(), self.mortgage_rate as int, self.total_months());
            lemma_interest_bounds(l, l, self.mortgage_rate as int);
            if let Balance::Outstanding(b) = balance {
                lemma_interest_bounds(b as int, b as int, self.mortgage_rate as int);
            }
        }
        payment as i128 - percent as i128
    }

    /// The projected debt after `month` months, in `MONEY_SCALE` units. The
    /// payment is rounded up so that the last month of the term leaves no
    /// debt at all: the early payoff of a remainder below one payment needs no
    /// tolerance.
    pub fn debt_on_date(&self, month: u32) -> (r: u128)
        requires
            self.terms_valid(),
        ensures
            r == self.debt_after(month as nat),
            month == self.total_months() ==> r == 0,
            self.mortgage_rate == 0 ==> r == (if self.loan_base() * MONEY_SCALE - month
                * self.fixed_payment() >= 0 {
                self.loan_base() * MONEY_SCALE - month * self.fixed_payment()
            } else {
                0
            }),
    {
        proof {
            if self.mortgage_rate == 0 {
                lemma_zero_rate_debt(self.loan_base(), self.total_months(), month as nat);
            }
        }
        outstanding_balance(
            self.amount - self.initial_payment,
            self.mortgage_rate,
            self.months(),
            month,
        )
    }

    /// The origination date, if `taking_date` reads as `DD.MM.YYYY`.
    pub open spec fn origin(&self) -> Option<CalendarDate> {
        match dmy_parse(self.taking_date@) {
            Some(t) => Some(CalendarDate { year: t.0, month: t.1, day: t.2 }),
            None => None,
        }
    }

    /// The date `month` months after origination.
    pub fn next_payment_date(&self, month: u32) -> (r: Result<CalendarDate, MortgageError>)
        ensures
            self.origin() is None ==> r == Err::<CalendarDate, MortgageError>(
                MortgageError::InvalidDateFormat,
            ),
            self.origin() matches Some(o) ==> r == (match months_later(o, month as nat) {
                Some(d) => Ok(d),
                None => Err(MortgageError::DateOutOfRange),
            }),
    {
        match parse_date(self.taking_date.as_str()) {
            None => Err(MortgageError::InvalidDateFormat),
            Some(origin) => match add_calendar_months(origin, month) {
                Some(d) => Ok(d),
                None => Err(MortgageError::DateOutOfRange),
            },
        }
    }

    /// The overpayment in `MONEY_SCALE` units: the monthly payment of the
    /// scheme times the number of months, less the loan. For the
    /// differentiated scheme the first month's payment stands for every month.
    pub fn calculate_overpayment(&self) -> (r: Result<i128, MortgageError>)
        ensures
            r is Ok <==> self.overpayment_spec() is Ok,
            r matches Ok(v) ==> self.overpayment_spec() == Ok::<int, MortgageError>(v as int),
            r matches Err(e) ==> self.overpayment_spec() == Err::<int, MortgageError>(e),
            r matches Ok(v) ==> 0 <= v + self.amount * MONEY_SCALE <= (self.amount * MONEY_SCALE
                * 720 + 1) * 786420,
            scheme_spec(self.payment_type@) == Some(PaymentScheme::Annuity) && self.mortgage_rate > 0
                && self.initial_payment == 0 && self.amount > 0 ==> (r matches Ok(v) ==> v > 0),
    {
        self.check_terms()?;
        let scheme = parse_payment_scheme(&self.payment_type)?;
        let months = self.months();
        let l = (self.amount - self.initial_payment) as u128 * MONEY_SCALE;
        proof {
            lemma_annuity_bounds(self.loan_base(), self.mortgage_rate as int, self.total_months());
            lemma_interest_bounds(l as int, l as int, self.mortgage_rate as int);
            assert(self.repayment_spec() <= self.amount * MONEY_SCALE) by (nonlinear_arith)
                requires
                    self.repayment_spec() == self.amount * MONEY_SCALE / (self.total_months() as int),
                    self.total_months() >= 1,
            ;
        }
        let payment: u128 = match scheme {
            PaymentScheme::Annuity => self.calculate_annuity_monthly_payment(),
            PaymentScheme::Differentiated => self.calculate_differentiated_monthly_payment(
                Balance::OriginalPrincipal,
            ),
        };
        proof {
            assert(payment <= self.amount * MONEY_SCALE * 720 + 1);
            assert(payment * months <= (self.amount * MONEY_SCALE * 720 + 1) * 786420) by (nonlinear_arith)
                requires
                    payment <= self.amount * MONEY_SCALE * 720 + 1,
                    months <= 786420,
            ;
        }
        Ok(payment as i128 * months as i128 - self.amount as i128 * MONEY_SCALE as i128)
    }

    /// The total paid: the loan plus the overpayment, in `MONEY_SCALE` units.
    pub fn calculate_total_amount(&self) -> (r: Result<i128, MortgageError>)
        ensures
            r is Ok <==> self.overpayment_spec() is Ok,
            r matches Ok(t) ==> self.overpayment_spec() == Ok::<int, MortgageError>(
                t - self.amount * MONEY_SCALE,
            ),
            r matches Err(e) ==> self.overpayment_spec() == Err::<int, MortgageError>(e),
    {
        let overpayment = self.calculate_overpayment()?;
        Ok(self.amount as i128 * MONEY_SCALE as i128 + overpayment)
    }

    /// `entry` is month `k + 1` of the annuity schedule from `origin`.
    pub open spec fn entry_matches(&self, origin: CalendarDate, k: int, entry: ScheduleEntry) -> bool {
        let debt = self.debt_after((k + 1) as nat);
        let percent = interest_spec(debt, self.mortgage_rate as int);
        &&& months_later(origin, (k + 1) as nat) == Some(entry.payment_date)
        &&& entry.date@ == iso_text(entry.payment_date)
        &&& entry.mounthly_payment == self.fixed_payment()
        &&& entry.percent_part == percent
        &&& entry.body_part == self.fixed_payment() - percent
        &&& entry.remaining_debt == debt
    }

    /// `entries` is the whole annuity schedule from `origin`: one entry for each
    /// month of the term.
    pub open spec fn is_schedule(&self, origin: CalendarDate, entries: Seq<ScheduleEntry>) -> bool {
        &&& entries.len() == self.total_months()
        &&& forall|k: int| 0 <= k < entries.len() ==> self.entry_matches(origin, k, #[trigger] entries[k])
    }

    /// The payment schedule. The annuity scheme gets one entry per month of the
    /// term; the differentiated scheme is accepted and gets no entries, since
    /// its schedule is not part of this library.
    pub fn show_payment_schedule(&self) -> (r: Result<PaymentShedule, MortgageError>)
        ensures
            !self.terms_valid() ==> r matches Err(MortgageError::InvalidTerms),
            self.terms_valid() && scheme_spec(self.payment_type@) is None ==> r matches Err(
                MortgageError::UnrecognizedPaymentScheme,
            ),
            self.terms_valid() && scheme_spec(self.payment_type@) == Some(
                PaymentScheme::Differentiated,
            ) ==> (r matches Ok(s) && s.payment_details@.len() == 0),
            self.terms_valid() && scheme_spec(self.payment_type@) == Some(PaymentScheme::Annuity)
                ==> match self.origin() {
                None => r matches Err(MortgageError::InvalidDateFormat),
                Some(o) => if months_later(o, self.total_months()) is None {
                    r matches Err(MortgageError::DateOutOfRange)
                } else {
                    (r matches Ok(s) && self.is_schedule(o, s.payment_details@)
                        && s.payment_details@.last().remaining_debt == 0)
                },
            },
    {
        self.check_terms()?;
        let scheme = parse_payment_scheme(&self.payment_type)?;
        if scheme == PaymentScheme::Differentiated {
            return Ok(PaymentShedule { payment_details: Vec::new() });
        }
        let origin = match parse_date(self.taking_date.as_str()) {
            Some(o) => o,
            None => return Err(MortgageError::InvalidDateFormat),
        };
        let months = self.months();
        if add_calendar_months(origin, months).is_none() {
            return Err(MortgageError::DateOutOfRange);
        }
        let payment = self.calculate_annuity_monthly_payment();
        let mut debt = self.debt_on_date(0);
        proof {
            let l = self.loan_base() * MONEY_SCALE;
            lemma_interest_bounds(l, l, self.mortgage_rate as int);
            lemma_annuity_bounds(self.loan_base(), self.mortgage_rate as int, self.total_months());
        }
        let mut entries: Vec<ScheduleEntry> = Vec::new();
        let mut m: u32 = 1;
        while m <= months
            invariant
                self.terms_valid(),
                scheme_spec(self.payment_type@) == Some(PaymentScheme::Annuity),
                self.origin() == Some(origin),
                origin.is_valid(),
                months == self.total_months(),
                months <= 786420,
                months_later(origin, months as nat) is Some,
                payment == self.fixed_payment(),
                payment <= 720 * (self.loan_base() * MONEY_SCALE) + 1,
                self.debt_after(0) <= MAX_BALANCE,
                1 <= m <= months + 1,
                entries@.len() == m - 1,
                debt == self.debt_after((m - 1) as nat),
                forall|k: int| 0 <= k < entries@.len() ==> self.entry_matches(origin, k, #[trigger] entries@[k]),
            decreases months + 1 - m,
        {
            proof {
                lemma_debt_non_increasing(
                    self.loan_base(),
                    self.mortgage_rate as int,
                    self.total_months(),
                    (m - 1) as nat,
                );
                lemma_months_later_in_range(origin, m as nat, months as nat);
            }
            debt = next_debt(debt, payment, self.mortgage_rate);
            let payment_date = add_calendar_months(origin, m).unwrap();
            let percent = interest_part(debt, self.mortgage_rate);
            proof {
                lemma_interest_bounds(debt as int, debt as int, self.mortgage_rate as int);
            }
            let entry = ScheduleEntry {
                date: date_text(payment_date),
                payment_date,
                mounthly_payment: payment,
                percent_part: percent,
                body_part: payment as i128 - percent as i128,
                remaining_debt: debt,
            };
            entries.push(entry);
            m = m + 1;
        }
        proof {
            lemma_debt_retired_at_term(
                self.loan_base(),
                self.mortgage_rate as int,
                self.total_months(),
            );
            assert(self.entry_matches(origin, months - 1, entries@[months - 1]));
        }
        Ok(PaymentShedule { payment_details: entries })
    }
}

/// A schedule runs forward in time: of two entries, the earlier one has the
/// earlier date.
pub proof fn lemma_schedule_chronological(
    mortgage: Mortgage,
    origin: CalendarDate,
    entries: Seq<ScheduleEntry>,
    j: int,
    k: int,
)
    requires
        origin.is_valid(),
        mortgage.is_schedule(origin, entries),
        0 <= j < k < entries.len(),
    ensures
        entries[j].payment_date.precedes(entries[k].payment_date),
{
    assert(mortgage.entry_matches(origin, j, entries[j]));
    assert(mortgage.entry_matches(origin, k, entries[k]));
    lemma_months_later_ascending(origin, (j + 1) as nat, (k + 1) as nat);
}

/// In every entry the interest part and the principal part add up to the
/// total payment.
pub proof fn lemma_schedule_parts_add_up(
    mortgage: Mortgage,
    origin: CalendarDate,
    entries: Seq<ScheduleEntry>,
    k: int,
)
    requires
        mortgage.is_schedule(origin, entries),
        0 <= k < entries.len(),
    ensures
        entries[k].mounthly_payment == entries[k].percent_part + entries[k].body_part,
{
    assert(mortgage.entry_matches(origin, k, entries[k]));
}

/// The remaining debt never grows from one entry to the next.
pub proof fn lemma_schedule_debt_non_increasing(
    mortgage: Mortgage,
    origin: CalendarDate,
    entries: Seq<ScheduleEntry>,
    k: int,
)
    requires
        mortgage.terms_valid(),
        mortgage.is_schedule(origin, entries),
        0 <= k && k + 1 < entries.len(),
    ensures
        entries[k + 1].remaining_debt <= entries[k].remaining_debt,
{
    assert(mortgage.entry_matches(origin, k, entries[k]));
    assert(mortgage.entry_matches(origin, k + 1, entries[k + 1]));
    lemma_debt_non_increasing(
        mortgage.loan_base(),
        mortgage.mortgage_rate as int,
        mortgage.total_months(),
        (k + 1) as nat,
    );
}

} // verus!
