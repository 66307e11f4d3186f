use mortgage_calc::amortization::{
    annuity_payment, discount_factor, interest_part, next_debt, outstanding_balance, FACTOR_SCALE,
    MONEY_SCALE,
};
use mortgage_calc::calendar::{add_calendar_months, date_text, parse_date, CalendarDate};
use mortgage_calc::mortgage::{
    parse_payment_scheme, Balance, Mortgage, MortgageError, PaymentScheme,
};

fn mortgage(amount: u64, rate: u32, period: u16, date: &str, kind: &str, down: u64) -> Mortgage {
    Mortgage::new(amount, rate, period, date.to_string(), kind.to_string(), down)
}

fn date(year: i32, month: u32, day: u32) -> CalendarDate {
    CalendarDate { year, month, day }
}

#[test]
fn one_year_annuity_at_ten_percent() {
    let m = mortgage(1_000_000, 100_000, 1, "01.01.2023", "annuity", 0);
    let payment = m.calculate_annuity_monthly_payment();
    assert_eq!(payment, 879_158_873);
    assert_eq!(payment / MONEY_SCALE, 87_915);
    let schedule = m.show_payment_schedule().unwrap();
    let entries = &schedule.payment_details;
    assert_eq!(entries.len(), 12);
    assert_eq!(entries[0].date, "2023-02-01");
    assert_eq!(entries[11].date, "2024-01-01");
    assert_eq!(entries[0].remaining_debt, 9_280_875_913);
    assert_eq!(entries[11].remaining_debt, 0);
}

#[test]
fn schedule_dates_follow_origination_month_by_month() {
    let m = mortgage(500_000, 75_000, 3, "15.03.2021", "annuity", 100_000);
    let entries = m.show_payment_schedule().unwrap().payment_details;
    assert_eq!(entries.len(), 36);
    let origin = date(2021, 3, 15);
    for (k, e) in entries.iter().enumerate() {
        assert_eq!(Some(e.payment_date), add_calendar_months(origin, k as u32 + 1));
        assert_eq!(e.date, date_text(e.payment_date));
    }
    for pair in entries.windows(2) {
        assert!(pair[0].date < pair[1].date);
    }
}

#[test]
fn schedule_parts_add_up_and_debt_shrinks() {
    let m = mortgage(3_000_000, 123_400, 20, "31.01.2020", "annuity", 600_000);
    let entries = m.show_payment_schedule().unwrap().payment_details;
    assert_eq!(entries.len(), 240);
    for e in entries.iter() {
        assert_eq!(e.mounthly_payment as i128, e.percent_part as i128 + e.body_part);
    }
    for pair in entries.windows(2) {
        assert!(pair[1].remaining_debt <= pair[0].remaining_debt);
    }
    assert_eq!(entries[239].remaining_debt, 0);
}

#[test]
fn zero_rate_pays_equal_shares() {
    let m = mortgage(1_200_000, 0, 1, "01.01.2023", "annuity", 0);
    assert_eq!(m.calculate_annuity_monthly_payment(), 100_000 * MONEY_SCALE);
    let entries = m.show_payment_schedule().unwrap().payment_details;
    assert_eq!(entries[0].percent_part, 0);
    assert_eq!(entries[11].remaining_debt, 0);
    assert_eq!(m.debt_on_date(5), 7_000_000_000);
    assert_eq!(m.calculate_overpayment(), Ok(0));
    assert_eq!(annuity_payment(1_000, 0, 3), 3_333_334);
}

#[test]
fn unknown_scheme_is_reported() {
    let m = mortgage(1_000_000, 100_000, 1, "01.01.2023", "unknown", 0);
    assert_eq!(m.calculate_overpayment(), Err(MortgageError::UnrecognizedPaymentScheme));
    assert_eq!(m.calculate_total_amount(), Err(MortgageError::UnrecognizedPaymentScheme));
    assert!(matches!(
        m.show_payment_schedule(),
        Err(MortgageError::UnrecognizedPaymentScheme)
    ));
    assert_eq!(
        parse_payment_scheme(&"Annuity".to_string()),
        Err(MortgageError::UnrecognizedPaymentScheme)
    );
    assert_eq!(parse_payment_scheme(&"annuity".to_string()), Ok(PaymentScheme::Annuity));
    assert_eq!(
        parse_payment_scheme(&"differentiated".to_string()),
        Ok(PaymentScheme::Differentiated)
    );
}

#[test]
fn total_is_loan_plus_overpayment() {
    let m = mortgage(1_000_000, 100_000, 1, "01.01.2023", "annuity", 0);
    let over = m.calculate_overpayment().unwrap();
    assert_eq!(over, 879_158_873 * 12 - 1_000_000 * 10_000);
    assert_eq!(m.calculate_total_amount(), Ok(1_000_000 * 10_000 + over));
}

#[test]
fn differentiated_overpayment_uses_first_payment() {
    let m = mortgage(1_200_000, 120_000, 1, "01.01.2023", "differentiated", 0);
    assert_eq!(m.calculate_monthly_repayment_debt(), 1_000_000_000);
    assert_eq!(m.calculate_differentiated_monthly_payment(Balance::OriginalPrincipal), 1_120_000_000);
    assert_eq!(m.calculate_overpayment(), Ok(1_440_000_000));
    assert_eq!(m.calculate_total_amount(), Ok(13_440_000_000));
    let schedule = m.show_payment_schedule().unwrap();
    assert!(schedule.payment_details.is_empty());
}

#[test]
fn down_payment_is_free_of_interest() {
    let m = mortgage(1_000, 120_000, 1, "01.01.2023", "annuity", 400);
    assert_eq!(m.calculate_percent_part(Balance::OriginalPrincipal), 60_000);
    assert_eq!(m.calculate_percent_part(Balance::Outstanding(10_000_000)), 100_000);
    assert_eq!(
        m.calculate_annuity_body_part(Balance::Outstanding(10_000_000)),
        m.calculate_annuity_monthly_payment() as i128 - 100_000
    );
}

#[test]
fn invalid_terms_are_refused() {
    let no_term = mortgage(1_000, 100_000, 0, "01.01.2023", "annuity", 0);
    assert_eq!(no_term.calculate_total_amount(), Err(MortgageError::InvalidTerms));
    assert!(matches!(no_term.show_payment_schedule(), Err(MortgageError::InvalidTerms)));
    let too_much_down = mortgage(1_000, 100_000, 1, "01.01.2023", "annuity", 1_001);
    assert_eq!(too_much_down.check_terms(), Err(MortgageError::InvalidTerms));
    assert_eq!(too_much_down.calculate_overpayment(), Err(MortgageError::InvalidTerms));
}

#[test]
fn malformed_date_is_refused() {
    let m = mortgage(1_000_000, 100_000, 1, "2023-01-01", "annuity", 0);
    assert!(matches!(m.show_payment_schedule(), Err(MortgageError::InvalidDateFormat)));
    assert_eq!(m.next_payment_date(1), Err(MortgageError::InvalidDateFormat));
    assert_eq!(parse_date("31.02.2023"), None);
    assert_eq!(parse_date("29.02.2024"), Some(date(2024, 2, 29)));
}

#[test]
fn month_arithmetic_clamps_and_stops_at_range_end() {
    assert_eq!(add_calendar_months(date(2023, 1, 31), 1), Some(date(2023, 2, 28)));
    assert_eq!(add_calendar_months(date(2023, 11, 30), 3), Some(date(2024, 2, 29)));
    assert_eq!(add_calendar_months(date(2023, 5, 5), 0), Some(date(2023, 5, 5)));
    assert_eq!(add_calendar_months(date(262_142, 12, 1), 1), None);
    let m = mortgage(1_000, 100_000, 1, "31.01.2023", "annuity", 0);
    assert_eq!(m.next_payment_date(13), Ok(date(2024, 2, 29)));
}

#[test]
fn dates_are_written_in_iso_form() {
    assert_eq!(date_text(date(2023, 2, 1)), "2023-02-01");
    assert_eq!(date_text(date(987, 12, 9)), "0987-12-09");
    assert_eq!(date_text(date(12_345, 1, 1)), "+12345-01-01");
}

#[test]
fn fixed_point_building_blocks() {
    assert_eq!(discount_factor(120_000, 0), FACTOR_SCALE);
    assert_eq!(discount_factor(120_000, 1), 990_099_009_901);
    assert_eq!(annuity_payment(100, 120_000, 1), 1_010_001);
    assert_eq!(interest_part(1_000_000, 120_000), 10_000);
    assert_eq!(next_debt(1_000_000, 400_000, 120_000), 606_000);
    assert_eq!(next_debt(300_000, 400_000, 120_000), 0);
    assert_eq!(outstanding_balance(1_000_000, 100_000, 12, 0), 10_083_333_333);
    assert_eq!(outstanding_balance(1_000_000, 100_000, 12, 12), 0);
    let m = mortgage(1_000_000, 100_000, 1, "01.01.2023", "annuity", 0);
    assert_eq!(m.debt_on_date(1), 9_280_875_913);
}

#[test]
fn tiny_rate_still_repays_the_loan() {
    let small = mortgage(1_000, 1, 1, "01.01.2023", "annuity", 0);
    let payment = small.calculate_annuity_monthly_payment();
    assert_eq!(payment, 833_337);
    assert!(payment * 12 > 1_000 * MONEY_SCALE);
    assert_eq!(small.calculate_overpayment(), Ok(44));
    assert_eq!(small.debt_on_date(12), 0);
    let entries = small.show_payment_schedule().unwrap().payment_details;
    assert_eq!(entries[11].remaining_debt, 0);
    let large = mortgage(1_000_000, 1, 1, "01.01.2023", "annuity", 0);
    assert_eq!(large.calculate_annuity_monthly_payment(), 833_336_667);
    assert_eq!(large.calculate_overpayment(), Ok(40_004));
    assert_eq!(large.debt_on_date(12), 0);
}

#[test]
fn last_payment_leaves_no_debt() {
    for &(amount, rate, period, down) in &[
        (1_000_000u64, 100_000u32, 30u16, 0u64),
        (750_000, 5_000, 15, 250_000),
        (1_234_567, 0, 7, 34_567),
        (10, 4_000_000_000, 2, 0),
    ] {
        let m = mortgage(amount, rate, period, "29.02.2024", "annuity", down);
        let months = period as u32 * 12;
        assert_eq!(m.debt_on_date(months), 0);
        let entries = m.show_payment_schedule().unwrap().payment_details;
        assert_eq!(entries.len(), months as usize);
        assert_eq!(entries[months as usize - 1].remaining_debt, 0);
    }
}
