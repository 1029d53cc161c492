use aggregator::aggregator::Aggregator;
use aggregator::errors::Error;
use aggregator::errors::ErrorKind;

const OWNER: u64 = 1;
const TOKEN: u64 = 77;
const DEPOSITOR: u64 = 2;
const ORACLE_A: u64 = 10;
const ORACLE_B: u64 = 11;
const ORACLE_C: u64 = 12;
const ADMIN_A: u64 = 20;
const ADMIN_B: u64 = 21;
const ADMIN_C: u64 = 22;
const REQUESTER: u64 = 30;
const PAYMENT: u64 = 10;
const TIMEOUT: u64 = 5;

/// A freshly deployed aggregator with one depositor and three oracles, a
/// quorum of two, a cap of three, and no restart delay.
fn setup(funding: u64, now: u64) -> Aggregator {
    let mut agg = Aggregator::init(
        OWNER,
        TOKEN,
        PAYMENT,
        TIMEOUT,
        1,
        1_000_000,
        8,
        b"LEG/USD".to_vec(),
        1,
        now,
    );
    agg.add_funds(DEPOSITOR, TOKEN, funding).unwrap();
    agg.change_oracles(
        OWNER,
        vec![],
        vec![ORACLE_A, ORACLE_B, ORACLE_C],
        vec![ADMIN_A, ADMIN_B, ADMIN_C],
        2,
        3,
        0,
    )
    .unwrap();
    agg
}

#[test]
fn init_opens_round_zero_with_no_answer() {
    let agg = Aggregator::init(OWNER, TOKEN, PAYMENT, TIMEOUT, 1, 100, 8, b"d".to_vec(), 1, 50);
    let round = agg.get_round_data(0).unwrap();
    assert!(round.answer.is_none());
    assert_eq!(round.started_at, 50);
    assert_eq!(agg.oracle_count(), 0);
    assert_eq!(agg.available_funds(), 0);
    assert_eq!(agg.allocated_funds(), 0);
}

#[test]
fn quorum_of_two_finalizes_with_the_mean_and_pays_both() {
    let mut agg = setup(1000, 100);
    agg.submit(ORACLE_A, 1, vec![100], 101).unwrap();
    // one submission: below the quorum, the round stays open
    assert!(agg.get_round_data(1).unwrap().answer.is_none());
    agg.submit(ORACLE_B, 1, vec![200], 102).unwrap();
    let round = agg.get_round_data(1).unwrap();
    assert_eq!(round.answer.as_ref().unwrap().values, vec![150]);
    assert_eq!(round.answered_in_round, 1);
    assert_eq!(round.updated_at, 102);
    assert_eq!(agg.withdrawable_payment(ORACLE_A).unwrap(), PAYMENT);
    assert_eq!(agg.withdrawable_payment(ORACLE_B).unwrap(), PAYMENT);
    assert_eq!(agg.withdrawable_payment(ORACLE_C).unwrap(), 0);
    // the latest round is now round one
    assert_eq!(agg.latest_round_data().unwrap().round_id, 1);
}

#[test]
fn funds_are_conserved_across_a_whole_round() {
    let mut agg = setup(1000, 100);
    agg.submit(ORACLE_A, 1, vec![100], 101).unwrap();
    agg.submit(ORACLE_B, 1, vec![200], 102).unwrap();
    agg.withdraw_payment(ADMIN_A, ORACLE_A, ADMIN_A, 4).unwrap();
    agg.withdraw_funds(DEPOSITOR, 500).unwrap();
    let deposits = agg.withdrawable_added_funds(DEPOSITOR);
    let withdrawable = agg.withdrawable_payment(ORACLE_A).unwrap()
        + agg.withdrawable_payment(ORACLE_B).unwrap() + agg.withdrawable_payment(ORACLE_C).unwrap();
    assert_eq!(
        agg.available_funds() + agg.allocated_funds(),
        deposits + withdrawable
    );
}

#[test]
fn an_oracle_cannot_report_twice_into_one_round() {
    let mut agg = setup(1000, 100);
    agg.submit(ORACLE_A, 1, vec![100], 101).unwrap();
    let e = agg.submit(ORACLE_A, 1, vec![150], 102).unwrap_err();
    assert_eq!(e, Error::AlreadyReportedRound);
    assert_eq!(e.kind(), ErrorKind::State);
    // nothing was recorded or paid for the rejected report
    assert_eq!(agg.withdrawable_payment(ORACLE_A).unwrap(), PAYMENT);
}

#[test]
fn a_timed_out_round_inherits_the_previous_answer() {
    let mut agg = setup(1000, 100);
    agg.submit(ORACLE_A, 1, vec![100], 101).unwrap();
    agg.submit(ORACLE_B, 1, vec![200], 102).unwrap();
    // round two opens but only one oracle reports before it goes stale
    agg.submit(ORACLE_C, 2, vec![900], 103).unwrap();
    assert!(agg.get_round_data(2).unwrap().answer.is_none());
    // well past started_at + timeout, opening round three closes round two
    agg.submit(ORACLE_A, 3, vec![300], 200).unwrap();
    let second = agg.get_round_data(2).unwrap();
    assert_eq!(second.answer.as_ref().unwrap().values, vec![150]);
    assert_eq!(second.answered_in_round, 1);
    assert_eq!(second.updated_at, 200);
    // its buffer is gone: nobody can report into it any more
    let e = agg.oracle_round_state(ORACLE_B, 2, 200).unwrap_err();
    assert_eq!(e, Error::UnknownRoundDetails);
}

#[test]
fn withdraw_funds_must_keep_the_reserve() {
    let mut agg = setup(1000, 100);
    // the reserve is payment * oracle_count * 2 = 60
    assert_eq!(agg.required_reserve(PAYMENT), 60);
    let e = agg.withdraw_funds(DEPOSITOR, 950).unwrap_err();
    assert_eq!(e, Error::InsufficientReserve);
    assert_eq!(e.kind(), ErrorKind::InsufficientFunds);
    assert_eq!(agg.available_funds(), 1000);
    agg.withdraw_funds(DEPOSITOR, 940).unwrap();
    assert_eq!(agg.available_funds(), 60);
}

#[test]
fn withdraw_funds_is_capped_by_the_own_deposit() {
    let mut agg = setup(1000, 100);
    let e = agg.withdraw_funds(DEPOSITOR, 1001).unwrap_err();
    assert_eq!(e, Error::InsufficientDeposit);
    let e = agg.withdraw_funds(OWNER, 1).unwrap_err();
    assert_eq!(e, Error::InsufficientDeposit);
}

#[test]
fn max_submissions_above_oracle_count_is_rejected() {
    let mut agg = setup(1000, 100);
    let e = agg.update_future_rounds(OWNER, PAYMENT, 2, 4, 0, TIMEOUT).unwrap_err();
    assert_eq!(e, Error::MaxAboveOracleCount);
    assert_eq!(e.kind(), ErrorKind::Validation);
}

#[test]
fn configuration_bounds_are_checked_in_order() {
    let mut agg = setup(1000, 100);
    assert_eq!(
        agg.update_future_rounds(OWNER, PAYMENT, 3, 2, 0, TIMEOUT).unwrap_err(),
        Error::MaxBelowMin
    );
    assert_eq!(
        agg.update_future_rounds(OWNER, PAYMENT, 2, 3, 3, TIMEOUT).unwrap_err(),
        Error::DelayAboveOracleCount
    );
    assert_eq!(
        agg.update_future_rounds(OWNER, 1000, 2, 3, 0, TIMEOUT).unwrap_err(),
        Error::InsufficientFundsForPayment
    );
    assert_eq!(
        agg.update_future_rounds(OWNER, PAYMENT, 0, 0, 0, TIMEOUT).unwrap_err(),
        Error::MinIsZero
    );
    assert_eq!(
        agg.update_future_rounds(DEPOSITOR, PAYMENT, 2, 3, 0, TIMEOUT).unwrap_err(),
        Error::NotOwner
    );
}

#[test]
fn submissions_are_validated_before_any_write() {
    let mut agg = setup(1000, 100);
    assert_eq!(
        agg.submit(ORACLE_A, 1, vec![100, 200], 101).unwrap_err(),
        Error::WrongValueCount
    );
    assert_eq!(agg.submit(ORACLE_A, 1, vec![0], 101).unwrap_err(), Error::ValueBelowMinimum);
    assert_eq!(
        agg.submit(ORACLE_A, 1, vec![2_000_000], 101).unwrap_err(),
        Error::ValueAboveMaximum
    );
    assert_eq!(agg.submit(99, 1, vec![100], 101).unwrap_err(), Error::UnknownOracle);
    assert_eq!(agg.submit(ORACLE_A, 5, vec![100], 101).unwrap_err(), Error::InvalidRoundToReport);
    // none of the rejected submissions opened round one
    assert!(agg.get_round_data(1).is_none());
}

#[test]
fn a_full_buffer_stops_accepting_and_is_pruned() {
    let mut agg = Aggregator::init(OWNER, TOKEN, PAYMENT, TIMEOUT, 1, 100, 8, b"d".to_vec(), 1, 9);
    agg.add_funds(DEPOSITOR, TOKEN, 1000).unwrap();
    agg.change_oracles(
        OWNER,
        vec![],
        vec![ORACLE_A, ORACLE_B, ORACLE_C, 13],
        vec![ADMIN_A, ADMIN_B, ADMIN_C, 23],
        2,
        3,
        0,
    )
    .unwrap();
    agg.submit(ORACLE_A, 1, vec![10], 10).unwrap();
    agg.submit(ORACLE_B, 1, vec![20], 11).unwrap();
    agg.submit(ORACLE_C, 1, vec![30], 12).unwrap();
    let e = agg.submit(13, 1, vec![40], 13).unwrap_err();
    assert_eq!(e, Error::RoundNotAcceptingSubmissions);
    // three submissions made the answer their median
    assert_eq!(agg.get_round_data(1).unwrap().answer.as_ref().unwrap().values, vec![20]);
}

#[test]
fn payment_stops_when_available_funds_run_out() {
    // exactly the reserve: two full rounds of payouts
    let mut agg = setup(60, 100);
    agg.submit(ORACLE_A, 1, vec![10], 101).unwrap();
    agg.submit(ORACLE_B, 1, vec![20], 102).unwrap();
    agg.submit(ORACLE_C, 1, vec![30], 103).unwrap();
    agg.submit(ORACLE_A, 2, vec![10], 104).unwrap();
    agg.submit(ORACLE_B, 2, vec![20], 105).unwrap();
    agg.submit(ORACLE_C, 2, vec![30], 106).unwrap();
    assert_eq!(agg.available_funds(), 0);
    let e = agg.submit(ORACLE_A, 3, vec![10], 107).unwrap_err();
    assert_eq!(e, Error::PaymentExceedsAvailable);
    assert_eq!(e.kind(), ErrorKind::InsufficientFunds);
}

#[test]
fn deposits_are_drained_oldest_first() {
    let mut agg = Aggregator::init(OWNER, TOKEN, PAYMENT, TIMEOUT, 1, 100, 8, b"d".to_vec(), 1, 9);
    agg.add_funds(DEPOSITOR, TOKEN, 30).unwrap();
    agg.add_funds(3, TOKEN, 30).unwrap();
    agg.change_oracles(
        OWNER,
        vec![],
        vec![ORACLE_A, ORACLE_B, ORACLE_C],
        vec![ADMIN_A, ADMIN_B, ADMIN_C],
        2,
        3,
        0,
    )
    .unwrap();
    agg.submit(ORACLE_A, 1, vec![10], 10).unwrap();
    agg.submit(ORACLE_B, 1, vec![20], 11).unwrap();
    agg.submit(ORACLE_C, 1, vec![30], 12).unwrap();
    // three payments of ten deplete the first depositor entirely, not pro-rata
    assert_eq!(agg.withdrawable_added_funds(DEPOSITOR), 0);
    assert_eq!(agg.withdrawable_added_funds(3), 30);
}

#[test]
fn add_funds_rejects_the_wrong_token() {
    let mut agg = setup(1000, 100);
    let e = agg.add_funds(DEPOSITOR, TOKEN + 1, 10).unwrap_err();
    assert_eq!(e, Error::WrongToken);
    assert_eq!(e.kind(), ErrorKind::Validation);
    assert_eq!(agg.available_funds(), 1000);
}

#[test]
fn change_oracles_rejects_duplicates_and_mismatched_admins() {
    let mut agg = setup(1000, 100);
    let e = agg
        .change_oracles(OWNER, vec![], vec![ORACLE_A], vec![ADMIN_A], 2, 3, 0)
        .unwrap_err();
    assert_eq!(e, Error::OracleAlreadyEnabled);
    let e = agg.change_oracles(OWNER, vec![], vec![40, 41], vec![ADMIN_A], 2, 3, 0).unwrap_err();
    assert_eq!(e, Error::OracleAdminCountMismatch);
    let e = agg.change_oracles(DEPOSITOR, vec![], vec![], vec![], 2, 3, 0).unwrap_err();
    assert_eq!(e, Error::NotOwner);
    assert_eq!(agg.oracle_count(), 3);
}

#[test]
fn change_oracles_removes_and_reconfigures() {
    let mut agg = setup(1000, 100);
    agg.change_oracles(OWNER, vec![ORACLE_C], vec![], vec![], 1, 2, 1).unwrap();
    assert_eq!(agg.oracle_count(), 2);
    assert_eq!(agg.get_oracles(), vec![ORACLE_A, ORACLE_B]);
    // a single submission now finalizes a round
    agg.submit(ORACLE_A, 1, vec![123], 101).unwrap();
    assert_eq!(agg.get_round_data(1).unwrap().answer.as_ref().unwrap().values, vec![123]);
    // the removed oracle is gone entirely
    assert_eq!(agg.withdrawable_payment(ORACLE_C).unwrap_err(), Error::UnknownOracle);
}

#[test]
fn admin_handoff_is_two_phase() {
    let mut agg = setup(1000, 100);
    assert_eq!(agg.get_admin(ORACLE_A).unwrap(), ADMIN_A);
    let e = agg.transfer_admin(ADMIN_B, ORACLE_A, ADMIN_B).unwrap_err();
    assert_eq!(e, Error::NotAdmin);
    assert_eq!(e.kind(), ErrorKind::Authorization);
    agg.transfer_admin(ADMIN_A, ORACLE_A, ADMIN_B).unwrap();
    // the handoff is pending: the old admin still holds the role
    assert_eq!(agg.get_admin(ORACLE_A).unwrap(), ADMIN_A);
    let e = agg.accept_admin(ADMIN_C, ORACLE_A).unwrap_err();
    assert_eq!(e, Error::NotPendingAdmin);
    agg.accept_admin(ADMIN_B, ORACLE_A).unwrap();
    assert_eq!(agg.get_admin(ORACLE_A).unwrap(), ADMIN_B);
}

#[test]
fn only_the_admin_withdraws_payment_up_to_the_balance() {
    let mut agg = setup(1000, 100);
    agg.submit(ORACLE_A, 1, vec![100], 101).unwrap();
    agg.submit(ORACLE_B, 1, vec![200], 102).unwrap();
    let e = agg.withdraw_payment(ORACLE_A, ORACLE_A, ORACLE_A, 5).unwrap_err();
    assert_eq!(e, Error::NotAdmin);
    let e = agg.withdraw_payment(ADMIN_A, ORACLE_A, ADMIN_A, 11).unwrap_err();
    assert_eq!(e, Error::InsufficientWithdrawable);
    agg.withdraw_payment(ADMIN_A, ORACLE_A, ADMIN_A, 6).unwrap();
    assert_eq!(agg.withdrawable_payment(ORACLE_A).unwrap(), 4);
    assert_eq!(agg.allocated_funds(), 14);
}

#[test]
fn requesters_start_rounds_under_their_own_delay() {
    let mut agg = setup(1000, 100);
    let e = agg.request_new_round(REQUESTER, 101).unwrap_err();
    assert_eq!(e, Error::NotAuthorizedRequester);
    let e = agg.set_requester_permissions(DEPOSITOR, REQUESTER, true, 2).unwrap_err();
    assert_eq!(e, Error::NotOwner);
    agg.set_requester_permissions(OWNER, REQUESTER, true, 2).unwrap();
    // round zero is always supersedable, so the first request opens round one
    assert_eq!(agg.request_new_round(REQUESTER, 101).unwrap(), 1);
    assert_eq!(agg.get_round_data(1).unwrap().started_at, 101);
    // the next request is throttled by the requester's delay of two rounds
    let e = agg.request_new_round(REQUESTER, 102).unwrap_err();
    assert_eq!(e, Error::MustDelayRequests);
    // revoking erases the requester
    agg.set_requester_permissions(OWNER, REQUESTER, false, 0).unwrap();
    let e = agg.request_new_round(REQUESTER, 103).unwrap_err();
    assert_eq!(e, Error::NotAuthorizedRequester);
}

#[test]
fn a_round_is_only_supersedable_once_answered_or_stale() {
    // at time zero a fresh round has neither an update stamp nor a started
    // clock, so nothing can follow it yet
    let mut agg = Aggregator::init(OWNER, TOKEN, PAYMENT, TIMEOUT, 1, 100, 8, b"d".to_vec(), 1, 0);
    agg.add_funds(DEPOSITOR, TOKEN, 1000).unwrap();
    agg.change_oracles(
        OWNER,
        vec![],
        vec![ORACLE_A, ORACLE_B, ORACLE_C],
        vec![ADMIN_A, ADMIN_B, ADMIN_C],
        2,
        3,
        0,
    )
    .unwrap();
    agg.submit(ORACLE_A, 1, vec![10], 0).unwrap();
    let e = agg.submit(ORACLE_B, 2, vec![20], 0).unwrap_err();
    assert_eq!(e, Error::PreviousRoundNotSupersedable);
    agg.set_requester_permissions(OWNER, REQUESTER, true, 0).unwrap();
    let e = agg.request_new_round(REQUESTER, 0).unwrap_err();
    assert_eq!(e, Error::RoundNotSupersedable);
    // once the quorum answers round one, round two may open
    agg.submit(ORACLE_B, 1, vec![20], 1).unwrap();
    assert_eq!(agg.request_new_round(REQUESTER, 2).unwrap(), 2);
}

#[test]
fn a_late_oracle_is_not_yet_enabled_for_old_rounds() {
    let mut agg = setup(1000, 100);
    agg.submit(ORACLE_A, 1, vec![100], 101).unwrap();
    agg.submit(ORACLE_B, 1, vec![200], 102).unwrap();
    agg.submit(ORACLE_C, 2, vec![300], 103).unwrap();
    // a fourth oracle registered now may only report from round three on
    agg.change_oracles(OWNER, vec![], vec![13], vec![23], 2, 3, 0).unwrap();
    let e = agg.submit(13, 2, vec![50], 104).unwrap_err();
    assert_eq!(e, Error::NotYetEnabledOracle);
}

#[test]
fn oracle_round_state_reports_eligibility_and_frozen_payment() {
    let mut agg = setup(1000, 100);
    agg.submit(ORACLE_A, 1, vec![100], 101).unwrap();
    // the round's payment is frozen even if the configuration changes now
    agg.update_future_rounds(OWNER, PAYMENT * 2, 2, 3, 0, TIMEOUT).unwrap();
    let state = agg.oracle_round_state(ORACLE_B, 1, 102).unwrap();
    assert!(state.eligible_to_submit);
    assert_eq!(state.round_id, 1);
    assert_eq!(state.payment_amount, PAYMENT);
    assert_eq!(state.oracle_count, 3);
    assert_eq!(state.available_funds, 990);
    // the oracle that already reported is no longer eligible for round one
    let state = agg.oracle_round_state(ORACLE_A, 1, 102).unwrap();
    assert!(!state.eligible_to_submit);
    // an unknown round has no record to report on
    let e = agg.oracle_round_state(ORACLE_A, 99, 102).unwrap_err();
    assert_eq!(e, Error::UnknownRound);
    assert_eq!(e.kind(), ErrorKind::NotFound);
}

#[test]
fn oracle_round_state_suggests_the_open_round() {
    let mut agg = setup(1000, 100);
    agg.submit(ORACLE_A, 1, vec![100], 101).unwrap();
    agg.submit(ORACLE_B, 1, vec![200], 102).unwrap();
    // round one still accepts a third submission, so it is the suggestion
    let state = agg.oracle_round_state(ORACLE_C, 0, 103).unwrap();
    assert_eq!(state.round_id, 1);
    assert!(state.eligible_to_submit);
    assert_eq!(state.payment_amount, PAYMENT);
    // the latest submission of a reporter is echoed back
    let state = agg.oracle_round_state(ORACLE_A, 1, 103).unwrap();
    assert_eq!(state.latest_submission.as_ref().unwrap().values, vec![100]);
}

#[test]
fn a_trailing_oracle_may_report_one_round_behind() {
    let mut agg =
        Aggregator::init(OWNER, TOKEN, PAYMENT, TIMEOUT, 1, 1_000_000, 8, b"d".to_vec(), 1, 0);
    agg.add_funds(DEPOSITOR, TOKEN, 1000).unwrap();
    agg.change_oracles(
        OWNER,
        vec![],
        vec![ORACLE_A, ORACLE_B, ORACLE_C, 13],
        vec![ADMIN_A, ADMIN_B, ADMIN_C, 23],
        2,
        3,
        0,
    )
    .unwrap();
    agg.submit(ORACLE_A, 1, vec![100], 5).unwrap();
    agg.submit(ORACLE_B, 1, vec![200], 6).unwrap();
    // the clock is an opaque host input; at its zero point a fresh round
    // carries no update stamp, which opens the one-round catch-up window
    agg.submit(ORACLE_C, 2, vec![500], 0).unwrap();
    assert_eq!(agg.get_round_data(2).unwrap().updated_at, 0);
    // the fourth oracle missed round one; while round two has never been
    // updated it may still report one round behind
    agg.submit(13, 1, vec![300], 7).unwrap();
    let round = agg.get_round_data(1).unwrap();
    assert_eq!(round.answer.as_ref().unwrap().values, vec![200]);
    assert_eq!(round.answered_in_round, 1);
}

#[test]
fn a_throttled_oracle_cannot_start_the_next_round() {
    let mut agg = Aggregator::init(OWNER, TOKEN, PAYMENT, TIMEOUT, 1, 100, 8, b"d".to_vec(), 1, 9);
    agg.add_funds(DEPOSITOR, TOKEN, 1000).unwrap();
    agg.change_oracles(
        OWNER,
        vec![],
        vec![ORACLE_A, ORACLE_B, ORACLE_C],
        vec![ADMIN_A, ADMIN_B, ADMIN_C],
        2,
        3,
        1,
    )
    .unwrap();
    agg.submit(ORACLE_A, 1, vec![10], 10).unwrap();
    agg.submit(ORACLE_B, 1, vec![20], 11).unwrap();
    // within its restart delay of one round, the starter of round one does
    // not get to open round two: the attempt finds no buffer
    let e = agg.submit(ORACLE_A, 2, vec![10], 12).unwrap_err();
    assert_eq!(e, Error::RoundNotAcceptingSubmissions);
    // another oracle may open it
    agg.submit(ORACLE_B, 2, vec![20], 13).unwrap();
    // and past the delay the first oracle starts rounds again
    agg.submit(ORACLE_A, 2, vec![10], 14).unwrap();
    agg.submit(ORACLE_A, 3, vec![10], 15).unwrap();
    assert_eq!(agg.get_round_data(3).unwrap().started_at, 15);
}

#[test]
fn submissions_record_the_reporter_history() {
    let mut agg = setup(1000, 100);
    agg.submit(ORACLE_A, 1, vec![100], 101).unwrap();
    // the reporting round moved to one, started by the oracle itself
    let state = agg.oracle_round_state(ORACLE_A, 1, 101).unwrap();
    assert_eq!(state.started_at, 101);
    assert_eq!(state.timeout, TIMEOUT);
    assert_eq!(agg.get_round_data(1).unwrap().round_id, 1);
    assert_eq!(agg.get_round_data(1).unwrap().decimals, 8);
}
