//! The round lifecycle controller and its coupled ledgers: who may start and
//! report into a round, when a round is supersedable, when it is finalized
//! with the median answer, and how payment and reserve bookkeeping stays
//! consistent. Every entry point takes the caller and, where time matters,
//! the current time as plain values, validates everything before the first
//! ledger write, and on failure leaves the state untouched.

use vstd::prelude::*;

use crate::data::Funds;
use crate::data::OracleRoundState;
use crate::data::OracleStatus;
use crate::data::OracleStatusView;
use crate::data::Requester;
use crate::data::Round;
use crate::data::RoundDetails;
use crate::data::RoundDetailsView;
use crate::data::RoundView;
use crate::data::Submission;
use crate::errors::Error;
use crate::kv::sget;
use crate::kv::shas;
use crate::kv::sput;
use crate::kv::sdel;
use crate::kv::ssum;
use crate::kv::sunique;
use crate::kv::ListMap;

verus! {

/// How many rounds of payouts the available funds must cover before a
/// configuration is accepted: a safety margin of two full rounds.
pub const RESERVE_ROUNDS: u64 = 2;

/// The largest round id; a fresh oracle's eligibility window ends here.
pub const ROUND_MAX: u64 = u64::MAX;

/// The whole state of the aggregation oracle: its configuration and every
/// ledger. All transitions go through the methods below; each either fully
/// commits or, on a validation failure, changes nothing.
pub struct Aggregator {
    /// The single privileged principal of the host's ownership bootstrap.
    pub owner: u64,
    /// The token every deposit and payout uses.
    pub token_id: u64,
    /// What one accepted submission currently earns.
    pub payment_amount: u64,
    /// How many submissions close a future round's buffer.
    pub max_submission_count: u64,
    /// How many submissions finalize a future round's answer.
    pub min_submission_count: u64,
    /// How many rounds an oracle must wait between rounds it starts.
    pub restart_delay: u64,
    /// After how long an unanswered round becomes supersedable.
    pub timeout: u64,
    /// The smallest value a submission may carry.
    pub min_submission_value: u64,
    /// The largest value a submission may carry.
    pub max_submission_value: u64,
    /// The round currently accepting reports.
    pub reporting_round_id: u64,
    /// The newest round with a finalized answer of its own.
    pub latest_round_id: u64,
    /// The configured decimals, echoed into every round.
    pub decimals: u8,
    /// The configured description, echoed into every round.
    pub description: Vec<u8>,
    /// How many values every submission must carry.
    pub values_count: usize,
    /// Every registered oracle, in registration order.
    pub oracles: ListMap<OracleStatus>,
    /// Every round ever started, a permanent ledger.
    pub rounds: ListMap<Round>,
    /// The open rounds' aggregation buffers; absence means "round closed".
    pub details: ListMap<RoundDetails>,
    /// Every authorized requester.
    pub requesters: ListMap<Requester>,
    /// The global fund totals.
    pub recorded_funds: Funds,
    /// Each depositor's contribution to the available funds, oldest first.
    pub deposits: ListMap<u64>,
}

/// An oracle's accrued earnings, for summing over the registry.
pub open spec fn withdrawable_of() -> spec_fn(OracleStatusView) -> int {
    |st: OracleStatusView| st.withdrawable as int
}

/// A deposit's amount, for summing over the deposit ledger.
pub open spec fn deposit_of() -> spec_fn(u64) -> int {
    |d: u64| d as int
}

/// What must hold of round `r` while its buffer is open: the round exists,
/// an answer below quorum is absent, and a present answer is the round's own
/// aggregation of at least `min_submissions` submissions.
pub open spec fn answer_ok(
    details: Seq<(u64, RoundDetailsView)>,
    rounds: Seq<(u64, RoundView)>,
    r: u64,
) -> bool {
    let d = sget(details, r)->Some_0;
    &&& shas(rounds, r)
    &&& (d.submissions.len() < d.min_submissions ==> sget(rounds, r)->Some_0.answer is None)
    &&& (sget(rounds, r)->Some_0.answer is Some ==> sget(rounds, r)->Some_0.answered_in_round == r
        && d.submissions.len() >= d.min_submissions)
}

/// The first round a newly registered oracle may report into.
pub open spec fn spec_starting_round(
    reporting_round_id: u64,
    oracles: Seq<(u64, OracleStatusView)>,
    oracle: u64,
) -> u64 {
    if reporting_round_id != 0 && shas(oracles, oracle) && sget(
        oracles,
        oracle,
    )->Some_0.ending_round == reporting_round_id {
        reporting_round_id
    } else {
        (reporting_round_id + 1) as u64
    }
}

/// A freshly registered oracle: zero history and earnings, an eligibility
/// window open to the largest round id, and the given admin.
pub open spec fn spec_fresh_oracle_status(
    reporting_round_id: u64,
    oracles: Seq<(u64, OracleStatusView)>,
    oracle: u64,
    admin: u64,
) -> OracleStatusView {
    OracleStatusView {
        withdrawable: 0,
        starting_round: spec_starting_round(reporting_round_id, oracles, oracle),
        ending_round: ROUND_MAX,
        last_reported_round: 0,
        last_started_round: 0,
        latest_submission: Option::None,
        admin,
        pending_admin: Option::None,
    }
}

/// Which error, if any, a future-rounds configuration is rejected with,
/// against a registry of `oracle_count` oracles and `available` funds.
pub open spec fn spec_future_rounds_error(
    oracle_count: int,
    available: u64,
    payment_amount: u64,
    min_submissions: u64,
    max_submissions: u64,
    restart_delay: u64,
) -> Option<Error> {
    if max_submissions < min_submissions {
        Option::Some(Error::MaxBelowMin)
    } else if max_submissions as int > oracle_count {
        Option::Some(Error::MaxAboveOracleCount)
    } else if oracle_count > 0 && restart_delay as int >= oracle_count {
        Option::Some(Error::DelayAboveOracleCount)
    } else if (available as int) < payment_amount as int * oracle_count * RESERVE_ROUNDS as int {
        Option::Some(Error::InsufficientFundsForPayment)
    } else if oracle_count > 0 && min_submissions == 0 {
        Option::Some(Error::MinIsZero)
    } else {
        Option::None
    }
}

/// Which error, if any, the submitted values are rejected with: the first
/// value outside the configured bounds decides.
pub open spec fn spec_limits_error(values: Seq<u64>, min_value: u64, max_value: u64) -> Option<
    Error,
>
    decreases values.len(),
{
    if values.len() == 0 {
        Option::None
    } else if values[0] < min_value {
        Option::Some(Error::ValueBelowMinimum)
    } else if values[0] > max_value {
        Option::Some(Error::ValueAboveMaximum)
    } else {
        spec_limits_error(values.drop_first(), min_value, max_value)
    }
}

/// The registry after every entry whose key is in `removed` is erased; the
/// remaining entries keep their order.
pub open spec fn skeep<V>(s: Seq<(u64, V)>, removed: Seq<u64>) -> Seq<(u64, V)>
    decreases s.len(),
{
    if s.len() == 0 {
        s
    } else if removed.contains(s[0].0) {
        skeep(s.drop_first(), removed)
    } else {
        seq![s[0]] + skeep(s.drop_first(), removed)
    }
}

/// Erasing only entries that `f` values at zero keeps the sum.
pub proof fn lemma_skeep_sum<V>(s: Seq<(u64, V)>, removed: Seq<u64>, f: spec_fn(V) -> int)
    requires
        forall|i: int|
            0 <= i < s.len() && removed.contains(#[trigger] s[i].0) ==> f(s[i].1) == 0,
    ensures
        ssum(skeep(s, removed), f) == ssum(s, f),
    decreases s.len(),
{
    if s.len() > 0 {
        lemma_skeep_sum(s.drop_first(), removed, f);
        if !removed.contains(s[0].0) {
            let t = seq![s[0]] + skeep(s.drop_first(), removed);
            assert(t.drop_first() =~= skeep(s.drop_first(), removed));
            assert(t[0] == s[0]);
        }
    }
}

/// The registry after the added oracles are registered one by one, each with
/// its admin; `None` when one of them is already registered at its turn.
pub open spec fn spec_register_all(
    reporting_round_id: u64,
    s: Seq<(u64, OracleStatusView)>,
    added: Seq<u64>,
    admins: Seq<u64>,
) -> Option<Seq<(u64, OracleStatusView)>>
    decreases added.len(),
{
    if added.len() == 0 {
        Option::Some(s)
    } else if shas(s, added[0]) {
        Option::<Seq<(u64, OracleStatusView)>>::None
    } else {
        spec_register_all(
            reporting_round_id,
            sput(
                s,
                added[0],
                spec_fresh_oracle_status(reporting_round_id, s, added[0], admins[0]),
            ),
            added.drop_first(),
            admins.drop_first(),
        )
    }
}

/// Whether the vector holds the value.
pub fn vec_contains(v: &Vec<u64>, x: u64) -> (r: bool)
    ensures
        r == v@.contains(x),
{
    let n = v.len();
    let mut i: usize = 0;
    while i < n
        invariant
            i <= n,
            n == v@.len(),
            forall|j: int| 0 <= j < i ==> v@[j] != x,
        decreases n - i,
    {
        if v[i] == x {
            return true;
        }
        i = i + 1;
    }
    false
}

/// Every submission buffered for round `r` has width `values_count`.
pub open spec fn buffer_ok(
    details: Seq<(u64, RoundDetailsView)>,
    values_count: int,
    r: u64,
) -> bool {
    let subs = sget(details, r)->Some_0.submissions;
    forall|i: int| 0 <= i < subs.len() ==> (#[trigger] subs[i]).len() == values_count
}

impl Aggregator {
    /// The sum of all depositors' recorded contributions.
    pub open spec fn sum_deposits(&self) -> int {
        ssum(self.deposits@, deposit_of())
    }

    /// The sum of all oracles' withdrawable earnings.
    pub open spec fn sum_withdrawable(&self) -> int {
        ssum(self.oracles@, withdrawable_of())
    }

    /// The conservation law of the funds ledger: `available` is exactly the
    /// depositors' money and `allocated` exactly the oracles' earnings.
    pub open spec fn funds_conserved(&self) -> bool {
        &&& self.recorded_funds.available as int == self.sum_deposits()
        &&& self.recorded_funds.allocated as int == self.sum_withdrawable()
    }

    /// How many oracles are registered.
    pub open spec fn spec_oracle_count(&self) -> int {
        self.oracles@.len() as int
    }

    /// The configuration bounds every accepted reconfiguration maintains:
    /// the quorum window fits the registry and, once oracles exist, a round
    /// needs at least one submission and the restart throttle is meaningful.
    pub open spec fn config_valid(&self) -> bool {
        &&& self.min_submission_count <= self.max_submission_count
        &&& self.max_submission_count as int <= self.spec_oracle_count()
        &&& self.spec_oracle_count() > 0 ==> {
            &&& self.min_submission_count >= 1
            &&& (self.restart_delay as int) < self.spec_oracle_count()
        }
    }

    /// Every open buffer belongs to an existing round, and that round's
    /// answer is set exactly by its own aggregation: never with fewer than
    /// `min_submissions` accepted submissions.
    pub open spec fn answers_consistent(&self) -> bool {
        forall|r: u64| #[trigger] shas(self.details@, r) ==> answer_ok(self.details@, self.rounds@, r)
    }

    /// Every submission held in an open buffer has the configured width.
    pub open spec fn buffers_wellformed(&self) -> bool {
        forall|r: u64|
            #[trigger] shas(self.details@, r) ==> buffer_ok(
                self.details@,
                self.values_count as int,
                r,
            )
    }

    /// Once a round's open buffer has met a positive quorum, its answer is
    /// set. [`Aggregator::init`] establishes this and the round-changing
    /// entry points preserve it; together with
    /// [`Aggregator::answers_consistent`] it makes the answer equivalent to
    /// the quorum being reached.
    pub open spec fn answers_complete(&self) -> bool {
        forall|r: u64|
            #[trigger] shas(self.details@, r) ==> {
                let d = sget(self.details@, r)->Some_0;
                d.min_submissions > 0 && d.submissions.len() >= d.min_submissions ==> sget(
                    self.rounds@,
                    r,
                )->Some_0.answer is Some
            }
    }

    /// The state's invariant: unique ledger keys, valid configuration
    /// bounds, consistent open-round answers and well-formed buffers.
    /// [`Aggregator::init`] establishes it and every entry point keeps it.
    /// The funds conservation law is stated apart as
    /// [`Aggregator::funds_conserved`]: the owner can erase an oracle with
    /// unpaid earnings, which deliberately forfeits them.
    pub open spec fn wf(&self) -> bool {
        &&& self.oracles.wf()
        &&& self.rounds.wf()
        &&& self.details.wf()
        &&& self.requesters.wf()
        &&& self.deposits.wf()
        &&& self.config_valid()
        &&& self.answers_consistent()
        &&& self.buffers_wellformed()
    }

    /// The reserve a configuration with payment `payment` requires:
    /// enough available funds for [`RESERVE_ROUNDS`] rounds of full payouts.
    pub open spec fn spec_required_reserve(&self, payment: u64) -> int {
        payment as int * self.spec_oracle_count() * RESERVE_ROUNDS as int
    }

    /// A depositor's recorded contribution; zero when none is recorded.
    pub open spec fn spec_deposit(&self, address: u64) -> u64 {
        match sget(self.deposits@, address) {
            Option::Some(d) => d,
            Option::None => 0,
        }
    }

    /// Whether the round is stale: round zero always is; otherwise the round
    /// must have started, carry a non-zero timeout in its open buffer, and
    /// have outlived it.
    pub open spec fn spec_timed_out(&self, round_id: u64, now: u64) -> bool {
        ||| round_id == 0
        ||| {
            &&& shas(self.rounds@, round_id)
            &&& shas(self.details@, round_id)
            &&& {
                let rd = sget(self.rounds@, round_id)->Some_0;
                let d = sget(self.details@, round_id)->Some_0;
                rd.started_at > 0 && d.timeout > 0 && rd.started_at + d.timeout < now
            }
        }
    }

    /// Whether the round may be followed by the next one: it was answered,
    /// or it is timed out (round zero always is).
    pub open spec fn spec_supersedable(&self, round_id: u64, now: u64) -> bool {
        &&& shas(self.rounds@, round_id)
        &&& (sget(self.rounds@, round_id)->Some_0.updated_at > 0 || self.spec_timed_out(
            round_id,
            now,
        ))
    }

    /// Whether the round still takes submissions: its buffer is present and
    /// was created under a configuration that admits submissions at all.
    pub open spec fn spec_accepting_submissions(&self, round_id: u64) -> bool {
        &&& shas(self.details@, round_id)
        &&& sget(self.details@, round_id)->Some_0.max_submissions != 0
    }

    /// Whether the oracle is past its restart throttle for `round_id`:
    /// it never started a round, or `round_id` lies beyond the last round it
    /// started plus the configured delay. Meaningful only for registered
    /// oracles.
    pub open spec fn spec_delayed(&self, oracle: u64, round_id: u64) -> bool {
        let st = sget(self.oracles@, oracle)->Some_0;
        ||| round_id as int > st.last_started_round as int + self.restart_delay as int
        ||| st.last_started_round == 0
    }

    /// Whether `round_id` would start the next round.
    pub open spec fn spec_new_round(&self, round_id: u64) -> bool {
        round_id as int == self.reporting_round_id as int + 1
    }

    /// Whether `round_id` is the round just before the current reporting
    /// round while that round has never been updated — the one-round
    /// catch-up window for a late oracle.
    pub open spec fn spec_previous_and_current_unanswered(&self, round_id: u64) -> bool {
        &&& round_id as int + 1 == self.reporting_round_id as int
        &&& shas(self.rounds@, self.reporting_round_id)
        &&& sget(self.rounds@, self.reporting_round_id)->Some_0.updated_at == 0
    }

    /// The round admissibility check for a submission: which error, if any,
    /// a report by `oracle` into `round_id` is rejected with.
    pub open spec fn spec_validate_oracle_round(&self, oracle: u64, round_id: u64, now: u64) -> Option<
        Error,
    > {
        if !shas(self.oracles@, oracle) {
            Option::Some(Error::UnknownOracle)
        } else {
            let st = sget(self.oracles@, oracle)->Some_0;
            if st.starting_round == 0 {
                Option::Some(Error::NotEnabledOracle)
            } else if !(st.starting_round <= round_id) {
                Option::Some(Error::NotYetEnabledOracle)
            } else if !(st.ending_round >= round_id) {
                Option::Some(Error::NoLongerAllowedOracle)
            } else if !(st.last_reported_round < round_id) {
                Option::Some(Error::AlreadyReportedRound)
            } else if !(round_id == self.reporting_round_id || round_id as int
                == self.reporting_round_id as int + 1 || self.spec_previous_and_current_unanswered(
                round_id,
            )) {
                Option::Some(Error::InvalidRoundToReport)
            } else if !(round_id == 1 || self.spec_supersedable((round_id - 1) as u64, now)) {
                Option::Some(Error::PreviousRoundNotSupersedable)
            } else {
                Option::None
            }
        }
    }

    /// Whether the round is stale. Round zero counts as always timed out, so
    /// the bootstrap round never blocks the first real round.
    pub fn timed_out(&self, round_id: u64, now: u64) -> (r: bool)
        ensures
            r == self.spec_timed_out(round_id, now),
    {
        if round_id == 0 {
            return true;
        }
        let round = match self.rounds.get(round_id) {
            Option::Some(rd) => rd,
            Option::None => {
                return false;
            },
        };
        let details = match self.details.get(round_id) {
            Option::Some(d) => d,
            Option::None => {
                return false;
            },
        };
        round.started_at > 0 && details.timeout > 0 && (round.started_at as u128
            + details.timeout as u128) < now as u128
    }

    /// Whether the round was answered or is timed out.
    pub fn supersedable(&self, round_id: u64, now: u64) -> (r: bool)
        ensures
            r == self.spec_supersedable(round_id, now),
    {
        let round = match self.rounds.get(round_id) {
            Option::Some(rd) => rd,
            Option::None => {
                return false;
            },
        };
        round.updated_at > 0 || self.timed_out(round_id, now)
    }

    /// Whether the round's buffer still takes submissions.
    pub fn accepting_submissions(&self, round_id: u64) -> (r: bool)
        ensures
            r == self.spec_accepting_submissions(round_id),
    {
        match self.details.get(round_id) {
            Option::Some(d) => d.max_submissions != 0,
            Option::None => false,
        }
    }

    /// Whether the oracle is past its restart throttle for `round_id`.
    /// Unknown oracles are rejected.
    pub fn delayed(&self, oracle: u64, round_id: u64) -> (r: Result<bool, Error>)
        ensures
            match r {
                Result::Ok(b) => shas(self.oracles@, oracle) && b == self.spec_delayed(
                    oracle,
                    round_id,
                ),
                Result::Err(e) => !shas(self.oracles@, oracle) && e == Error::UnknownOracle,
            },
    {
        let st = match self.oracles.get(oracle) {
            Option::Some(st) => st,
            Option::None => {
                return Result::Err(Error::UnknownOracle);
            },
        };
        Result::Ok(
            round_id as u128 > st.last_started_round as u128 + self.restart_delay as u128
                || st.last_started_round == 0,
        )
    }

    /// Whether `round_id` would start the next round.
    pub fn new_round(&self, round_id: u64) -> (r: bool)
        ensures
            r == self.spec_new_round(round_id),
    {
        self.reporting_round_id < u64::MAX && round_id == self.reporting_round_id + 1
    }

    /// Whether `round_id` sits one behind a reporting round that has never
    /// been updated.
    pub fn previous_and_current_unanswered(&self, round_id: u64) -> (r: bool)
        ensures
            r == self.spec_previous_and_current_unanswered(round_id),
    {
        let round = match self.rounds.get(self.reporting_round_id) {
            Option::Some(rd) => rd,
            Option::None => {
                return false;
            },
        };
        round_id as u128 + 1 == self.reporting_round_id as u128 && round.updated_at == 0
    }

    /// Whether the address is a registered oracle.
    pub fn oracle_enabled(&self, oracle: u64) -> (r: bool)
        ensures
            r == shas(self.oracles@, oracle),
    {
        self.oracles.contains_key(oracle)
    }

    /// The round admissibility check for a submission by `oracle` into
    /// `round_id`: the oracle must be registered and inside its eligibility
    /// window, must not report twice into a round, may only target the
    /// current round, the next one, or the one-behind catch-up window, and
    /// the previous round must be supersedable.
    pub fn validate_oracle_round(&self, oracle: u64, round_id: u64, now: u64) -> (r: Result<
        (),
        Error,
    >)
        ensures
            match r {
                Result::Ok(()) => self.spec_validate_oracle_round(oracle, round_id, now) is None,
                Result::Err(e) => self.spec_validate_oracle_round(oracle, round_id, now)
                    == Option::Some(e),
            },
    {
        let st = match self.oracles.get(oracle) {
            Option::Some(st) => st,
            Option::None => {
                return Result::Err(Error::UnknownOracle);
            },
        };
        if st.starting_round == 0 {
            return Result::Err(Error::NotEnabledOracle);
        }
        if !(st.starting_round <= round_id) {
            return Result::Err(Error::NotYetEnabledOracle);
        }
        if !(st.ending_round >= round_id) {
            return Result::Err(Error::NoLongerAllowedOracle);
        }
        if !(st.last_reported_round < round_id) {
            return Result::Err(Error::AlreadyReportedRound);
        }
        let in_window = round_id == self.reporting_round_id || (self.reporting_round_id < u64::MAX
            && round_id == self.reporting_round_id + 1) || self.previous_and_current_unanswered(
            round_id,
        );
        if !in_window {
            return Result::Err(Error::InvalidRoundToReport);
        }
        if !(round_id == 1 || self.supersedable(round_id - 1, now)) {
            return Result::Err(Error::PreviousRoundNotSupersedable);
        }
        Result::Ok(())
    }
}

/// The deposit ledger after a payment of `amount` is drawn from it:
/// depositors are depleted oldest-first, in insertion order; the depositor
/// the drain stops in keeps the rest, later depositors are untouched.
pub open spec fn drain_seq(s: Seq<(u64, u64)>, amount: int) -> Seq<(u64, u64)>
    decreases s.len(),
{
    if amount <= 0 || s.len() == 0 {
        s
    } else if s[0].1 <= amount {
        drain_seq(s.drop_first(), amount - s[0].1)
    } else {
        seq![(s[0].0, (s[0].1 - amount) as u64)] + s.drop_first()
    }
}

/// A drain covered by the ledger removes exactly what was drawn.
pub proof fn lemma_drain_seq_sum(s: Seq<(u64, u64)>, amount: int)
    requires
        0 <= amount <= ssum(s, deposit_of()),
    ensures
        ssum(drain_seq(s, amount), deposit_of()) == ssum(s, deposit_of()) - amount,
    decreases s.len(),
{
    if amount <= 0 || s.len() == 0 {
    } else if s[0].1 <= amount {
        lemma_drain_seq_sum(s.drop_first(), amount - s[0].1);
    } else {
        let t = seq![(s[0].0, (s[0].1 - amount) as u64)] + s.drop_first();
        assert(t.drop_first() =~= s.drop_first());
        assert(t[0].1 == s[0].1 - amount);
    }
}

impl Aggregator {
    /// A depositor's recorded contribution.
    pub fn get_deposit(&self, address: u64) -> (r: u64)
        ensures
            r == self.spec_deposit(address),
    {
        match self.deposits.get(address) {
            Option::Some(d) => *d,
            Option::None => 0,
        }
    }

    /// Records `amount` as `address`'s deposit; a zero deposit is erased.
    fn set_deposit(&mut self, address: u64, amount: u64)
        requires
            old(self).deposits.wf(),
        ensures
            final(self).deposits.wf(),
            final(self).deposits@ == (if amount == 0 {
                sdel(old(self).deposits@, address)
            } else {
                sput(old(self).deposits@, address, amount)
            }),
            *final(self) == (Aggregator { deposits: final(self).deposits, ..*old(self) }),
    {
        if amount == 0 {
            self.deposits.remove(address);
        } else {
            self.deposits.insert(address, amount);
        }
    }

    /// Accepts a deposit of `payment` in token `token` from `caller`:
    /// the available funds and the caller's own recorded deposit both grow by
    /// the payment. Rejected when the token is not the configured one.
    pub fn add_funds(&mut self, caller: u64, token: u64, payment: u64) -> (r: Result<(), Error>)
        requires
            old(self).wf(),
            old(self).recorded_funds.available + payment <= u64::MAX,
            old(self).spec_deposit(caller) + payment <= u64::MAX,
        ensures
            final(self).wf(),
            old(self).funds_conserved() ==> final(self).funds_conserved(),
            match r {
                Result::Ok(()) => {
                    &&& token == old(self).token_id
                    &&& final(self).recorded_funds == (Funds {
                        available: (old(self).recorded_funds.available + payment) as u64,
                        allocated: old(self).recorded_funds.allocated,
                    })
                    &&& final(self).deposits@ == (if old(self).spec_deposit(caller) + payment
                        == 0 {
                        sdel(old(self).deposits@, caller)
                    } else {
                        sput(
                            old(self).deposits@,
                            caller,
                            (old(self).spec_deposit(caller) + payment) as u64,
                        )
                    })
                    &&& *final(self) == (Aggregator {
                        recorded_funds: final(self).recorded_funds,
                        deposits: final(self).deposits,
                        ..*old(self)
                    })
                },
                Result::Err(e) => {
                    &&& e == Error::WrongToken
                    &&& token != old(self).token_id
                    &&& *final(self) == *old(self)
                },
            },
    {
        if token != self.token_id {
            return Result::Err(Error::WrongToken);
        }
        self.recorded_funds.available = self.recorded_funds.available + payment;
        let deposit = self.get_deposit(caller) + payment;
        proof {
            if deposit == 0 {
                crate::kv::lemma_ssum_sdel(old(self).deposits@, caller, deposit_of());
            } else {
                crate::kv::lemma_ssum_sput(old(self).deposits@, caller, deposit, deposit_of());
            }
        }
        self.set_deposit(caller, deposit);
        Result::Ok(())
    }

    /// Draws `amount` from the deposit ledger, oldest depositor first.
    fn subtract_amount_from_deposits(&mut self, amount: u64)
        requires
            old(self).deposits.wf(),
        ensures
            final(self).deposits.wf(),
            final(self).deposits@ == drain_seq(old(self).deposits@, amount as int),
            *final(self) == (Aggregator { deposits: final(self).deposits, ..*old(self) }),
    {
        let mut remaining: u64 = amount;
        while remaining > 0 && self.deposits.len() > 0
            invariant
                self.deposits.wf(),
                drain_seq(self.deposits@, remaining as int) == drain_seq(
                    old(self).deposits@,
                    amount as int,
                ),
                *self == (Aggregator { deposits: self.deposits, ..*old(self) }),
            decreases self.deposits@.len(), remaining,
        {
            let ghost pre = self.deposits@;
            let entry = self.deposits.entry_at(0);
            let account = entry.0;
            let deposit = *entry.1;
            if deposit <= remaining {
                proof {
                    crate::kv::lemma_sdel_index(pre, account, 0);
                    assert(pre.remove(0) =~= pre.drop_first());
                }
                self.deposits.remove(account);
                remaining = remaining - deposit;
            } else {
                proof {
                    crate::kv::lemma_sput_index(pre, account, (deposit - remaining) as u64, 0);
                    assert(pre.update(0, (account, (deposit - remaining) as u64)) =~= seq![
                        (account, (deposit - remaining) as u64),
                    ] + pre.drop_first());
                }
                self.deposits.insert(account, deposit - remaining);
                remaining = 0;
            }
        }
    }

    /// The registered oracle at the address, if any.
    pub fn get_oracle_status_option(&self, oracle: u64) -> (r: Option<&OracleStatus>)
        ensures
            match r {
                Option::Some(st) => sget(self.oracles@, oracle) == Option::Some(st@),
                Option::None => !shas(self.oracles@, oracle),
            },
    {
        self.oracles.get(oracle)
    }

    /// The registered oracle at the address, or the lookup error.
    pub fn get_oracle_status_result(&self, oracle: u64) -> (r: Result<&OracleStatus, Error>)
        ensures
            match r {
                Result::Ok(st) => sget(self.oracles@, oracle) == Option::Some(st@),
                Result::Err(e) => !shas(self.oracles@, oracle) && e == Error::UnknownOracle,
            },
    {
        match self.oracles.get(oracle) {
            Option::Some(st) => Result::Ok(st),
            Option::None => Result::Err(Error::UnknownOracle),
        }
    }

    /// The round with the given id, or the lookup error.
    pub fn get_round(&self, round_id: u64) -> (r: Result<&Round, Error>)
        ensures
            match r {
                Result::Ok(rd) => sget(self.rounds@, round_id) == Option::Some(rd@),
                Result::Err(e) => !shas(self.rounds@, round_id) && e == Error::UnknownRound,
            },
    {
        match self.rounds.get(round_id) {
            Option::Some(rd) => Result::Ok(rd),
            Option::None => Result::Err(Error::UnknownRound),
        }
    }

    /// The round's aggregation buffer, or the lookup error.
    pub fn get_round_details(&self, round_id: u64) -> (r: Result<&RoundDetails, Error>)
        ensures
            match r {
                Result::Ok(d) => sget(self.details@, round_id) == Option::Some(d@),
                Result::Err(e) => !shas(self.details@, round_id) && e
                    == Error::UnknownRoundDetails,
            },
    {
        match self.details.get(round_id) {
            Option::Some(d) => Result::Ok(d),
            Option::None => Result::Err(Error::UnknownRoundDetails),
        }
    }

    /// The answer a timed-out round inherits: the previous round's, if any.
    pub open spec fn spec_carry_answer(&self, round_id: u64) -> Option<Seq<u64>> {
        if round_id >= 1 && shas(self.rounds@, (round_id - 1) as u64) {
            sget(self.rounds@, (round_id - 1) as u64)->Some_0.answer
        } else {
            Option::None
        }
    }

    /// The provenance a timed-out round inherits along with its answer.
    pub open spec fn spec_carry_answered_in(&self, round_id: u64) -> u64 {
        if round_id >= 1 && shas(self.rounds@, (round_id - 1) as u64) {
            sget(self.rounds@, (round_id - 1) as u64)->Some_0.answered_in_round
        } else {
            0
        }
    }

    /// The record of a round closed out by timeout supersession: the prior
    /// answer and provenance carried forward unchanged, stamped at `now`.
    pub open spec fn spec_closed_round(&self, round_id: u64, now: u64) -> RoundView {
        RoundView {
            answer: self.spec_carry_answer(round_id),
            answered_in_round: self.spec_carry_answered_in(round_id),
            updated_at: now,
            ..sget(self.rounds@, round_id)->Some_0
        }
    }

    /// A fresh round record: no answer yet, the current decimals and
    /// description, started and updated at `now`.
    pub open spec fn spec_fresh_round(&self, round_id: u64, now: u64) -> RoundView {
        RoundView {
            round_id,
            answer: Option::None,
            decimals: self.decimals,
            description: self.description@,
            started_at: now,
            updated_at: now,
            answered_in_round: 0,
        }
    }

    /// A fresh aggregation buffer: no submissions yet, and the current
    /// thresholds, timeout and payment frozen for the round's lifetime.
    pub open spec fn spec_fresh_details(&self) -> RoundDetailsView {
        RoundDetailsView {
            submissions: Seq::empty(),
            max_submissions: self.max_submission_count,
            min_submissions: self.min_submission_count,
            timeout: self.timeout,
            payment_amount: self.payment_amount,
        }
    }

    /// Whether starting `round_id` closes out a timed-out predecessor.
    pub open spec fn spec_closes_prev(&self, round_id: u64, now: u64) -> bool {
        &&& round_id >= 1
        &&& self.spec_timed_out((round_id - 1) as u64, now)
        &&& shas(self.rounds@, (round_id - 1) as u64)
    }

    /// The round ledger after `round_id` is initialized at `now`.
    pub open spec fn spec_rounds_after_init(&self, round_id: u64, now: u64) -> Seq<
        (u64, RoundView),
    > {
        let base = if self.spec_closes_prev(round_id, now) {
            sput(
                self.rounds@,
                (round_id - 1) as u64,
                self.spec_closed_round((round_id - 1) as u64, now),
            )
        } else {
            self.rounds@
        };
        sput(base, round_id, self.spec_fresh_round(round_id, now))
    }

    /// The buffer ledger after `round_id` is initialized at `now`.
    pub open spec fn spec_details_after_init(&self, round_id: u64, now: u64) -> Seq<
        (u64, RoundDetailsView),
    > {
        let base = if self.spec_closes_prev(round_id, now) {
            sdel(self.details@, (round_id - 1) as u64)
        } else {
            self.details@
        };
        sput(base, round_id, self.spec_fresh_details())
    }

    /// Closes out a timed-out round before its successor opens: the round
    /// inherits the previous round's answer and provenance unchanged, is
    /// stamped `updated_at = now`, and its buffer is discarded. A round that
    /// is not timed out (or unknown) is left alone.
    fn update_timed_out_round_info(&mut self, round_id: u64, now: u64)
        requires
            old(self).wf(),
        ensures
            final(self).wf(),
            if old(self).spec_timed_out(round_id, now) && shas(old(self).rounds@, round_id) {
                &&& final(self).rounds@ == sput(
                    old(self).rounds@,
                    round_id,
                    old(self).spec_closed_round(round_id, now),
                )
                &&& final(self).details@ == sdel(old(self).details@, round_id)
                &&& *final(self) == (Aggregator {
                    rounds: final(self).rounds,
                    details: final(self).details,
                    ..*old(self)
                })
            } else {
                *final(self) == *old(self)
            },
    {
        if !self.timed_out(round_id, now) {
            return ;
        }
        let mut carry_answer: Option<Submission> = Option::None;
        let mut carry_answered_in: u64 = 0;
        if round_id >= 1 {
            match self.rounds.get(round_id - 1) {
                Option::Some(prev) => {
                    carry_answer = crate::data::clone_opt_submission(&prev.answer);
                    carry_answered_in = prev.answered_in_round;
                },
                Option::None => {},
            }
        }
        let updated = match self.rounds.get(round_id) {
            Option::Some(rd) => Round {
                round_id: rd.round_id,
                answer: carry_answer,
                decimals: rd.decimals,
                description: rd.description.clone(),
                started_at: rd.started_at,
                updated_at: now,
                answered_in_round: carry_answered_in,
            },
            Option::None => {
                return ;
            },
        };
        proof {
            assert(updated.description@ =~= sget(
                self.rounds@,
                round_id,
            )->Some_0.description);
            assert(updated@ =~= old(self).spec_closed_round(round_id, now));
        }
        self.rounds.insert(round_id, updated);
        self.details.remove(round_id);
        proof {
            let d2 = self.details@;
            let r2 = self.rounds@;
            assert forall|q: u64| #[trigger] shas(d2, q) implies answer_ok(d2, r2, q)
                && buffer_ok(d2, self.values_count as int, q) by {
                crate::kv::lemma_sget_sdel(old(self).details@, round_id, q);
                crate::kv::lemma_sget_sput(
                    old(self).rounds@,
                    round_id,
                    old(self).spec_closed_round(round_id, now),
                    q,
                );
                assert(shas(old(self).details@, q));
            }
        }
    }

    /// Opens round `round_id`: closes out a timed-out predecessor, makes
    /// `round_id` the reporting round and creates its record and buffer with
    /// the current configuration frozen in.
    fn initialize_new_round(&mut self, round_id: u64, now: u64)
        requires
            old(self).wf(),
        ensures
            final(self).wf(),
            final(self).rounds@ == old(self).spec_rounds_after_init(round_id, now),
            final(self).details@ == old(self).spec_details_after_init(round_id, now),
            *final(self) == (Aggregator {
                reporting_round_id: round_id,
                rounds: final(self).rounds,
                details: final(self).details,
                ..*old(self)
            }),
    {
        if round_id >= 1 {
            self.update_timed_out_round_info(round_id - 1, now);
        }
        self.reporting_round_id = round_id;
        let description = self.description.clone();
        proof {
            assert(description@ =~= self.description@);
        }
        let fresh_round = Round {
            round_id,
            answer: Option::None,
            decimals: self.decimals,
            description,
            started_at: now,
            updated_at: now,
            answered_in_round: 0,
        };
        let fresh_details = RoundDetails {
            submissions: Vec::new(),
            max_submissions: self.max_submission_count,
            min_submissions: self.min_submission_count,
            timeout: self.timeout,
            payment_amount: self.payment_amount,
        };
        proof {
            assert(fresh_round@ =~= old(self).spec_fresh_round(round_id, now));
            assert(fresh_details@ =~= old(self).spec_fresh_details());
            assert(fresh_details@.submissions =~= Seq::<Seq<u64>>::empty());
        }
        let ghost mid = *self;
        self.rounds.insert(round_id, fresh_round);
        self.details.insert(round_id, fresh_details);
        proof {
            let d2 = self.details@;
            let r2 = self.rounds@;
            assert forall|q: u64| #[trigger] shas(d2, q) implies answer_ok(d2, r2, q)
                && buffer_ok(d2, self.values_count as int, q) by {
                crate::kv::lemma_sget_sput(mid.details@, round_id, mid.spec_fresh_details(), q);
                crate::kv::lemma_sget_sput(
                    mid.rounds@,
                    round_id,
                    mid.spec_fresh_round(round_id, now),
                    q,
                );
                if q != round_id {
                    assert(shas(mid.details@, q));
                    assert(answer_ok(mid.details@, mid.rounds@, q));
                    assert(buffer_ok(mid.details@, mid.values_count as int, q));
                }
            }
        }
    }

    /// Accepts `submission` into the round's buffer and records it as the
    /// oracle's latest report. Rejected when the buffer is closed or absent,
    /// or the caller is not a registered oracle.
    fn record_submission(&mut self, caller: u64, round_id: u64, submission: Submission) -> (r:
        Result<(), Error>)
        requires
            old(self).wf(),
            submission@.len() == old(self).values_count as int,
        ensures
            final(self).wf(),
            match r {
                Result::Ok(()) => {
                    &&& old(self).spec_accepting_submissions(round_id)
                    &&& shas(old(self).oracles@, caller)
                    &&& final(self).details@ == sput(
                        old(self).details@,
                        round_id,
                        (RoundDetailsView {
                            submissions: sget(
                                old(self).details@,
                                round_id,
                            )->Some_0.submissions.push(submission@),
                            ..sget(old(self).details@, round_id)->Some_0
                        }),
                    )
                    &&& final(self).oracles@ == sput(
                        old(self).oracles@,
                        caller,
                        (OracleStatusView {
                            last_reported_round: round_id,
                            latest_submission: Option::Some(submission@),
                            ..sget(old(self).oracles@, caller)->Some_0
                        }),
                    )
                    &&& *final(self) == (Aggregator {
                        details: final(self).details,
                        oracles: final(self).oracles,
                        ..*old(self)
                    })
                },
                Result::Err(e) => {
                    &&& *final(self) == *old(self)
                    &&& if !old(self).spec_accepting_submissions(round_id) {
                        e == Error::RoundNotAcceptingSubmissions
                    } else {
                        !shas(old(self).oracles@, caller) && e == Error::UnknownOracle
                    }
                },
            },
    {
        if !self.accepting_submissions(round_id) {
            return Result::Err(Error::RoundNotAcceptingSubmissions);
        }
        let new_details = match self.details.get(round_id) {
            Option::Some(d) => {
                let mut submissions = crate::data::clone_submissions(&d.submissions);
                submissions.push(submission.clone());
                RoundDetails {
                    submissions,
                    max_submissions: d.max_submissions,
                    min_submissions: d.min_submissions,
                    timeout: d.timeout,
                    payment_amount: d.payment_amount,
                }
            },
            Option::None => {
                proof {
                    assert(false);
                }
                return Result::Err(Error::UnknownRoundDetails);
            },
        };
        let new_status = match self.oracles.get(caller) {
            Option::Some(st) => OracleStatus {
                withdrawable: st.withdrawable,
                starting_round: st.starting_round,
                ending_round: st.ending_round,
                last_reported_round: round_id,
                last_started_round: st.last_started_round,
                latest_submission: Option::Some(submission),
                admin: st.admin,
                pending_admin: st.pending_admin,
            },
            Option::None => {
                return Result::Err(Error::UnknownOracle);
            },
        };
        proof {
            assert(new_details@.submissions =~= sget(
                old(self).details@,
                round_id,
            )->Some_0.submissions.push(new_status.latest_submission->Some_0@));
            assert(new_details@ =~= (RoundDetailsView {
                submissions: sget(old(self).details@, round_id)->Some_0.submissions.push(
                    new_status.latest_submission->Some_0@,
                ),
                ..sget(old(self).details@, round_id)->Some_0
            }));
        }
        let ghost mid = *self;
        self.details.insert(round_id, new_details);
        self.oracles.insert(caller, new_status);
        proof {
            crate::kv::lemma_sput_len(mid.oracles@, caller, new_status@);
            let d2 = self.details@;
            let r2 = self.rounds@;
            assert forall|q: u64| #[trigger] shas(d2, q) implies answer_ok(d2, r2, q)
                && buffer_ok(d2, self.values_count as int, q) by {
                crate::kv::lemma_sget_sput(mid.details@, round_id, new_details@, q);
                if q != round_id {
                    assert(shas(mid.details@, q));
                    assert(answer_ok(mid.details@, mid.rounds@, q));
                    assert(buffer_ok(mid.details@, mid.values_count as int, q));
                } else {
                    assert(shas(mid.details@, q));
                    assert(answer_ok(mid.details@, mid.rounds@, q));
                    assert(buffer_ok(mid.details@, mid.values_count as int, q));
                    assert(forall|i: int|
                        0 <= i < new_details@.submissions.len() ==> (
                        #[trigger] new_details@.submissions[i]).len()
                            == self.values_count as int);
                }
            }
        }
        Result::Ok(())
    }

    /// Finalizes the round once its buffer holds at least `min_submissions`
    /// reports: the answer becomes the per-slot median, stamped at `now` with
    /// the round as its own provenance, and the round becomes the latest.
    /// Below quorum nothing changes.
    fn update_round_answer(&mut self, round_id: u64, now: u64) -> (r: Result<(), Error>)
        requires
            old(self).wf(),
        ensures
            final(self).wf(),
            match r {
                Result::Ok(()) => {
                    &&& shas(old(self).details@, round_id)
                    &&& {
                        let d = sget(old(self).details@, round_id)->Some_0;
                        if d.submissions.len() < d.min_submissions {
                            *final(self) == *old(self)
                        } else {
                            &&& d.submissions.len() > 0
                            &&& final(self).rounds@ == sput(
                                old(self).rounds@,
                                round_id,
                                (RoundView {
                                    answer: Option::Some(
                                        crate::median::median_values(
                                            d.submissions,
                                            old(self).values_count as nat,
                                        ),
                                    ),
                                    updated_at: now,
                                    answered_in_round: round_id,
                                    ..sget(old(self).rounds@, round_id)->Some_0
                                }),
                            )
                            &&& final(self).latest_round_id == round_id
                            &&& *final(self) == (Aggregator {
                                rounds: final(self).rounds,
                                latest_round_id: round_id,
                                ..*old(self)
                            })
                        }
                    }
                },
                Result::Err(e) => {
                    &&& *final(self) == *old(self)
                    &&& if !shas(old(self).details@, round_id) {
                        e == Error::UnknownRoundDetails
                    } else {
                        let d = sget(old(self).details@, round_id)->Some_0;
                        d.submissions.len() == 0 && d.min_submissions == 0 && e
                            == Error::EmptyInput
                    }
                },
            },
    {
        let answer = match self.details.get(round_id) {
            Option::Some(d) => {
                if (d.submissions.len() as u64) < d.min_submissions {
                    return Result::Ok(());
                }
                proof {
                    assert(shas(self.details@, round_id));
                    assert(buffer_ok(self.details@, self.values_count as int, round_id));
                    assert forall|i: int| 0 <= i < d.submissions@.len() implies (
                    #[trigger] d.submissions@[i])@.len() == self.values_count as int by {
                        let subs = sget(self.details@, round_id)->Some_0.submissions;
                        assert(subs == d@.submissions);
                        assert(subs[i] == d.submissions@[i]@);
                        assert(subs[i].len() == self.values_count as int);
                    }
                }
                match crate::median::calculate_submission_median(&d.submissions) {
                    Result::Ok(m) => m,
                    Result::Err(e) => {
                        return Result::Err(e);
                    },
                }
            },
            Option::None => {
                return Result::Err(Error::UnknownRoundDetails);
            },
        };
        proof {
            assert(shas(self.details@, round_id));
            assert(answer_ok(self.details@, self.rounds@, round_id));
        }
        let updated = match self.rounds.get(round_id) {
            Option::Some(rd) => Round {
                round_id: rd.round_id,
                answer: Option::Some(answer),
                decimals: rd.decimals,
                description: rd.description.clone(),
                started_at: rd.started_at,
                updated_at: now,
                answered_in_round: round_id,
            },
            Option::None => {
                proof {
                    assert(false);
                }
                return Result::Err(Error::UnknownRound);
            },
        };
        proof {
            let d = sget(old(self).details@, round_id)->Some_0;
            assert(updated.description@ =~= sget(self.rounds@, round_id)->Some_0.description);
            assert(d.submissions[0].len() == old(self).values_count as int);
            assert(updated@ =~= (RoundView {
                answer: Option::Some(
                    crate::median::median_values(d.submissions, old(self).values_count as nat),
                ),
                updated_at: now,
                answered_in_round: round_id,
                ..sget(old(self).rounds@, round_id)->Some_0
            }));
        }
        let ghost mid = *self;
        self.rounds.insert(round_id, updated);
        self.latest_round_id = round_id;
        proof {
            let d2 = self.details@;
            let r2 = self.rounds@;
            assert forall|q: u64| #[trigger] shas(d2, q) implies answer_ok(d2, r2, q)
                && buffer_ok(d2, self.values_count as int, q) by {
                crate::kv::lemma_sget_sput(mid.rounds@, round_id, updated@, q);
                assert(answer_ok(mid.details@, mid.rounds@, q));
                assert(buffer_ok(mid.details@, mid.values_count as int, q));
            }
        }
        Result::Ok(())
    }

    /// Accrues the round's frozen payment to the reporting oracle: available
    /// funds drop and allocated funds rise by the payment, the deposit
    /// ledger is drained oldest-first by the same amount, and the oracle's
    /// withdrawable balance grows by it.
    fn pay_oracle(&mut self, caller: u64, round_id: u64)
        requires
            old(self).wf(),
            shas(old(self).details@, round_id),
            shas(old(self).oracles@, caller),
            sget(old(self).details@, round_id)->Some_0.payment_amount
                <= old(self).recorded_funds.available,
            old(self).recorded_funds.allocated + sget(
                old(self).details@,
                round_id,
            )->Some_0.payment_amount <= u64::MAX,
            sget(old(self).oracles@, caller)->Some_0.withdrawable + sget(
                old(self).details@,
                round_id,
            )->Some_0.payment_amount <= u64::MAX,
        ensures
            final(self).wf(),
            old(self).funds_conserved() ==> final(self).funds_conserved(),
            ({
                let p = sget(old(self).details@, round_id)->Some_0.payment_amount;
                &&& final(self).recorded_funds == (Funds {
                    available: (old(self).recorded_funds.available - p) as u64,
                    allocated: (old(self).recorded_funds.allocated + p) as u64,
                })
                &&& final(self).deposits@ == drain_seq(old(self).deposits@, p as int)
                &&& final(self).oracles@ == sput(
                    old(self).oracles@,
                    caller,
                    (OracleStatusView {
                        withdrawable: (sget(old(self).oracles@, caller)->Some_0.withdrawable
                            + p) as u64,
                        ..sget(old(self).oracles@, caller)->Some_0
                    }),
                )
                &&& *final(self) == (Aggregator {
                    recorded_funds: final(self).recorded_funds,
                    deposits: final(self).deposits,
                    oracles: final(self).oracles,
                    ..*old(self)
                })
            }),
    {
        let payment = match self.details.get(round_id) {
            Option::Some(d) => d.payment_amount,
            Option::None => {
                proof {
                    assert(false);
                }
                0
            },
        };
        let new_status = match self.oracles.get(caller) {
            Option::Some(st) => OracleStatus {
                withdrawable: st.withdrawable + payment,
                starting_round: st.starting_round,
                ending_round: st.ending_round,
                last_reported_round: st.last_reported_round,
                last_started_round: st.last_started_round,
                latest_submission: crate::data::clone_opt_submission(&st.latest_submission),
                admin: st.admin,
                pending_admin: st.pending_admin,
            },
            Option::None => {
                proof {
                    assert(false);
                }
                return ;
            },
        };
        self.recorded_funds.available = self.recorded_funds.available - payment;
        self.recorded_funds.allocated = self.recorded_funds.allocated + payment;
        self.subtract_amount_from_deposits(payment);
        let ghost mid = *self;
        proof {
            assert(new_status@ =~= (OracleStatusView {
                withdrawable: (sget(old(self).oracles@, caller)->Some_0.withdrawable
                    + payment) as u64,
                ..sget(old(self).oracles@, caller)->Some_0
            }));
        }
        self.oracles.insert(caller, new_status);
        proof {
            crate::kv::lemma_sput_len(mid.oracles@, caller, new_status@);
            if old(self).funds_conserved() {
                crate::kv::lemma_ssum_bounds(old(self).deposits@, deposit_of());
                lemma_drain_seq_sum(old(self).deposits@, payment as int);
                crate::kv::lemma_ssum_sput(mid.oracles@, caller, new_status@, withdrawable_of());
            }
        }
    }

    /// Discards the round's buffer once it has reached its submission cap;
    /// a buffer still below the cap is kept.
    fn delete_round_details(&mut self, round_id: u64)
        requires
            old(self).wf(),
        ensures
            final(self).wf(),
            final(self).details@ == (if shas(old(self).details@, round_id) && sget(
                old(self).details@,
                round_id,
            )->Some_0.submissions.len() < sget(
                old(self).details@,
                round_id,
            )->Some_0.max_submissions {
                old(self).details@
            } else {
                sdel(old(self).details@, round_id)
            }),
            *final(self) == (Aggregator { details: final(self).details, ..*old(self) }),
    {
        match self.details.get(round_id) {
            Option::Some(d) => {
                if (d.submissions.len() as u64) < d.max_submissions {
                    return ;
                }
            },
            Option::None => {},
        }
        self.details.remove(round_id);
        proof {
            let d2 = self.details@;
            assert forall|q: u64| #[trigger] shas(d2, q) implies answer_ok(d2, self.rounds@, q)
                && buffer_ok(d2, self.values_count as int, q) by {
                crate::kv::lemma_sget_sdel(old(self).details@, round_id, q);
                assert(shas(old(self).details@, q));
            }
        }
    }

    /// Starts `round_id` on behalf of a reporting oracle, unless `round_id`
    /// is not the next round or the oracle is still inside its restart
    /// throttle — both deliberate no-ops, not errors. On a start, the oracle
    /// is recorded as the round's starter.
    fn oracle_initialize_new_round(&mut self, caller: u64, round_id: u64, now: u64) -> (r: Result<
        (),
        Error,
    >)
        requires
            old(self).wf(),
        ensures
            final(self).wf(),
            match r {
                Result::Err(e) => {
                    &&& old(self).spec_new_round(round_id)
                    &&& !shas(old(self).oracles@, caller)
                    &&& e == Error::UnknownOracle
                    &&& *final(self) == *old(self)
                },
                Result::Ok(()) => if old(self).spec_new_round(round_id) && shas(
                    old(self).oracles@,
                    caller,
                ) && old(self).spec_delayed(caller, round_id) {
                    &&& final(self).rounds@ == old(self).spec_rounds_after_init(round_id, now)
                    &&& final(self).details@ == old(self).spec_details_after_init(round_id, now)
                    &&& final(self).oracles@ == sput(
                        old(self).oracles@,
                        caller,
                        (OracleStatusView {
                            last_started_round: round_id,
                            ..sget(old(self).oracles@, caller)->Some_0
                        }),
                    )
                    &&& *final(self) == (Aggregator {
                        reporting_round_id: round_id,
                        rounds: final(self).rounds,
                        details: final(self).details,
                        oracles: final(self).oracles,
                        ..*old(self)
                    })
                } else {
                    *final(self) == *old(self)
                },
            },
    {
        if !self.new_round(round_id) {
            return Result::Ok(());
        }
        let last_started = match self.oracles.get(caller) {
            Option::Some(st) => st.last_started_round,
            Option::None => {
                return Result::Err(Error::UnknownOracle);
            },
        };
        if round_id as u128 <= last_started as u128 + self.restart_delay as u128 && last_started
            != 0 {
            return Result::Ok(());
        }
        self.initialize_new_round(round_id, now);
        let new_status = match self.oracles.get(caller) {
            Option::Some(st) => OracleStatus {
                withdrawable: st.withdrawable,
                starting_round: st.starting_round,
                ending_round: st.ending_round,
                last_reported_round: st.last_reported_round,
                last_started_round: round_id,
                latest_submission: crate::data::clone_opt_submission(&st.latest_submission),
                admin: st.admin,
                pending_admin: st.pending_admin,
            },
            Option::None => {
                proof {
                    assert(false);
                }
                return Result::Err(Error::UnknownOracle);
            },
        };
        proof {
            assert(new_status@ =~= (OracleStatusView {
                last_started_round: round_id,
                ..sget(old(self).oracles@, caller)->Some_0
            }));
        }
        let ghost mid = *self;
        self.oracles.insert(caller, new_status);
        proof {
            crate::kv::lemma_sput_len(mid.oracles@, caller, new_status@);
        }
        Result::Ok(())
    }

    /// Starts `round_id` on behalf of an authorized requester, enforcing the
    /// requester's own round-spacing delay. A `round_id` that is not the
    /// next round is a deliberate no-op.
    fn requester_initialize_new_round(&mut self, caller: u64, round_id: u64, now: u64) -> (r:
        Result<(), Error>)
        requires
            old(self).wf(),
        ensures
            final(self).wf(),
            match r {
                Result::Err(e) => {
                    &&& *final(self) == *old(self)
                    &&& if !shas(old(self).requesters@, caller) {
                        e == Error::UnknownRequester
                    } else {
                        let q = sget(old(self).requesters@, caller)->Some_0;
                        &&& old(self).spec_new_round(round_id)
                        &&& !(round_id as int > q.last_started_round as int + q.delay as int
                            || q.last_started_round == 0)
                        &&& e == Error::MustDelayRequests
                    }
                },
                Result::Ok(()) => shas(old(self).requesters@, caller) && if old(
                    self,
                ).spec_new_round(round_id) {
                    &&& final(self).rounds@ == old(self).spec_rounds_after_init(round_id, now)
                    &&& final(self).details@ == old(self).spec_details_after_init(round_id, now)
                    &&& final(self).requesters@ == sput(
                        old(self).requesters@,
                        caller,
                        (Requester {
                            last_started_round: round_id,
                            ..sget(old(self).requesters@, caller)->Some_0
                        }),
                    )
                    &&& *final(self) == (Aggregator {
                        reporting_round_id: round_id,
                        rounds: final(self).rounds,
                        details: final(self).details,
                        requesters: final(self).requesters,
                        ..*old(self)
                    })
                } else {
                    *final(self) == *old(self)
                },
            },
    {
        let requester = match self.requesters.get(caller) {
            Option::Some(q) => *q,
            Option::None => {
                return Result::Err(Error::UnknownRequester);
            },
        };
        if !self.new_round(round_id) {
            return Result::Ok(());
        }
        if !(round_id as u128 > requester.last_started_round as u128 + requester.delay as u128
            || requester.last_started_round == 0) {
            return Result::Err(Error::MustDelayRequests);
        }
        self.initialize_new_round(round_id, now);
        self.requesters.insert(
            caller,
            Requester {
                authorized: requester.authorized,
                delay: requester.delay,
                last_started_round: round_id,
            },
        );
        Result::Ok(())
    }

    /// The first round a newly registered oracle may report into: the
    /// current round when the oracle is being re-added in the very round its
    /// eligibility was ending in, otherwise the next round.
    pub fn get_starting_round(
        reporting_round_id: u64,
        oracles: &ListMap<OracleStatus>,
        oracle: u64,
    ) -> (r: u64)
        requires
            reporting_round_id < u64::MAX,
        ensures
            r == spec_starting_round(reporting_round_id, oracles@, oracle),
    {
        if reporting_round_id != 0 {
            match oracles.get(oracle) {
                Option::Some(st) => {
                    if st.ending_round == reporting_round_id {
                        return reporting_round_id;
                    }
                },
                Option::None => {},
            }
        }
        reporting_round_id + 1
    }

    /// Registers a fresh oracle in the given registry: zero history, an
    /// eligibility window from its starting round to the largest round id,
    /// and the given admin. An already registered oracle is rejected.
    pub fn add_oracle(
        reporting_round_id: u64,
        oracles: &mut ListMap<OracleStatus>,
        oracle: u64,
        admin: u64,
    ) -> (r: Result<(), Error>)
        requires
            old(oracles).wf(),
            reporting_round_id < u64::MAX,
        ensures
            final(oracles).wf(),
            match r {
                Result::Ok(()) => {
                    &&& !shas(old(oracles)@, oracle)
                    &&& final(oracles)@ == sput(
                        old(oracles)@,
                        oracle,
                        spec_fresh_oracle_status(reporting_round_id, old(oracles)@, oracle, admin),
                    )
                },
                Result::Err(e) => {
                    &&& e == Error::OracleAlreadyEnabled
                    &&& shas(old(oracles)@, oracle)
                    &&& final(oracles)@ == old(oracles)@
                },
            },
    {
        if oracles.contains_key(oracle) {
            return Result::Err(Error::OracleAlreadyEnabled);
        }
        let starting_round = Self::get_starting_round(reporting_round_id, oracles, oracle);
        oracles.insert(
            oracle,
            OracleStatus {
                withdrawable: 0,
                starting_round,
                ending_round: ROUND_MAX,
                last_reported_round: 0,
                last_started_round: 0,
                latest_submission: Option::None,
                admin,
                pending_admin: Option::None,
            },
        );
        Result::Ok(())
    }

    /// Validates a future-rounds configuration against a registry size and
    /// the available funds, without touching any state.
    fn check_future_rounds_config(
        oracle_count: u64,
        available: u64,
        payment_amount: u64,
        min_submissions: u64,
        max_submissions: u64,
        restart_delay: u64,
    ) -> (r: Result<(), Error>)
        ensures
            match r {
                Result::Ok(()) => spec_future_rounds_error(
                    oracle_count as int,
                    available,
                    payment_amount,
                    min_submissions,
                    max_submissions,
                    restart_delay,
                ) is None,
                Result::Err(e) => spec_future_rounds_error(
                    oracle_count as int,
                    available,
                    payment_amount,
                    min_submissions,
                    max_submissions,
                    restart_delay,
                ) == Option::Some(e),
            },
    {
        if max_submissions < min_submissions {
            return Result::Err(Error::MaxBelowMin);
        }
        if max_submissions > oracle_count {
            return Result::Err(Error::MaxAboveOracleCount);
        }
        if oracle_count > 0 && restart_delay >= oracle_count {
            return Result::Err(Error::DelayAboveOracleCount);
        }
        proof {
            assert(payment_amount as int * oracle_count as int <= u128::MAX as int)
                by (nonlinear_arith)
                requires
                    payment_amount <= u64::MAX,
                    oracle_count <= u64::MAX,
            ;
        }
        let product: u128 = payment_amount as u128 * oracle_count as u128;
        let covered = if product > u64::MAX as u128 {
            proof {
                assert((available as int) < product * 2) by (nonlinear_arith)
                    requires
                        available <= u64::MAX,
                        product > u64::MAX,
                ;
            }
            false
        } else {
            available as u128 >= 2 * product
        };
        proof {
            assert(product == payment_amount as int * oracle_count as int);
            assert(payment_amount as int * oracle_count as int * RESERVE_ROUNDS as int == product
                * 2) by (nonlinear_arith)
                requires
                    product == payment_amount as int * oracle_count as int,
            ;
        }
        if !covered {
            return Result::Err(Error::InsufficientFundsForPayment);
        }
        if oracle_count > 0 && min_submissions == 0 {
            return Result::Err(Error::MinIsZero);
        }
        Result::Ok(())
    }

    /// Applies a future-rounds configuration: quorum window, restart delay,
    /// timeout and payment for rounds not yet started. Rejected unless the
    /// quorum window fits the registry, the restart delay is meaningful and
    /// the available funds cover the required reserve.
    fn update_future_rounds_internal(
        &mut self,
        payment_amount: u64,
        min_submissions: u64,
        max_submissions: u64,
        restart_delay: u64,
        timeout: u64,
    ) -> (r: Result<(), Error>)
        requires
            old(self).wf(),
        ensures
            final(self).wf(),
            old(self).funds_conserved() ==> final(self).funds_conserved(),
            match r {
                Result::Ok(()) => {
                    &&& spec_future_rounds_error(
                        old(self).spec_oracle_count(),
                        old(self).recorded_funds.available,
                        payment_amount,
                        min_submissions,
                        max_submissions,
                        restart_delay,
                    ) is None
                    &&& *final(self) == (Aggregator {
                        payment_amount,
                        min_submission_count: min_submissions,
                        max_submission_count: max_submissions,
                        restart_delay,
                        timeout,
                        ..*old(self)
                    })
                },
                Result::Err(e) => {
                    &&& spec_future_rounds_error(
                        old(self).spec_oracle_count(),
                        old(self).recorded_funds.available,
                        payment_amount,
                        min_submissions,
                        max_submissions,
                        restart_delay,
                    ) == Option::Some(e)
                    &&& *final(self) == *old(self)
                },
            },
    {
        let oracle_count = self.oracle_count();
        match Self::check_future_rounds_config(
            oracle_count,
            self.recorded_funds.available,
            payment_amount,
            min_submissions,
            max_submissions,
            restart_delay,
        ) {
            Result::Ok(()) => {},
            Result::Err(e) => {
                return Result::Err(e);
            },
        }
        self.payment_amount = payment_amount;
        self.min_submission_count = min_submissions;
        self.max_submission_count = max_submissions;
        self.restart_delay = restart_delay;
        self.timeout = timeout;
        Result::Ok(())
    }

    /// How many oracles are registered.
    pub fn oracle_count(&self) -> (r: u64)
        ensures
            r as int == self.spec_oracle_count(),
    {
        self.oracles.len() as u64
    }

    /// Owner-only: applies a future-rounds configuration.
    pub fn update_future_rounds(
        &mut self,
        caller: u64,
        payment_amount: u64,
        min_submissions: u64,
        max_submissions: u64,
        restart_delay: u64,
        timeout: u64,
    ) -> (r: Result<(), Error>)
        requires
            old(self).wf(),
        ensures
            final(self).wf(),
            old(self).funds_conserved() ==> final(self).funds_conserved(),
            match r {
                Result::Ok(()) => {
                    &&& caller == old(self).owner
                    &&& spec_future_rounds_error(
                        old(self).spec_oracle_count(),
                        old(self).recorded_funds.available,
                        payment_amount,
                        min_submissions,
                        max_submissions,
                        restart_delay,
                    ) is None
                    &&& *final(self) == (Aggregator {
                        payment_amount,
                        min_submission_count: min_submissions,
                        max_submission_count: max_submissions,
                        restart_delay,
                        timeout,
                        ..*old(self)
                    })
                },
                Result::Err(e) => {
                    &&& *final(self) == *old(self)
                    &&& if caller != old(self).owner {
                        e == Error::NotOwner
                    } else {
                        spec_future_rounds_error(
                            old(self).spec_oracle_count(),
                            old(self).recorded_funds.available,
                            payment_amount,
                            min_submissions,
                            max_submissions,
                            restart_delay,
                        ) == Option::Some(e)
                    }
                },
            },
    {
        if caller != self.owner {
            return Result::Err(Error::NotOwner);
        }
        self.update_future_rounds_internal(
            payment_amount,
            min_submissions,
            max_submissions,
            restart_delay,
            timeout,
        )
    }

    /// Checks every submitted value against the configured bounds; the first
    /// value outside them decides the error.
    pub fn validate_submission_limits(&self, submission_values: &Vec<u64>) -> (r: Result<
        (),
        Error,
    >)
        ensures
            match r {
                Result::Ok(()) => spec_limits_error(
                    submission_values@,
                    self.min_submission_value,
                    self.max_submission_value,
                ) is None,
                Result::Err(e) => spec_limits_error(
                    submission_values@,
                    self.min_submission_value,
                    self.max_submission_value,
                ) == Option::Some(e),
            },
    {
        let n = submission_values.len();
        proof {
            assert(submission_values@.skip(0) =~= submission_values@);
        }
        let mut i: usize = 0;
        while i < n
            invariant
                i <= n,
                n == submission_values@.len(),
                spec_limits_error(
                    submission_values@.skip(i as int),
                    self.min_submission_value,
                    self.max_submission_value,
                ) == spec_limits_error(
                    submission_values@,
                    self.min_submission_value,
                    self.max_submission_value,
                ),
            decreases n - i,
        {
            let ghost rest = submission_values@.skip(i as int);
            proof {
                assert(rest[0] == submission_values@[i as int]);
                assert(rest.drop_first() =~= submission_values@.skip(i + 1));
            }
            let value = submission_values[i];
            if value < self.min_submission_value {
                return Result::Err(Error::ValueBelowMinimum);
            }
            if value > self.max_submission_value {
                return Result::Err(Error::ValueAboveMaximum);
            }
            i = i + 1;
        }
        proof {
            assert(submission_values@.skip(n as int) =~= Seq::<u64>::empty());
        }
        Result::Ok(())
    }

    /// Sets up the oracle: its token, payment, timeout, value bounds, round
    /// shape and description, an empty registry with no funds, and the
    /// bootstrap round zero.
    pub fn init(
        owner: u64,
        token_id: u64,
        payment_amount: u64,
        timeout: u64,
        min_submission_value: u64,
        max_submission_value: u64,
        decimals: u8,
        description: Vec<u8>,
        values_count: usize,
        now: u64,
    ) -> (r: Aggregator)
        ensures
            r.wf(),
            r.funds_conserved(),
            r.owner == owner,
            r.token_id == token_id,
            r.payment_amount == payment_amount,
            r.timeout == timeout,
            r.min_submission_value == min_submission_value,
            r.max_submission_value == max_submission_value,
            r.decimals == decimals,
            r.description@ == description@,
            r.values_count == values_count,
            r.min_submission_count == 0,
            r.max_submission_count == 0,
            r.restart_delay == 0,
            r.reporting_round_id == 0,
            r.latest_round_id == 0,
            r.recorded_funds == (Funds { available: 0, allocated: 0 }),
            r.oracles@ == Seq::<(u64, OracleStatusView)>::empty(),
            r.requesters@ == Seq::<(u64, Requester)>::empty(),
            r.deposits@ == Seq::<(u64, u64)>::empty(),
            r.rounds@ == seq![(0u64, r.spec_fresh_round(0, now))],
            r.details@ == seq![(0u64, r.spec_fresh_details())],
            r.answers_complete(),
    {
        let mut aggregator = Aggregator {
            owner,
            token_id,
            payment_amount: 0,
            max_submission_count: 0,
            min_submission_count: 0,
            restart_delay: 0,
            timeout: 0,
            min_submission_value,
            max_submission_value,
            reporting_round_id: 0,
            latest_round_id: 0,
            decimals,
            description,
            values_count,
            oracles: ListMap::new(),
            rounds: ListMap::new(),
            details: ListMap::new(),
            requesters: ListMap::new(),
            recorded_funds: Funds { available: 0, allocated: 0 },
            deposits: ListMap::new(),
        };
        match aggregator.update_future_rounds_internal(payment_amount, 0, 0, 0, timeout) {
            Result::Ok(()) => {},
            Result::Err(_) => {
                proof {
                    assert(false);
                }
            },
        }
        aggregator.initialize_new_round(0, now);
        proof {
            assert(aggregator.rounds@ =~= seq![(0u64, aggregator.spec_fresh_round(0, now))]);
            assert(aggregator.details@ =~= seq![(0u64, aggregator.spec_fresh_details())]);
            assert forall|q: u64| #[trigger] shas(aggregator.details@, q) implies {
                let d = sget(aggregator.details@, q)->Some_0;
                d.min_submissions > 0 && d.submissions.len() >= d.min_submissions ==> sget(
                    aggregator.rounds@,
                    q,
                )->Some_0.answer is Some
            } by {
                if q == 0 {
                    assert(sget(aggregator.details@, q) == Option::Some(
                        aggregator.spec_fresh_details(),
                    ));
                    assert(aggregator.min_submission_count == 0);
                } else {
                    crate::kv::lemma_sget_absent(aggregator.details@, q);
                }
            }
        }
        aggregator
    }

    /// Whether starting the round would make this submission pay and record
    /// a fresh round: the round is the next one and the oracle is past its
    /// restart throttle.
    pub open spec fn spec_submit_will_init(&self, caller: u64, round_id: u64) -> bool {
        &&& self.spec_new_round(round_id)
        &&& shas(self.oracles@, caller)
        &&& self.spec_delayed(caller, round_id)
    }

    /// Whether the submission finds an open buffer: the one it would freshly
    /// create, or the round's existing one.
    pub open spec fn spec_submit_accepting(&self, caller: u64, round_id: u64) -> bool {
        if self.spec_submit_will_init(caller, round_id) {
            self.max_submission_count != 0
        } else {
            self.spec_accepting_submissions(round_id)
        }
    }

    /// What the submission would pay the oracle: the current configured
    /// payment for a freshly started round, else the round's frozen payment.
    pub open spec fn spec_submit_payment(&self, caller: u64, round_id: u64) -> u64 {
        if self.spec_submit_will_init(caller, round_id) {
            self.payment_amount
        } else if shas(self.details@, round_id) {
            sget(self.details@, round_id)->Some_0.payment_amount
        } else {
            0
        }
    }

    /// Which error, if any, a submission is rejected with; every check runs
    /// against the untouched state, so a rejected submission changes
    /// nothing.
    pub open spec fn spec_submit_error(
        &self,
        caller: u64,
        round_id: u64,
        values: Seq<u64>,
        now: u64,
    ) -> Option<Error> {
        if values.len() as int != self.values_count as int {
            Option::Some(Error::WrongValueCount)
        } else if self.spec_validate_oracle_round(caller, round_id, now) is Some {
            self.spec_validate_oracle_round(caller, round_id, now)
        } else if spec_limits_error(
            values,
            self.min_submission_value,
            self.max_submission_value,
        ) is Some {
            spec_limits_error(values, self.min_submission_value, self.max_submission_value)
        } else if !self.spec_submit_accepting(caller, round_id) {
            Option::Some(Error::RoundNotAcceptingSubmissions)
        } else if self.spec_submit_payment(caller, round_id)
            > self.recorded_funds.available {
            Option::Some(Error::PaymentExceedsAvailable)
        } else {
            Option::None
        }
    }

    /// Accepts a report by `caller` of `values` into `round_id` at time
    /// `now`. The oracle's and the round's admissibility, the value bounds,
    /// the buffer and the funds are all validated against the untouched
    /// state: a rejected submission changes nothing. An accepted one may
    /// first open the round (closing out a timed-out predecessor), appends
    /// the submission, finalizes the round with the per-slot median once
    /// `min_submissions` is reached, pays the oracle the round's frozen
    /// payment — debiting available funds, crediting allocated funds and
    /// draining deposits oldest-first — and discards the buffer once
    /// `max_submissions` is reached.
    pub fn submit(&mut self, caller: u64, round_id: u64, values: Vec<u64>, now: u64) -> (r: Result<
        (),
        Error,
    >)
        requires
            old(self).wf(),
            old(self).recorded_funds.allocated + old(self).spec_submit_payment(caller, round_id)
                <= u64::MAX,
            shas(old(self).oracles@, caller) ==> sget(old(self).oracles@, caller)->Some_0
                .withdrawable + old(self).spec_submit_payment(caller, round_id) <= u64::MAX,
        ensures
            final(self).wf(),
            old(self).funds_conserved() ==> final(self).funds_conserved(),
            old(self).answers_complete() ==> final(self).answers_complete(),
            match r {
                Result::Err(e) => {
                    &&& old(self).spec_submit_error(caller, round_id, values@, now)
                        == Option::Some(e)
                    &&& *final(self) == *old(self)
                },
                Result::Ok(()) => {
                    &&& old(self).spec_submit_error(caller, round_id, values@, now) is None
                    &&& ({
                        let s0 = *old(self);
                        let will_init = s0.spec_submit_will_init(caller, round_id);
                        let rounds1 = if will_init {
                            s0.spec_rounds_after_init(round_id, now)
                        } else {
                            s0.rounds@
                        };
                        let details1 = if will_init {
                            s0.spec_details_after_init(round_id, now)
                        } else {
                            s0.details@
                        };
                        let oracles1 = if will_init {
                            sput(
                                s0.oracles@,
                                caller,
                                (OracleStatusView {
                                    last_started_round: round_id,
                                    ..sget(s0.oracles@, caller)->Some_0
                                }),
                            )
                        } else {
                            s0.oracles@
                        };
                        let d1 = sget(details1, round_id)->Some_0;
                        let subs2 = d1.submissions.push(values@);
                        let details2 = sput(
                            details1,
                            round_id,
                            (RoundDetailsView { submissions: subs2, ..d1 }),
                        );
                        let st1 = sget(oracles1, caller)->Some_0;
                        let oracles2 = sput(
                            oracles1,
                            caller,
                            (OracleStatusView {
                                last_reported_round: round_id,
                                latest_submission: Option::Some(values@),
                                ..st1
                            }),
                        );
                        let finalize = subs2.len() >= d1.min_submissions;
                        let rounds2 = if finalize {
                            sput(
                                rounds1,
                                round_id,
                                (RoundView {
                                    answer: Option::Some(
                                        crate::median::median_values(
                                            subs2,
                                            s0.values_count as nat,
                                        ),
                                    ),
                                    updated_at: now,
                                    answered_in_round: round_id,
                                    ..sget(rounds1, round_id)->Some_0
                                }),
                            )
                        } else {
                            rounds1
                        };
                        let p = d1.payment_amount;
                        let st2 = sget(oracles2, caller)->Some_0;
                        let oracles3 = sput(
                            oracles2,
                            caller,
                            (OracleStatusView {
                                withdrawable: (st2.withdrawable + p) as u64,
                                ..st2
                            }),
                        );
                        let details3 = if subs2.len() >= d1.max_submissions {
                            sdel(details2, round_id)
                        } else {
                            details2
                        };
                        &&& final(self).rounds@ == rounds2
                        &&& final(self).details@ == details3
                        &&& final(self).oracles@ == oracles3
                        &&& final(self).deposits@ == drain_seq(s0.deposits@, p as int)
                        &&& final(self).recorded_funds == (Funds {
                            available: (s0.recorded_funds.available - p) as u64,
                            allocated: (s0.recorded_funds.allocated + p) as u64,
                        })
                        &&& final(self).reporting_round_id == (if will_init {
                            round_id
                        } else {
                            s0.reporting_round_id
                        })
                        &&& final(self).latest_round_id == (if finalize {
                            round_id
                        } else {
                            s0.latest_round_id
                        })
                        &&& *final(self) == (Aggregator {
                            rounds: final(self).rounds,
                            details: final(self).details,
                            oracles: final(self).oracles,
                            deposits: final(self).deposits,
                            recorded_funds: final(self).recorded_funds,
                            reporting_round_id: final(self).reporting_round_id,
                            latest_round_id: final(self).latest_round_id,
                            ..s0
                        })
                    })
                },
            },
    {
        let ghost s0 = *old(self);
        if values.len() != self.values_count {
            return Result::Err(Error::WrongValueCount);
        }
        match self.validate_oracle_round(caller, round_id, now) {
            Result::Ok(()) => {},
            Result::Err(e) => {
                return Result::Err(e);
            },
        }
        match self.validate_submission_limits(&values) {
            Result::Ok(()) => {},
            Result::Err(e) => {
                return Result::Err(e);
            },
        }
        let will_init = if self.new_round(round_id) {
            match self.delayed(caller, round_id) {
                Result::Ok(b) => b,
                Result::Err(_) => {
                    proof {
                        assert(false);
                    }
                    false
                },
            }
        } else {
            false
        };
        proof {
            assert(will_init == s0.spec_submit_will_init(caller, round_id));
        }
        let accepting = if will_init {
            self.max_submission_count != 0
        } else {
            self.accepting_submissions(round_id)
        };
        if !accepting {
            return Result::Err(Error::RoundNotAcceptingSubmissions);
        }
        let payment = if will_init {
            self.payment_amount
        } else {
            match self.details.get(round_id) {
                Option::Some(d) => d.payment_amount,
                Option::None => {
                    proof {
                        assert(false);
                    }
                    0
                },
            }
        };
        proof {
            assert(payment == s0.spec_submit_payment(caller, round_id));
        }
        if payment > self.recorded_funds.available {
            return Result::Err(Error::PaymentExceedsAvailable);
        }
        // Every check has passed against the untouched state; from here on
        // nothing can fail and every write commits.
        match self.oracle_initialize_new_round(caller, round_id, now) {
            Result::Ok(()) => {},
            Result::Err(e) => {
                proof {
                    assert(false);
                }
                return Result::Err(e);
            },
        }
        let ghost s1 = *self;
        proof {
            if will_init {
                crate::kv::lemma_sget_sput(
                    if s0.spec_closes_prev(round_id, now) {
                        sdel(s0.details@, (round_id - 1) as u64)
                    } else {
                        s0.details@
                    },
                    round_id,
                    s0.spec_fresh_details(),
                    round_id,
                );
                crate::kv::lemma_sget_sput(
                    s0.oracles@,
                    caller,
                    (OracleStatusView {
                        last_started_round: round_id,
                        ..sget(s0.oracles@, caller)->Some_0
                    }),
                    caller,
                );
            }
            assert(s1.spec_accepting_submissions(round_id));
            assert(shas(s1.oracles@, caller));
            assert(sget(s1.oracles@, caller)->Some_0.withdrawable == sget(
                s0.oracles@,
                caller,
            )->Some_0.withdrawable);
        }
        match self.record_submission(caller, round_id, Submission { values }) {
            Result::Ok(()) => {},
            Result::Err(e) => {
                proof {
                    assert(false);
                }
                return Result::Err(e);
            },
        }
        let ghost s2 = *self;
        proof {
            crate::kv::lemma_sget_sput(
                s1.details@,
                round_id,
                (RoundDetailsView {
                    submissions: sget(s1.details@, round_id)->Some_0.submissions.push(values@),
                    ..sget(s1.details@, round_id)->Some_0
                }),
                round_id,
            );
            crate::kv::lemma_sget_sput(
                s1.oracles@,
                caller,
                (OracleStatusView {
                    last_reported_round: round_id,
                    latest_submission: Option::Some(values@),
                    ..sget(s1.oracles@, caller)->Some_0
                }),
                caller,
            );
            assert(sget(s2.details@, round_id)->Some_0.submissions.len() > 0);
        }
        match self.update_round_answer(round_id, now) {
            Result::Ok(()) => {},
            Result::Err(e) => {
                proof {
                    assert(false);
                }
                return Result::Err(e);
            },
        }
        let ghost s3 = *self;
        proof {
            assert(sget(s3.details@, round_id) == sget(s2.details@, round_id));
            assert(sget(s3.details@, round_id)->Some_0.payment_amount == payment);
            assert(shas(s3.oracles@, caller));
            assert(sget(s3.oracles@, caller)->Some_0.withdrawable == sget(
                s0.oracles@,
                caller,
            )->Some_0.withdrawable);
        }
        self.pay_oracle(caller, round_id);
        let ghost s4 = *self;
        proof {
            crate::kv::lemma_sget_sput(
                s3.oracles@,
                caller,
                (OracleStatusView {
                    withdrawable: (sget(s3.oracles@, caller)->Some_0.withdrawable
                        + payment) as u64,
                    ..sget(s3.oracles@, caller)->Some_0
                }),
                caller,
            );
            assert(sget(s4.details@, round_id) == sget(s2.details@, round_id));
        }
        self.delete_round_details(round_id);
        proof {
            if s0.answers_complete() {
                let d3 = self.details@;
                let r2 = self.rounds@;
                assert forall|q: u64| #[trigger] shas(d3, q) implies {
                    let d = sget(d3, q)->Some_0;
                    d.min_submissions > 0 && d.submissions.len() >= d.min_submissions ==> sget(
                        r2,
                        q,
                    )->Some_0.answer is Some
                } by {
                    let will_init = s0.spec_submit_will_init(caller, round_id);
                    let details1 = s1.details@;
                    let rounds1 = s1.rounds@;
                    let pushed = sget(s2.details@, round_id)->Some_0;
                    crate::kv::lemma_sget_sdel(s2.details@, round_id, q);
                    crate::kv::lemma_sget_sput(details1, round_id, pushed, q);
                    if pushed.submissions.len() >= pushed.min_submissions {
                        crate::kv::lemma_sget_sput(
                            rounds1,
                            round_id,
                            (RoundView {
                                answer: Option::Some(
                                    crate::median::median_values(
                                        pushed.submissions,
                                        s2.values_count as nat,
                                    ),
                                ),
                                updated_at: now,
                                answered_in_round: round_id,
                                ..sget(rounds1, round_id)->Some_0
                            }),
                            q,
                        );
                    }
                    if will_init {
                        let base_d = if s0.spec_closes_prev(round_id, now) {
                            sdel(s0.details@, (round_id - 1) as u64)
                        } else {
                            s0.details@
                        };
                        crate::kv::lemma_sget_sput(
                            base_d,
                            round_id,
                            s0.spec_fresh_details(),
                            q,
                        );
                        let base_r = if s0.spec_closes_prev(round_id, now) {
                            sput(
                                s0.rounds@,
                                (round_id - 1) as u64,
                                s0.spec_closed_round((round_id - 1) as u64, now),
                            )
                        } else {
                            s0.rounds@
                        };
                        crate::kv::lemma_sget_sput(
                            base_r,
                            round_id,
                            s0.spec_fresh_round(round_id, now),
                            q,
                        );
                        if s0.spec_closes_prev(round_id, now) {
                            crate::kv::lemma_sget_sdel(s0.details@, (round_id - 1) as u64, q);
                            crate::kv::lemma_sget_sput(
                                s0.rounds@,
                                (round_id - 1) as u64,
                                s0.spec_closed_round((round_id - 1) as u64, now),
                                q,
                            );
                        }
                    }
                    if q != round_id && shas(s0.details@, q) {
                        assert(shas(s0.details@, q));
                    }
                }
            }
            if s0.funds_conserved() {
                crate::kv::lemma_ssum_sput(
                    s0.oracles@,
                    caller,
                    sget(s1.oracles@, caller)->Some_0,
                    withdrawable_of(),
                );
                crate::kv::lemma_ssum_sput(
                    s1.oracles@,
                    caller,
                    sget(s2.oracles@, caller)->Some_0,
                    withdrawable_of(),
                );
                assert(s3.funds_conserved());
            }
        }
        Result::Ok(())
    }

    /// Pays out `amount` of the oracle's accrued earnings: only the oracle's
    /// admin may call, and the amount must not exceed the withdrawable
    /// balance (nor the allocated total backing it). The ledgers are
    /// debited; the host transfers the tokens to `recipient`.
    pub fn withdraw_payment(&mut self, caller: u64, oracle: u64, recipient: u64, amount: u64) -> (r:
        Result<(), Error>)
        requires
            old(self).wf(),
        ensures
            final(self).wf(),
            old(self).funds_conserved() ==> final(self).funds_conserved(),
            match r {
                Result::Ok(()) => {
                    &&& shas(old(self).oracles@, oracle)
                    &&& ({
                        let st = sget(old(self).oracles@, oracle)->Some_0;
                        &&& caller == st.admin
                        &&& amount <= st.withdrawable
                        &&& amount <= old(self).recorded_funds.allocated
                        &&& final(self).oracles@ == sput(
                            old(self).oracles@,
                            oracle,
                            (OracleStatusView {
                                withdrawable: (st.withdrawable - amount) as u64,
                                ..st
                            }),
                        )
                        &&& final(self).recorded_funds == (Funds {
                            available: old(self).recorded_funds.available,
                            allocated: (old(self).recorded_funds.allocated - amount) as u64,
                        })
                        &&& *final(self) == (Aggregator {
                            oracles: final(self).oracles,
                            recorded_funds: final(self).recorded_funds,
                            ..*old(self)
                        })
                    })
                },
                Result::Err(e) => {
                    &&& *final(self) == *old(self)
                    &&& if !shas(old(self).oracles@, oracle) {
                        e == Error::UnknownOracle
                    } else {
                        let st = sget(old(self).oracles@, oracle)->Some_0;
                        if caller != st.admin {
                            e == Error::NotAdmin
                        } else {
                            (amount > st.withdrawable || amount
                                > old(self).recorded_funds.allocated) && e
                                == Error::InsufficientWithdrawable
                        }
                    }
                },
            },
    {
        let new_status = match self.oracles.get(oracle) {
            Option::Some(st) => {
                if st.admin != caller {
                    return Result::Err(Error::NotAdmin);
                }
                if st.withdrawable < amount || self.recorded_funds.allocated < amount {
                    return Result::Err(Error::InsufficientWithdrawable);
                }
                OracleStatus {
                    withdrawable: st.withdrawable - amount,
                    starting_round: st.starting_round,
                    ending_round: st.ending_round,
                    last_reported_round: st.last_reported_round,
                    last_started_round: st.last_started_round,
                    latest_submission: crate::data::clone_opt_submission(&st.latest_submission),
                    admin: st.admin,
                    pending_admin: st.pending_admin,
                }
            },
            Option::None => {
                return Result::Err(Error::UnknownOracle);
            },
        };
        self.recorded_funds.allocated = self.recorded_funds.allocated - amount;
        let ghost mid = *self;
        self.oracles.insert(oracle, new_status);
        proof {
            crate::kv::lemma_sput_len(mid.oracles@, oracle, new_status@);
            if old(self).funds_conserved() {
                crate::kv::lemma_ssum_sput(mid.oracles@, oracle, new_status@, withdrawable_of());
            }
        }
        Result::Ok(())
    }

    /// Returns `amount` of the caller's own deposit: only up to the deposit
    /// itself, and only while the remaining available funds still cover the
    /// reserve the current payment requires. The ledgers are debited; the
    /// host transfers the tokens back to the caller.
    pub fn withdraw_funds(&mut self, caller: u64, amount: u64) -> (r: Result<(), Error>)
        requires
            old(self).wf(),
        ensures
            final(self).wf(),
            old(self).funds_conserved() ==> final(self).funds_conserved(),
            match r {
                Result::Ok(()) => {
                    &&& amount <= old(self).spec_deposit(caller)
                    &&& old(self).recorded_funds.available as int >= old(
                        self,
                    ).spec_required_reserve(old(self).payment_amount) + amount as int
                    &&& final(self).recorded_funds == (Funds {
                        available: (old(self).recorded_funds.available - amount) as u64,
                        allocated: old(self).recorded_funds.allocated,
                    })
                    &&& final(self).deposits@ == (if old(self).spec_deposit(caller) - amount
                        == 0 {
                        sdel(old(self).deposits@, caller)
                    } else {
                        sput(
                            old(self).deposits@,
                            caller,
                            (old(self).spec_deposit(caller) - amount) as u64,
                        )
                    })
                    &&& *final(self) == (Aggregator {
                        recorded_funds: final(self).recorded_funds,
                        deposits: final(self).deposits,
                        ..*old(self)
                    })
                },
                Result::Err(e) => {
                    &&& *final(self) == *old(self)
                    &&& if amount > old(self).spec_deposit(caller) {
                        e == Error::InsufficientDeposit
                    } else {
                        (old(self).recorded_funds.available as int) < old(
                            self,
                        ).spec_required_reserve(old(self).payment_amount) + amount as int && e
                            == Error::InsufficientReserve
                    }
                },
            },
    {
        let deposit = self.get_deposit(caller);
        if amount > deposit {
            return Result::Err(Error::InsufficientDeposit);
        }
        let count = self.oracle_count();
        proof {
            assert(self.payment_amount as int * count as int <= u128::MAX as int)
                by (nonlinear_arith)
                requires
                    self.payment_amount <= u64::MAX,
                    count <= u64::MAX,
            ;
        }
        let product: u128 = self.payment_amount as u128 * count as u128;
        let covered = if product > u64::MAX as u128 {
            proof {
                assert((self.recorded_funds.available as int) < product * 2 + amount)
                    by (nonlinear_arith)
                    requires
                        self.recorded_funds.available <= u64::MAX,
                        product > u64::MAX,
                        amount >= 0,
                ;
            }
            false
        } else {
            self.recorded_funds.available as u128 >= 2 * product + amount as u128
        };
        proof {
            assert(self.spec_required_reserve(self.payment_amount) == product * 2)
                by (nonlinear_arith)
                requires
                    product == self.payment_amount as int * self.spec_oracle_count(),
                    self.spec_required_reserve(self.payment_amount) == self.payment_amount as int
                        * self.spec_oracle_count() * RESERVE_ROUNDS as int,
                    RESERVE_ROUNDS == 2,
            ;
        }
        if !covered {
            return Result::Err(Error::InsufficientReserve);
        }
        self.recorded_funds.available = self.recorded_funds.available - amount;
        proof {
            if self.spec_deposit(caller) - amount == 0 {
                crate::kv::lemma_ssum_sdel(old(self).deposits@, caller, deposit_of());
            } else {
                crate::kv::lemma_ssum_sput(
                    old(self).deposits@,
                    caller,
                    (deposit - amount) as u64,
                    deposit_of(),
                );
            }
        }
        self.set_deposit(caller, deposit - amount);
        Result::Ok(())
    }

    /// Proposes a new admin for the oracle: only the current admin may, and
    /// the handoff stays pending until the proposed admin accepts it.
    pub fn transfer_admin(&mut self, caller: u64, oracle: u64, new_admin: u64) -> (r: Result<
        (),
        Error,
    >)
        requires
            old(self).wf(),
        ensures
            final(self).wf(),
            old(self).funds_conserved() ==> final(self).funds_conserved(),
            match r {
                Result::Ok(()) => {
                    &&& shas(old(self).oracles@, oracle)
                    &&& caller == sget(old(self).oracles@, oracle)->Some_0.admin
                    &&& final(self).oracles@ == sput(
                        old(self).oracles@,
                        oracle,
                        (OracleStatusView {
                            pending_admin: Option::Some(new_admin),
                            ..sget(old(self).oracles@, oracle)->Some_0
                        }),
                    )
                    &&& *final(self) == (Aggregator {
                        oracles: final(self).oracles,
                        ..*old(self)
                    })
                },
                Result::Err(e) => {
                    &&& *final(self) == *old(self)
                    &&& if !shas(old(self).oracles@, oracle) {
                        e == Error::UnknownOracle
                    } else {
                        caller != sget(old(self).oracles@, oracle)->Some_0.admin && e
                            == Error::NotAdmin
                    }
                },
            },
    {
        let new_status = match self.oracles.get(oracle) {
            Option::Some(st) => {
                if st.admin != caller {
                    return Result::Err(Error::NotAdmin);
                }
                OracleStatus {
                    withdrawable: st.withdrawable,
                    starting_round: st.starting_round,
                    ending_round: st.ending_round,
                    last_reported_round: st.last_reported_round,
                    last_started_round: st.last_started_round,
                    latest_submission: crate::data::clone_opt_submission(&st.latest_submission),
                    admin: st.admin,
                    pending_admin: Option::Some(new_admin),
                }
            },
            Option::None => {
                return Result::Err(Error::UnknownOracle);
            },
        };
        let ghost mid = *self;
        self.oracles.insert(oracle, new_status);
        proof {
            crate::kv::lemma_sput_len(mid.oracles@, oracle, new_status@);
            if old(self).funds_conserved() {
                crate::kv::lemma_ssum_sput(mid.oracles@, oracle, new_status@, withdrawable_of());
            }
        }
        Result::Ok(())
    }

    /// Completes the two-phase admin handoff: only the pending admin may
    /// accept, which atomically clears the proposal and replaces the admin.
    pub fn accept_admin(&mut self, caller: u64, oracle: u64) -> (r: Result<(), Error>)
        requires
            old(self).wf(),
        ensures
            final(self).wf(),
            old(self).funds_conserved() ==> final(self).funds_conserved(),
            match r {
                Result::Ok(()) => {
                    &&& shas(old(self).oracles@, oracle)
                    &&& sget(old(self).oracles@, oracle)->Some_0.pending_admin == Option::Some(
                        caller,
                    )
                    &&& final(self).oracles@ == sput(
                        old(self).oracles@,
                        oracle,
                        (OracleStatusView {
                            admin: caller,
                            pending_admin: Option::None,
                            ..sget(old(self).oracles@, oracle)->Some_0
                        }),
                    )
                    &&& *final(self) == (Aggregator {
                        oracles: final(self).oracles,
                        ..*old(self)
                    })
                },
                Result::Err(e) => {
                    &&& *final(self) == *old(self)
                    &&& if !shas(old(self).oracles@, oracle) {
                        e == Error::UnknownOracle
                    } else {
                        sget(old(self).oracles@, oracle)->Some_0.pending_admin != Option::Some(
                            caller,
                        ) && e == Error::NotPendingAdmin
                    }
                },
            },
    {
        let new_status = match self.oracles.get(oracle) {
            Option::Some(st) => {
                let pending_matches = match st.pending_admin {
                    Option::Some(p) => p == caller,
                    Option::None => false,
                };
                if !pending_matches {
                    return Result::Err(Error::NotPendingAdmin);
                }
                OracleStatus {
                    withdrawable: st.withdrawable,
                    starting_round: st.starting_round,
                    ending_round: st.ending_round,
                    last_reported_round: st.last_reported_round,
                    last_started_round: st.last_started_round,
                    latest_submission: crate::data::clone_opt_submission(&st.latest_submission),
                    admin: caller,
                    pending_admin: Option::None,
                }
            },
            Option::None => {
                return Result::Err(Error::UnknownOracle);
            },
        };
        let ghost mid = *self;
        self.oracles.insert(oracle, new_status);
        proof {
            crate::kv::lemma_sput_len(mid.oracles@, oracle, new_status@);
            if old(self).funds_conserved() {
                crate::kv::lemma_ssum_sput(mid.oracles@, oracle, new_status@, withdrawable_of());
            }
        }
        Result::Ok(())
    }

    /// Starts the next round at an authorized requester's demand: the
    /// current reporting round must be answered or timed out, and the
    /// requester must be past its own round-spacing delay. Returns the new
    /// round's id.
    pub fn request_new_round(&mut self, caller: u64, now: u64) -> (r: Result<u64, Error>)
        requires
            old(self).wf(),
            old(self).reporting_round_id < u64::MAX,
        ensures
            final(self).wf(),
            old(self).funds_conserved() ==> final(self).funds_conserved(),
            old(self).answers_complete() ==> final(self).answers_complete(),
            match r {
                Result::Ok(new_round_id) => {
                    &&& new_round_id == old(self).reporting_round_id + 1
                    &&& shas(old(self).requesters@, caller)
                    &&& sget(old(self).requesters@, caller)->Some_0.authorized
                    &&& final(self).rounds@ == old(self).spec_rounds_after_init(new_round_id, now)
                    &&& final(self).details@ == old(self).spec_details_after_init(
                        new_round_id,
                        now,
                    )
                    &&& final(self).requesters@ == sput(
                        old(self).requesters@,
                        caller,
                        (Requester {
                            last_started_round: new_round_id,
                            ..sget(old(self).requesters@, caller)->Some_0
                        }),
                    )
                    &&& *final(self) == (Aggregator {
                        reporting_round_id: new_round_id,
                        rounds: final(self).rounds,
                        details: final(self).details,
                        requesters: final(self).requesters,
                        ..*old(self)
                    })
                },
                Result::Err(e) => {
                    &&& *final(self) == *old(self)
                    &&& {
                        let authorized = shas(old(self).requesters@, caller) && sget(
                            old(self).requesters@,
                            caller,
                        )->Some_0.authorized;
                        let current = old(self).reporting_round_id;
                        let answered = shas(old(self).rounds@, current) && sget(
                            old(self).rounds@,
                            current,
                        )->Some_0.updated_at > 0;
                        if !authorized {
                            e == Error::NotAuthorizedRequester
                        } else if !(answered || old(self).spec_timed_out(current, now)) {
                            e == Error::RoundNotSupersedable
                        } else {
                            let q = sget(old(self).requesters@, caller)->Some_0;
                            !(current + 1 > q.last_started_round as int + q.delay as int
                                || q.last_started_round == 0) && e == Error::MustDelayRequests
                        }
                    }
                },
            },
    {
        let authorized = match self.requesters.get(caller) {
            Option::Some(q) => q.authorized,
            Option::None => false,
        };
        if !authorized {
            return Result::Err(Error::NotAuthorizedRequester);
        }
        let current = self.reporting_round_id;
        let answered = match self.rounds.get(current) {
            Option::Some(rd) => rd.updated_at > 0,
            Option::None => false,
        };
        if !(answered || self.timed_out(current, now)) {
            return Result::Err(Error::RoundNotSupersedable);
        }
        let new_round_id = current + 1;
        match self.requester_initialize_new_round(caller, new_round_id, now) {
            Result::Ok(()) => {
                proof {
                    if old(self).answers_complete() {
                        let d1 = self.details@;
                        let r1 = self.rounds@;
                        assert forall|q: u64| #[trigger] shas(d1, q) implies {
                            let d = sget(d1, q)->Some_0;
                            d.min_submissions > 0 && d.submissions.len() >= d.min_submissions
                                ==> sget(r1, q)->Some_0.answer is Some
                        } by {
                            let s0 = *old(self);
                            let base_d = if s0.spec_closes_prev(new_round_id, now) {
                                sdel(s0.details@, (new_round_id - 1) as u64)
                            } else {
                                s0.details@
                            };
                            crate::kv::lemma_sget_sput(
                                base_d,
                                new_round_id,
                                s0.spec_fresh_details(),
                                q,
                            );
                            let base_r = if s0.spec_closes_prev(new_round_id, now) {
                                sput(
                                    s0.rounds@,
                                    (new_round_id - 1) as u64,
                                    s0.spec_closed_round((new_round_id - 1) as u64, now),
                                )
                            } else {
                                s0.rounds@
                            };
                            crate::kv::lemma_sget_sput(
                                base_r,
                                new_round_id,
                                s0.spec_fresh_round(new_round_id, now),
                                q,
                            );
                            if s0.spec_closes_prev(new_round_id, now) {
                                crate::kv::lemma_sget_sdel(
                                    s0.details@,
                                    (new_round_id - 1) as u64,
                                    q,
                                );
                                crate::kv::lemma_sget_sput(
                                    s0.rounds@,
                                    (new_round_id - 1) as u64,
                                    s0.spec_closed_round((new_round_id - 1) as u64, now),
                                    q,
                                );
                            }
                            if q != new_round_id && shas(s0.details@, q) {
                                assert(shas(s0.details@, q));
                            }
                        }
                    }
                }
                Result::Ok(new_round_id)
            },
            Result::Err(e) => Result::Err(e),
        }
    }

    /// Owner-only: grants or revokes a requester's permission to start
    /// rounds. Granting records the delay and resets the requester's
    /// history; revoking erases the entry.
    pub fn set_requester_permissions(
        &mut self,
        caller: u64,
        requester: u64,
        authorized: bool,
        delay: u64,
    ) -> (r: Result<(), Error>)
        requires
            old(self).wf(),
        ensures
            final(self).wf(),
            old(self).funds_conserved() ==> final(self).funds_conserved(),
            match r {
                Result::Ok(()) => {
                    &&& caller == old(self).owner
                    &&& final(self).requesters@ == (if authorized {
                        sput(
                            old(self).requesters@,
                            requester,
                            (Requester { authorized, delay, last_started_round: 0 }),
                        )
                    } else {
                        sdel(old(self).requesters@, requester)
                    })
                    &&& *final(self) == (Aggregator {
                        requesters: final(self).requesters,
                        ..*old(self)
                    })
                },
                Result::Err(e) => {
                    &&& caller != old(self).owner
                    &&& e == Error::NotOwner
                    &&& *final(self) == *old(self)
                },
            },
    {
        if caller != self.owner {
            return Result::Err(Error::NotOwner);
        }
        if authorized {
            self.requesters.insert(
                requester,
                Requester { authorized, delay, last_started_round: 0 },
            );
        } else {
            self.requesters.remove(requester);
        }
        Result::Ok(())
    }

    /// Owner-only: erases the removed oracles (deliberately forfeiting any
    /// unpaid earnings they still had), registers the added oracles with
    /// their admins, and applies the new quorum window and restart delay
    /// under the current payment and timeout. The whole change is validated
    /// against the resulting registry first: a rejected call changes
    /// nothing.
    pub fn change_oracles(
        &mut self,
        caller: u64,
        removed: Vec<u64>,
        added: Vec<u64>,
        added_admins: Vec<u64>,
        min_submissions: u64,
        max_submissions: u64,
        restart_delay: u64,
    ) -> (r: Result<(), Error>)
        requires
            old(self).wf(),
            old(self).reporting_round_id < u64::MAX,
        ensures
            final(self).wf(),
            match r {
                Result::Ok(()) => {
                    &&& caller == old(self).owner
                    &&& added@.len() == added_admins@.len()
                    &&& spec_register_all(
                        old(self).reporting_round_id,
                        skeep(old(self).oracles@, removed@),
                        added@,
                        added_admins@,
                    ) == Option::Some(final(self).oracles@)
                    &&& spec_future_rounds_error(
                        final(self).oracles@.len() as int,
                        old(self).recorded_funds.available,
                        old(self).payment_amount,
                        min_submissions,
                        max_submissions,
                        restart_delay,
                    ) is None
                    &&& *final(self) == (Aggregator {
                        oracles: final(self).oracles,
                        min_submission_count: min_submissions,
                        max_submission_count: max_submissions,
                        restart_delay,
                        ..*old(self)
                    })
                    &&& ((old(self).funds_conserved() && (forall|i: int|
                        0 <= i < old(self).oracles@.len() && removed@.contains(
                            #[trigger] old(self).oracles@[i].0,
                        ) ==> old(self).oracles@[i].1.withdrawable == 0))
                        ==> final(self).funds_conserved())
                },
                Result::Err(e) => {
                    &&& *final(self) == *old(self)
                    &&& if caller != old(self).owner {
                        e == Error::NotOwner
                    } else if added@.len() != added_admins@.len() {
                        e == Error::OracleAdminCountMismatch
                    } else if spec_register_all(
                        old(self).reporting_round_id,
                        skeep(old(self).oracles@, removed@),
                        added@,
                        added_admins@,
                    ) is None {
                        e == Error::OracleAlreadyEnabled
                    } else {
                        spec_future_rounds_error(
                            spec_register_all(
                                old(self).reporting_round_id,
                                skeep(old(self).oracles@, removed@),
                                added@,
                                added_admins@,
                            )->Some_0.len() as int,
                            old(self).recorded_funds.available,
                            old(self).payment_amount,
                            min_submissions,
                            max_submissions,
                            restart_delay,
                        ) == Option::Some(e)
                    }
                },
            },
    {
        if caller != self.owner {
            return Result::Err(Error::NotOwner);
        }
        if added.len() != added_admins.len() {
            return Result::Err(Error::OracleAdminCountMismatch);
        }
        let mut new_oracles: ListMap<OracleStatus> = ListMap::new();
        let n = self.oracles.len();
        proof {
            assert(self.oracles@.skip(0) =~= self.oracles@);
        }
        let mut i: usize = 0;
        while i < n
            invariant
                i <= n,
                n == self.oracles@.len(),
                *self == *old(self),
                self.wf(),
                caller == old(self).owner,
                added@.len() == added_admins@.len(),
                new_oracles.wf(),
                skeep(self.oracles@, removed@) == new_oracles@ + skeep(
                    self.oracles@.skip(i as int),
                    removed@,
                ),
                forall|key: u64|
                    #[trigger] shas(new_oracles@, key) ==> exists|j: int|
                        0 <= j < i && self.oracles@[j].0 == key,
            decreases n - i,
        {
            let entry = self.oracles.entry_at(i);
            let key = entry.0;
            let st = entry.1;
            let ghost rest = self.oracles@.skip(i as int);
            proof {
                assert(rest[0] == self.oracles@[i as int]);
                assert(rest.drop_first() =~= self.oracles@.skip(i as int + 1));
            }
            if !vec_contains(&removed, key) {
                let kept = OracleStatus {
                    withdrawable: st.withdrawable,
                    starting_round: st.starting_round,
                    ending_round: st.ending_round,
                    last_reported_round: st.last_reported_round,
                    last_started_round: st.last_started_round,
                    latest_submission: crate::data::clone_opt_submission(&st.latest_submission),
                    admin: st.admin,
                    pending_admin: st.pending_admin,
                };
                let ghost pre = new_oracles@;
                proof {
                    assert(kept@ =~= self.oracles@[i as int].1);
                    if shas(pre, key) {
                        let j = choose|j: int| 0 <= j < i && self.oracles@[j].0 == key;
                        assert(self.oracles@[j].0 == self.oracles@[i as int].0);
                        assert(false);
                    }
                    assert forall|j: int| 0 <= j < pre.len() implies pre[j].0 != key by {
                        if pre[j].0 == key {
                            crate::kv::lemma_exists_shas(pre, key);
                        }
                    }
                    crate::kv::lemma_sput_absent(pre, key, kept@);
                }
                new_oracles.insert(key, kept);
                proof {
                    assert(kept@ == self.oracles@[i as int].1);
                    assert((key, kept@) == self.oracles@[i as int]);
                    assert(new_oracles@ == pre.push((key, kept@)));
                    let tail = skeep(self.oracles@.skip(i as int + 1), removed@);
                    let lhs = pre + (seq![self.oracles@[i as int]] + tail);
                    let rhs = new_oracles@ + tail;
                    assert forall|t: int| 0 <= t < lhs.len() implies lhs[t] == rhs[t] by {
                        if t < pre.len() {
                            assert(lhs[t] == pre[t]);
                            assert(rhs[t] == pre[t]);
                        } else if t == pre.len() {
                            assert(lhs[t] == self.oracles@[i as int]);
                            assert(rhs[t] == (key, kept@));
                        } else {
                            assert(lhs[t] == tail[t - pre.len() - 1]);
                            assert(rhs[t] == tail[t - pre.len() - 1]);
                        }
                    }
                    assert(lhs =~= rhs);
                    assert forall|key2: u64| #[trigger] shas(new_oracles@, key2) implies exists|
                        j: int,
                    | 0 <= j < i + 1 && self.oracles@[j].0 == key2 by {
                        crate::kv::lemma_sget_sput(pre, key, kept@, key2);
                        if key2 == key {
                            assert(self.oracles@[i as int].0 == key2);
                        } else {
                            assert(shas(pre, key2));
                        }
                    }
                }
            }
            i = i + 1;
        }
        proof {
            assert(self.oracles@.skip(n as int) =~= Seq::<(u64, OracleStatusView)>::empty());
            assert(new_oracles@ + skeep(self.oracles@.skip(n as int), removed@) =~= new_oracles@);
            assert(added@.skip(0) =~= added@);
            assert(added_admins@.skip(0) =~= added_admins@);
        }
        let m = added.len();
        let mut k: usize = 0;
        while k < m
            invariant
                k <= m,
                m == added@.len(),
                added@.len() == added_admins@.len(),
                *self == *old(self),
                self.wf(),
                caller == old(self).owner,
                old(self).reporting_round_id < u64::MAX,
                new_oracles.wf(),
                spec_register_all(
                    self.reporting_round_id,
                    skeep(self.oracles@, removed@),
                    added@,
                    added_admins@,
                ) == spec_register_all(
                    self.reporting_round_id,
                    new_oracles@,
                    added@.skip(k as int),
                    added_admins@.skip(k as int),
                ),
                ssum(new_oracles@, withdrawable_of()) == ssum(
                    skeep(self.oracles@, removed@),
                    withdrawable_of(),
                ),
            decreases m - k,
        {
            let ghost pre = new_oracles@;
            let ghost resta = added@.skip(k as int);
            let ghost restm = added_admins@.skip(k as int);
            proof {
                assert(resta[0] == added@[k as int]);
                assert(resta.drop_first() =~= added@.skip(k as int + 1));
                assert(restm[0] == added_admins@[k as int]);
                assert(restm.drop_first() =~= added_admins@.skip(k as int + 1));
            }
            match Self::add_oracle(
                self.reporting_round_id,
                &mut new_oracles,
                added[k],
                added_admins[k],
            ) {
                Result::Ok(()) => {
                    proof {
                        crate::kv::lemma_ssum_sput(
                            pre,
                            added@[k as int],
                            spec_fresh_oracle_status(
                                self.reporting_round_id,
                                pre,
                                added@[k as int],
                                added_admins@[k as int],
                            ),
                            withdrawable_of(),
                        );
                    }
                },
                Result::Err(e) => {
                    proof {
                        assert(shas(new_oracles@, added@[k as int]));
                        assert(spec_register_all(
                            self.reporting_round_id,
                            new_oracles@,
                            added@.skip(k as int),
                            added_admins@.skip(k as int),
                        ) is None);
                    }
                    return Result::Err(e);
                },
            }
            k = k + 1;
        }
        proof {
            assert(added@.skip(m as int) =~= Seq::<u64>::empty());
            assert(added_admins@.skip(m as int) =~= Seq::<u64>::empty());
            assert(spec_register_all(
                self.reporting_round_id,
                new_oracles@,
                added@.skip(m as int),
                added_admins@.skip(m as int),
            ) == Option::Some(new_oracles@));
            assert(spec_register_all(
                self.reporting_round_id,
                skeep(self.oracles@, removed@),
                added@,
                added_admins@,
            ) == Option::Some(new_oracles@));
        }
        match Self::check_future_rounds_config(
            new_oracles.len() as u64,
            self.recorded_funds.available,
            self.payment_amount,
            min_submissions,
            max_submissions,
            restart_delay,
        ) {
            Result::Ok(()) => {},
            Result::Err(e) => {
                return Result::Err(e);
            },
        }
        proof {
            if old(self).funds_conserved() && (forall|j: int|
                0 <= j < old(self).oracles@.len() && removed@.contains(#[trigger] old(self).oracles@[j].0)
                    ==> old(self).oracles@[j].1.withdrawable == 0) {
                lemma_skeep_sum(old(self).oracles@, removed@, withdrawable_of());
            }
        }
        self.oracles = new_oracles;
        self.min_submission_count = min_submissions;
        self.max_submission_count = max_submissions;
        self.restart_delay = restart_delay;
        proof {
            assert(self.config_valid());
            assert(self.answers_consistent());
            assert(self.buffers_wellformed());
        }
        Result::Ok(())
    }

    /// Whether `oracle` may submit into the specific round `round_id` right
    /// now: into a started round only while it accepts submissions, into an
    /// unstarted one only past the oracle's restart throttle, and in both
    /// cases only when the round admissibility check passes.
    pub open spec fn spec_eligible_for_specific_round(
        &self,
        oracle: u64,
        round_id: u64,
        now: u64,
    ) -> bool {
        if shas(self.rounds@, round_id) && sget(self.rounds@, round_id)->Some_0.started_at > 0 {
            self.spec_accepting_submissions(round_id) && self.spec_validate_oracle_round(
                oracle,
                round_id,
                now,
            ) is None
        } else {
            self.spec_delayed(oracle, round_id) && self.spec_validate_oracle_round(
                oracle,
                round_id,
                now,
            ) is None
        }
    }

    /// Whether `oracle` may submit into round `round_id` right now. Unknown
    /// oracles are rejected.
    pub fn eligible_for_specific_round(&self, oracle: u64, queried_round_id: u64, now: u64) -> (r:
        Result<bool, Error>)
        ensures
            match r {
                Result::Ok(b) => shas(self.oracles@, oracle) && b
                    == self.spec_eligible_for_specific_round(oracle, queried_round_id, now),
                Result::Err(e) => !shas(self.oracles@, oracle) && e == Error::UnknownOracle,
            },
    {
        let started = match self.rounds.get(queried_round_id) {
            Option::Some(rd) => rd.started_at > 0,
            Option::None => false,
        };
        if !self.oracles.contains_key(oracle) {
            return Result::Err(Error::UnknownOracle);
        }
        let admissible = match self.validate_oracle_round(oracle, queried_round_id, now) {
            Result::Ok(()) => true,
            Result::Err(_) => false,
        };
        if started {
            Result::Ok(self.accepting_submissions(queried_round_id) && admissible)
        } else {
            match self.delayed(oracle, queried_round_id) {
                Result::Ok(b) => Result::Ok(b && admissible),
                Result::Err(e) => Result::Err(e),
            }
        }
    }

    /// The round a reporting oracle should be looking at: the next round
    /// once the current one is supersedable and this oracle has either
    /// already reported into it or it no longer accepts submissions; else
    /// the current round. Meaningful only for registered oracles.
    pub open spec fn spec_suggested_round(&self, oracle: u64, now: u64) -> u64 {
        let reporting = self.reporting_round_id;
        let should_supersede = sget(self.oracles@, oracle)->Some_0.last_reported_round
            == reporting || !self.spec_accepting_submissions(reporting);
        if self.spec_supersedable(reporting, now) && should_supersede {
            (reporting + 1) as u64
        } else {
            reporting
        }
    }

    /// The eligibility and round-state snapshot for `oracle` and the round
    /// it should report into, picked by [`Aggregator::spec_suggested_round`].
    fn oracle_round_state_suggest_round(&self, oracle: u64, now: u64) -> (r: Result<
        OracleRoundState,
        Error,
    >)
        requires
            self.reporting_round_id < u64::MAX,
        ensures
            match r {
                Result::Ok(state) => {
                    &&& shas(self.oracles@, oracle)
                    &&& ({
                        let rid = self.spec_suggested_round(oracle, now);
                        let supersede = rid != self.reporting_round_id;
                        &&& shas(self.rounds@, rid)
                        &&& shas(self.details@, rid)
                        &&& state.round_id == rid
                        &&& state.eligible_to_submit == ((if supersede {
                            self.spec_delayed(oracle, rid)
                        } else {
                            self.spec_accepting_submissions(rid)
                        }) && self.spec_validate_oracle_round(oracle, rid, now) is None)
                        &&& crate::data::opt_values(state.latest_submission) == sget(
                            self.oracles@,
                            oracle,
                        )->Some_0.latest_submission
                        &&& state.started_at == sget(self.rounds@, rid)->Some_0.started_at
                        &&& state.timeout == sget(self.details@, rid)->Some_0.timeout
                        &&& state.available_funds == self.recorded_funds.available
                        &&& state.oracle_count as int == self.spec_oracle_count()
                        &&& state.payment_amount == (if supersede {
                            self.payment_amount
                        } else {
                            sget(self.details@, rid)->Some_0.payment_amount
                        })
                    })
                },
                Result::Err(e) => if !shas(self.oracles@, oracle) {
                    e == Error::UnknownOracle
                } else {
                    let rid = self.spec_suggested_round(oracle, now);
                    if !shas(self.rounds@, rid) {
                        e == Error::UnknownRound
                    } else {
                        !shas(self.details@, rid) && e == Error::UnknownRoundDetails
                    }
                },
            },
    {
        let last_reported = match self.oracles.get(oracle) {
            Option::Some(st) => st.last_reported_round,
            Option::None => {
                return Result::Err(Error::UnknownOracle);
            },
        };
        let reporting = self.reporting_round_id;
        let should_supersede = last_reported == reporting || !self.accepting_submissions(
            reporting,
        );
        let supersede = self.supersedable(reporting, now) && should_supersede;
        let round_id = if supersede {
            reporting + 1
        } else {
            reporting
        };
        let started_at = match self.rounds.get(round_id) {
            Option::Some(rd) => rd.started_at,
            Option::None => {
                return Result::Err(Error::UnknownRound);
            },
        };
        let (round_timeout, frozen_payment) = match self.details.get(round_id) {
            Option::Some(d) => (d.timeout, d.payment_amount),
            Option::None => {
                return Result::Err(Error::UnknownRoundDetails);
            },
        };
        let mut eligible_to_submit = if supersede {
            match self.delayed(oracle, round_id) {
                Result::Ok(b) => b,
                Result::Err(_) => {
                    proof {
                        assert(false);
                    }
                    false
                },
            }
        } else {
            self.accepting_submissions(round_id)
        };
        match self.validate_oracle_round(oracle, round_id, now) {
            Result::Ok(()) => {},
            Result::Err(_) => {
                eligible_to_submit = false;
            },
        }
        let latest_submission = match self.oracles.get(oracle) {
            Option::Some(st) => crate::data::clone_opt_submission(&st.latest_submission),
            Option::None => Option::None,
        };
        Result::Ok(
            OracleRoundState {
                eligible_to_submit,
                round_id,
                latest_submission,
                started_at,
                timeout: round_timeout,
                available_funds: self.recorded_funds.available,
                oracle_count: self.oracle_count(),
                payment_amount: if supersede {
                    self.payment_amount
                } else {
                    frozen_payment
                },
            },
        )
    }

    /// The eligibility and round-state snapshot for `oracle` and
    /// `queried_round_id`; a queried round id of zero asks for the best
    /// round to report into instead.
    pub fn oracle_round_state(&self, oracle: u64, queried_round_id: u64, now: u64) -> (r: Result<
        OracleRoundState,
        Error,
    >)
        requires
            self.reporting_round_id < u64::MAX,
        ensures
            queried_round_id != 0 ==> match r {
                Result::Ok(state) => {
                    &&& shas(self.oracles@, oracle)
                    &&& shas(self.rounds@, queried_round_id)
                    &&& shas(self.details@, queried_round_id)
                    &&& state.round_id == queried_round_id
                    &&& state.eligible_to_submit == self.spec_eligible_for_specific_round(
                        oracle,
                        queried_round_id,
                        now,
                    )
                    &&& crate::data::opt_values(state.latest_submission) == sget(
                        self.oracles@,
                        oracle,
                    )->Some_0.latest_submission
                    &&& state.started_at == sget(self.rounds@, queried_round_id)->Some_0.started_at
                    &&& state.timeout == sget(self.details@, queried_round_id)->Some_0.timeout
                    &&& state.available_funds == self.recorded_funds.available
                    &&& state.oracle_count as int == self.spec_oracle_count()
                    &&& state.payment_amount == (if sget(
                        self.rounds@,
                        queried_round_id,
                    )->Some_0.started_at > 0 {
                        sget(self.details@, queried_round_id)->Some_0.payment_amount
                    } else {
                        self.payment_amount
                    })
                },
                Result::Err(e) => if !shas(self.oracles@, oracle) {
                    e == Error::UnknownOracle
                } else if !shas(self.rounds@, queried_round_id) {
                    e == Error::UnknownRound
                } else {
                    !shas(self.details@, queried_round_id) && e == Error::UnknownRoundDetails
                },
            },
    {
        if queried_round_id == 0 {
            return self.oracle_round_state_suggest_round(oracle, now);
        }
        let eligible_to_submit = match self.eligible_for_specific_round(
            oracle,
            queried_round_id,
            now,
        ) {
            Result::Ok(b) => b,
            Result::Err(e) => {
                return Result::Err(e);
            },
        };
        let started_at = match self.rounds.get(queried_round_id) {
            Option::Some(rd) => rd.started_at,
            Option::None => {
                return Result::Err(Error::UnknownRound);
            },
        };
        let (round_timeout, frozen_payment) = match self.details.get(queried_round_id) {
            Option::Some(d) => (d.timeout, d.payment_amount),
            Option::None => {
                return Result::Err(Error::UnknownRoundDetails);
            },
        };
        let latest_submission = match self.oracles.get(oracle) {
            Option::Some(st) => crate::data::clone_opt_submission(&st.latest_submission),
            Option::None => Option::None,
        };
        Result::Ok(
            OracleRoundState {
                eligible_to_submit,
                round_id: queried_round_id,
                latest_submission,
                started_at,
                timeout: round_timeout,
                available_funds: self.recorded_funds.available,
                oracle_count: self.oracle_count(),
                payment_amount: if started_at > 0 {
                    frozen_payment
                } else {
                    self.payment_amount
                },
            },
        )
    }

    /// The funds already owed to oracles.
    pub fn allocated_funds(&self) -> (r: u64)
        ensures
            r == self.recorded_funds.allocated,
    {
        self.recorded_funds.allocated
    }

    /// The funds still backing future payments.
    pub fn available_funds(&self) -> (r: u64)
        ensures
            r == self.recorded_funds.available,
    {
        self.recorded_funds.available
    }

    /// The round's permanent record, if it ever started.
    pub fn get_round_data(&self, round_id: u64) -> (r: Option<&Round>)
        ensures
            match r {
                Option::Some(rd) => sget(self.rounds@, round_id) == Option::Some(rd@),
                Option::None => !shas(self.rounds@, round_id),
            },
    {
        self.rounds.get(round_id)
    }

    /// The newest round with a finalized answer of its own.
    pub fn latest_round_data(&self) -> (r: Option<&Round>)
        ensures
            match r {
                Option::Some(rd) => sget(self.rounds@, self.latest_round_id) == Option::Some(rd@),
                Option::None => !shas(self.rounds@, self.latest_round_id),
            },
    {
        self.get_round_data(self.latest_round_id)
    }

    /// The oracle's accrued, unpaid earnings.
    pub fn withdrawable_payment(&self, oracle: u64) -> (r: Result<u64, Error>)
        ensures
            match r {
                Result::Ok(w) => shas(self.oracles@, oracle) && w == sget(
                    self.oracles@,
                    oracle,
                )->Some_0.withdrawable,
                Result::Err(e) => !shas(self.oracles@, oracle) && e == Error::UnknownOracle,
            },
    {
        match self.oracles.get(oracle) {
            Option::Some(st) => Result::Ok(st.withdrawable),
            Option::None => Result::Err(Error::UnknownOracle),
        }
    }

    /// The caller's own withdrawable deposit.
    pub fn withdrawable_added_funds(&self, caller: u64) -> (r: u64)
        ensures
            r == self.spec_deposit(caller),
    {
        self.get_deposit(caller)
    }

    /// The oracle's current admin.
    pub fn get_admin(&self, oracle: u64) -> (r: Result<u64, Error>)
        ensures
            match r {
                Result::Ok(a) => shas(self.oracles@, oracle) && a == sget(
                    self.oracles@,
                    oracle,
                )->Some_0.admin,
                Result::Err(e) => !shas(self.oracles@, oracle) && e == Error::UnknownOracle,
            },
    {
        match self.oracles.get(oracle) {
            Option::Some(st) => Result::Ok(st.admin),
            Option::None => Result::Err(Error::UnknownOracle),
        }
    }

    /// Every registered oracle's address, in registration order.
    pub fn get_oracles(&self) -> (r: Vec<u64>)
        ensures
            r@ == self.oracles@.map_values(|e: (u64, OracleStatusView)| e.0),
    {
        self.oracles.keys()
    }

    /// The reserve the given payment requires: enough available funds for
    /// [`RESERVE_ROUNDS`] rounds of full payouts at it.
    pub fn required_reserve(&self, payment: u64) -> (r: u128)
        requires
            payment as int * self.spec_oracle_count() * RESERVE_ROUNDS as int <= u128::MAX as int,
        ensures
            r as int == self.spec_required_reserve(payment),
    {
        let count = self.oracle_count();
        proof {
            assert(payment as int * count as int <= u128::MAX as int
                && payment as int * count as int * 2 == payment as int * (count as int
                * 2)) by (nonlinear_arith)
                requires
                    payment as int * count as int * RESERVE_ROUNDS as int <= u128::MAX as int,
                    RESERVE_ROUNDS == 2,
                    payment >= 0,
                    count >= 0,
            ;
        }
        payment as u128 * count as u128 * 2
    }

    /// The conservation law of the funds ledger: in a conserved state — as
    /// [`Aggregator::init`] establishes and every funds-touching entry point
    /// preserves — the recorded totals are exactly the depositors' money
    /// plus the oracles' unpaid earnings. (The owner can erase an oracle
    /// with unpaid earnings through `change_oracles`, which deliberately
    /// forfeits them; every other entry point keeps the ledger conserved.)
    pub proof fn lemma_funds_conservation(&self)
        requires
            self.funds_conserved(),
        ensures
            self.recorded_funds.available as int + self.recorded_funds.allocated as int == ssum(
                self.deposits@,
                deposit_of(),
            ) + ssum(self.oracles@, withdrawable_of()),
    {
    }

    /// A round's answer is set if and only if its open buffer has reached
    /// the round's positive quorum; it is never set with fewer submissions,
    /// and a set answer is the round's own aggregation.
    pub proof fn lemma_answer_iff_quorum(&self, round_id: u64)
        requires
            self.wf(),
            self.answers_complete(),
            shas(self.details@, round_id),
            sget(self.details@, round_id)->Some_0.min_submissions > 0,
        ensures
            sget(self.rounds@, round_id)->Some_0.answer is Some <==> sget(
                self.details@,
                round_id,
            )->Some_0.submissions.len() >= sget(
                self.details@,
                round_id,
            )->Some_0.min_submissions,
            sget(self.rounds@, round_id)->Some_0.answer is Some ==> sget(
                self.rounds@,
                round_id,
            )->Some_0.answered_in_round == round_id,
    {
        assert(answer_ok(self.details@, self.rounds@, round_id));
    }

    /// An oracle can never report twice into the same round: any round up to
    /// the oracle's last reported one fails the admissibility check, and an
    /// accepted submission raises `last_reported_round` to its round, so the
    /// rounds an oracle reports into are strictly increasing.
    pub proof fn lemma_no_double_report(&self, oracle: u64, round_id: u64, now: u64)
        requires
            shas(self.oracles@, oracle),
            round_id <= sget(self.oracles@, oracle)->Some_0.last_reported_round,
        ensures
            self.spec_validate_oracle_round(oracle, round_id, now) is Some,
            forall|values: Seq<u64>|
                self.spec_submit_error(oracle, round_id, values, now) is Some,
    {
    }

    /// A round closed out by timeout supersession inherits the previous
    /// round's answer and provenance unchanged, and its buffer is discarded:
    /// what starting `round_id` leaves of the timed-out round before it.
    pub proof fn lemma_timeout_carry_forward(&self, round_id: u64, now: u64)
        requires
            self.details.wf(),
            self.spec_closes_prev(round_id, now),
        ensures
            ({
                let prev = (round_id - 1) as u64;
                &&& sget(self.spec_rounds_after_init(round_id, now), prev) == Option::Some(
                    self.spec_closed_round(prev, now),
                )
                &&& self.spec_closed_round(prev, now).answer == self.spec_carry_answer(prev)
                &&& self.spec_closed_round(prev, now).answered_in_round
                    == self.spec_carry_answered_in(prev)
                &&& !shas(self.spec_details_after_init(round_id, now), prev)
            }),
    {
        let prev = (round_id - 1) as u64;
        crate::kv::lemma_sget_sput(self.rounds@, prev, self.spec_closed_round(prev, now), prev);
        crate::kv::lemma_sget_sput(
            sput(self.rounds@, prev, self.spec_closed_round(prev, now)),
            round_id,
            self.spec_fresh_round(round_id, now),
            prev,
        );
        crate::kv::lemma_sget_sdel(self.details@, prev, prev);
        crate::kv::lemma_sget_sput(
            sdel(self.details@, prev),
            round_id,
            self.spec_fresh_details(),
            prev,
        );
    }

    /// The requester at the address, or the lookup error.
    pub fn get_requester(&self, requester_address: u64) -> (r: Result<Requester, Error>)
        ensures
            match r {
                Result::Ok(q) => sget(self.requesters@, requester_address) == Option::Some(q),
                Result::Err(e) => !shas(self.requesters@, requester_address) && e
                    == Error::UnknownRequester,
            },
    {
        match self.requesters.get(requester_address) {
            Option::Some(q) => Result::Ok(*q),
            Option::None => Result::Err(Error::UnknownRequester),
        }
    }
}

} // verus!
