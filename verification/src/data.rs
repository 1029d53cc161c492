//! The ledger records: rounds, aggregation buffers, oracle statuses,
//! requesters and the fund totals. Addresses and token identifiers are the
//! host's opaque principals and appear here as plain `u64` values.

use vstd::prelude::*;

verus! {

/// One reporter's observation: a fixed-length ordered sequence of values,
/// one value per configured slot.
#[derive(Debug)]
pub struct Submission {
    pub values: Vec<u64>,
}

impl Clone for Submission {
    /// A copy carrying the same values.
    fn clone(&self) -> (r: Submission)
        ensures
            r@ == self@,
    {
        let values = self.values.clone();
        proof {
            assert(values@ =~= self.values@);
        }
        Submission { values }
    }
}

/// A copy of a vector of submissions, carrying the same values.
pub fn clone_submissions(v: &Vec<Submission>) -> (r: Vec<Submission>)
    ensures
        r@.len() == v@.len(),
        forall|i: int| 0 <= i < v@.len() ==> r@[i]@ == (#[trigger] v@[i])@,
        r@.map_values(|s: Submission| s@) == v@.map_values(|s: Submission| s@),
{
    let n = v.len();
    let mut r: Vec<Submission> = Vec::new();
    let mut i: usize = 0;
    while i < n
        invariant
            i <= n,
            n == v@.len(),
            r@.len() == i,
            forall|j: int| 0 <= j < i ==> r@[j]@ == (#[trigger] v@[j])@,
        decreases n - i,
    {
        r.push(v[i].clone());
        i = i + 1;
    }
    proof {
        assert(r@.map_values(|s: Submission| s@) =~= v@.map_values(|s: Submission| s@));
    }
    r
}

/// A copy of an optional submission, carrying the same values.
pub fn clone_opt_submission(o: &Option<Submission>) -> (r: Option<Submission>)
    ensures
        opt_values(r) == opt_values(*o),
{
    match o {
        Option::Some(s) => Option::Some(s.clone()),
        Option::None => Option::None,
    }
}

impl View for Submission {
    type V = Seq<u64>;

    open spec fn view(&self) -> Seq<u64> {
        self.values@
    }
}

/// The values of an optional submission, as a mathematical sequence.
pub open spec fn opt_values(o: Option<Submission>) -> Option<Seq<u64>> {
    match o {
        Option::Some(s) => Option::Some(s@),
        Option::None => Option::None,
    }
}

/// One aggregation cycle's permanent record.
#[derive(Debug)]
pub struct Round {
    /// The round's own id.
    pub round_id: u64,
    /// The finalized (or inherited) answer; absent while the round is open.
    pub answer: Option<Submission>,
    /// The configured decimals at the moment the round started.
    pub decimals: u8,
    /// The configured description at the moment the round started.
    pub description: Vec<u8>,
    /// When the round started; zero for the bootstrap round.
    pub started_at: u64,
    /// When the answer was last written; zero while the round is open.
    pub updated_at: u64,
    /// The round whose aggregation produced the answer.
    pub answered_in_round: u64,
}

/// The mathematical value of a [`Round`].
#[verifier::ext_equal]
pub ghost struct RoundView {
    pub round_id: u64,
    pub answer: Option<Seq<u64>>,
    pub decimals: u8,
    pub description: Seq<u8>,
    pub started_at: u64,
    pub updated_at: u64,
    pub answered_in_round: u64,
}

impl View for Round {
    type V = RoundView;

    open spec fn view(&self) -> RoundView {
        RoundView {
            round_id: self.round_id,
            answer: opt_values(self.answer),
            decimals: self.decimals,
            description: self.description@,
            started_at: self.started_at,
            updated_at: self.updated_at,
            answered_in_round: self.answered_in_round,
        }
    }
}

/// A round's ephemeral aggregation buffer: the accepted submissions and the
/// thresholds frozen at the moment the round started. Removed once the round
/// closes; its absence means the round no longer accepts submissions.
#[derive(Debug)]
pub struct RoundDetails {
    pub submissions: Vec<Submission>,
    pub max_submissions: u64,
    pub min_submissions: u64,
    pub timeout: u64,
    pub payment_amount: u64,
}

/// The mathematical value of a [`RoundDetails`].
#[verifier::ext_equal]
pub ghost struct RoundDetailsView {
    pub submissions: Seq<Seq<u64>>,
    pub max_submissions: u64,
    pub min_submissions: u64,
    pub timeout: u64,
    pub payment_amount: u64,
}

impl View for RoundDetails {
    type V = RoundDetailsView;

    open spec fn view(&self) -> RoundDetailsView {
        RoundDetailsView {
            submissions: self.submissions@.map_values(|s: Submission| s@),
            max_submissions: self.max_submissions,
            min_submissions: self.min_submissions,
            timeout: self.timeout,
            payment_amount: self.payment_amount,
        }
    }
}

/// One registered reporter: its eligibility window, reporting history,
/// withdrawable earnings and admin.
#[derive(Debug)]
pub struct OracleStatus {
    /// Accrued, unpaid earnings.
    pub withdrawable: u64,
    /// The first round this oracle may report into; never zero once registered.
    pub starting_round: u64,
    /// The last round this oracle may report into.
    pub ending_round: u64,
    /// The last round this oracle reported into; strictly increasing.
    pub last_reported_round: u64,
    /// The last round this oracle started; used to throttle round starts.
    pub last_started_round: u64,
    /// The values of this oracle's most recent accepted submission.
    pub latest_submission: Option<Submission>,
    /// The address allowed to withdraw this oracle's earnings.
    pub admin: u64,
    /// The proposed next admin of the two-phase handoff, if any.
    pub pending_admin: Option<u64>,
}

/// The mathematical value of an [`OracleStatus`].
#[verifier::ext_equal]
pub ghost struct OracleStatusView {
    pub withdrawable: u64,
    pub starting_round: u64,
    pub ending_round: u64,
    pub last_reported_round: u64,
    pub last_started_round: u64,
    pub latest_submission: Option<Seq<u64>>,
    pub admin: u64,
    pub pending_admin: Option<u64>,
}

impl View for OracleStatus {
    type V = OracleStatusView;

    open spec fn view(&self) -> OracleStatusView {
        OracleStatusView {
            withdrawable: self.withdrawable,
            starting_round: self.starting_round,
            ending_round: self.ending_round,
            last_reported_round: self.last_reported_round,
            last_started_round: self.last_started_round,
            latest_submission: opt_values(self.latest_submission),
            admin: self.admin,
            pending_admin: self.pending_admin,
        }
    }
}

/// One authorized requester: whether it may start rounds and how far apart.
#[derive(Clone, Copy, Debug, PartialEq, Eq, Structural)]
pub struct Requester {
    pub authorized: bool,
    /// The minimum spacing between rounds this requester starts.
    pub delay: u64,
    /// The last round this requester started; zero before the first.
    pub last_started_round: u64,
}

impl View for Requester {
    type V = Requester;

    open spec fn view(&self) -> Requester {
        *self
    }
}

/// The global fund totals. `available` backs future payments; `allocated`
/// is already owed to oracles and only leaves through payment withdrawal.
#[derive(Clone, Copy, Debug, PartialEq, Eq, Structural)]
pub struct Funds {
    pub available: u64,
    pub allocated: u64,
}

impl View for Funds {
    type V = Funds;

    open spec fn view(&self) -> Funds {
        *self
    }
}

/// A read-only snapshot answering "may this oracle submit, into which round,
/// and what would it be paid".
#[derive(Debug)]
pub struct OracleRoundState {
    pub eligible_to_submit: bool,
    pub round_id: u64,
    pub latest_submission: Option<Submission>,
    pub started_at: u64,
    pub timeout: u64,
    pub available_funds: u64,
    pub oracle_count: u64,
    pub payment_amount: u64,
}

} // verus!
