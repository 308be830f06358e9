//! What holds of the ledger's operations taken together.
//!
//! The laws are stated over [`ContractView`], the value that the contracts of
//! [`crate::BlindFoldContract`] relate before and after each call.

use vstd::prelude::*;
use crate::context::{ContextView, MIN_DEPOSIT};
use crate::error::LedgerError;
use crate::model::{
    first_answer, lemma_mark_processing_consistent, lemma_submit_request_consistent,
    lemma_submit_verification_consistent, requested_by, ContractView, Evidence,
};
use crate::records::{RequestStatus, RequestView, VerificationView};

verus! {

/// One call that changes the ledger, with all that it is given.
pub enum Operation {
    Submit { ctx: ContextView, question: Seq<char>, portfolio_data: Seq<char> },
    MarkProcessing { ctx: ContextView, request_id: u64 },
    Verify { ctx: ContextView, request_id: u64, evidence: Evidence },
}

impl Operation {
    /// Whether this is a submission that carries the minimum deposit.
    pub open spec fn is_paid_submission(self) -> bool {
        match self {
            Operation::Submit { ctx, .. } => ctx.attached_deposit >= MIN_DEPOSIT,
            _ => false,
        }
    }
}

impl ContractView {
    /// What one operation makes of the ledger, or why it is refused.
    pub open spec fn apply(self, op: Operation) -> Result<ContractView, LedgerError> {
        match op {
            Operation::Submit { ctx, question, portfolio_data } => self.submit_request(
                ctx,
                question,
                portfolio_data,
            ),
            Operation::MarkProcessing { ctx, request_id } => self.mark_processing(ctx, request_id),
            Operation::Verify { ctx, request_id, evidence } => self.submit_verification(
                ctx,
                request_id,
                evidence,
            ),
        }
    }

    /// The ledger after a run of operations, each applied to what the one
    /// before left. A refused operation leaves the ledger as it was.
    pub open spec fn after(self, ops: Seq<Operation>) -> ContractView
        decreases ops.len(),
    {
        if ops.len() == 0 {
            self
        } else {
            let before = self.after(ops.drop_last());
            match before.apply(ops.last()) {
                Ok(next) => next,
                Err(_) => before,
            }
        }
    }

    /// Whether the last operation of a run is accepted.
    pub open spec fn accepts_last(self, ops: Seq<Operation>) -> bool
        recommends
            ops.len() > 0,
    {
        self.after(ops.drop_last()).apply(ops.last()) is Ok
    }

    /// How many submissions of a run are accepted.
    pub open spec fn accepted_submissions(self, ops: Seq<Operation>) -> nat
        decreases ops.len(),
    {
        if ops.len() == 0 {
            0
        } else {
            let earlier = self.accepted_submissions(ops.drop_last());
            if ops.last() is Submit && self.accepts_last(ops) {
                earlier + 1
            } else {
                earlier
            }
        }
    }

    /// How many answers of a run are accepted.
    pub open spec fn accepted_verifications(self, ops: Seq<Operation>) -> nat
        decreases ops.len(),
    {
        if ops.len() == 0 {
            0
        } else {
            let earlier = self.accepted_verifications(ops.drop_last());
            if ops.last() is Verify && self.accepts_last(ops) {
                earlier + 1
            } else {
                earlier
            }
        }
    }
}

impl ContractView {
    /// Whether `later` holds all that this ledger holds: the same owner, every
    /// request under its id, unchanged but for a status that has moved
    /// forward, and every verification under its id, unchanged.
    pub open spec fn kept_by(self, later: ContractView) -> bool {
        &&& later.owner == self.owner
        &&& self.requests.len() <= later.requests.len()
        &&& self.verifications.len() <= later.verifications.len()
        &&& forall|i: int|
            0 <= i < self.requests.len() ==> {
                &&& (#[trigger] later.requests[i]) == self.requests[i].with_status(
                    later.requests[i].status,
                )
                &&& self.requests[i].status.leads_to(later.requests[i].status)
            }
        &&& forall|j: int|
            0 <= j < self.verifications.len() ==> (#[trigger] later.verifications[j])
                == self.verifications[j]
    }

    /// Whether no request is `Failed`.
    pub open spec fn none_failed(self) -> bool {
        forall|i: int|
            0 <= i < self.requests.len() ==> (#[trigger] self.requests[i]).status
                != RequestStatus::Failed
    }
}

/// An accepted operation removes nothing and rewrites nothing: requests keep
/// their ids and contents, a status only moves forward, and verifications
/// stay as they were stored.
pub proof fn law_operation_keeps_records(s: ContractView, op: Operation)
    requires
        s.apply(op) is Ok,
    ensures
        s.kept_by(s.apply(op).unwrap()),
{
}

/// What holds of one operation holds of every run of them.
pub proof fn law_run_keeps_records(s: ContractView, ops: Seq<Operation>)
    ensures
        s.kept_by(s.after(ops)),
    decreases ops.len(),
{
    if ops.len() > 0 {
        let before = s.after(ops.drop_last());
        law_run_keeps_records(s, ops.drop_last());
        if before.apply(ops.last()) is Ok {
            law_operation_keeps_records(before, ops.last());
            let later = before.apply(ops.last()).unwrap();
            assert forall|i: int| 0 <= i < s.requests.len() implies {
                &&& (#[trigger] later.requests[i]) == s.requests[i].with_status(
                    later.requests[i].status,
                )
                &&& s.requests[i].status.leads_to(later.requests[i].status)
            } by {
                assert(before.requests[i] == s.requests[i].with_status(before.requests[i].status));
                assert(later.requests[i] == before.requests[i].with_status(
                    later.requests[i].status,
                ));
            }
            assert forall|j: int| 0 <= j < s.verifications.len() implies (
            #[trigger] later.verifications[j]) == s.verifications[j] by {
                assert(before.verifications[j] == s.verifications[j]);
            }
        }
    }
}

/// An accepted operation moves a request one step at most: every request
/// that was there has the status it had, or the successor of that status.
pub proof fn law_operation_moves_one_step(s: ContractView, op: Operation, i: int)
    requires
        s.apply(op) is Ok,
        0 <= i < s.requests.len(),
    ensures
        ({
            let before = s.requests[i].status;
            let after = s.apply(op).unwrap().requests[i].status;
            after == before || before.successor() == Some(after)
        }),
{
}

/// An accepted operation moves one request at most: two requests whose
/// status it changes are one and the same.
pub proof fn law_operation_moves_one_request(s: ContractView, op: Operation, j: int, k: int)
    requires
        s.apply(op) is Ok,
        0 <= j < s.requests.len(),
        0 <= k < s.requests.len(),
        s.apply(op).unwrap().requests[j].status != s.requests[j].status,
        s.apply(op).unwrap().requests[k].status != s.requests[k].status,
    ensures
        j == k,
{
}

/// A request in a terminal status is never touched again: whatever is done to
/// the ledger, the request stays as it is.
pub proof fn law_terminal_requests_stay(s: ContractView, ops: Seq<Operation>, i: int)
    requires
        0 <= i < s.requests.len(),
        s.requests[i].status.is_terminal(),
    ensures
        s.after(ops).requests[i] == s.requests[i],
{
    law_run_keeps_records(s, ops);
    let later = s.after(ops).requests[i];
    assert(later == s.requests[i].with_status(later.status));
}

/// No operation leads a request to `Failed`: a ledger without a failed
/// request has none after any run of operations.
pub proof fn law_failed_is_never_reached(s: ContractView, ops: Seq<Operation>)
    requires
        s.none_failed(),
    ensures
        s.after(ops).none_failed(),
    decreases ops.len(),
{
    if ops.len() > 0 {
        law_failed_is_never_reached(s, ops.drop_last());
        let before = s.after(ops.drop_last());
        if before.apply(ops.last()) is Ok {
            let later = before.apply(ops.last()).unwrap();
            assert forall|i: int| 0 <= i < later.requests.len() implies (
            #[trigger] later.requests[i]).status != RequestStatus::Failed by {
                if i < before.requests.len() {
                    assert(before.requests[i].status != RequestStatus::Failed);
                }
            }
        }
    }
}

/// A consistent ledger stays consistent over every run of operations that
/// leaves both lists short enough to be numbered.
pub proof fn law_run_keeps_consistency(s: ContractView, ops: Seq<Operation>)
    requires
        s.consistent(),
        s.requests.len() + ops.len() <= u64::MAX,
        s.verifications.len() + ops.len() <= u64::MAX,
    ensures
        s.after(ops).consistent(),
    decreases ops.len(),
{
    if ops.len() > 0 {
        let earlier = ops.drop_last();
        law_run_keeps_consistency(s, earlier);
        law_counts_follow_accepted_operations(s, earlier);
        lemma_accepted_at_most_length(s, earlier);
        let before = s.after(earlier);
        match ops.last() {
            Operation::Submit { ctx, question, portfolio_data } => {
                if before.apply(ops.last()) is Ok {
                    lemma_submit_request_consistent(before, ctx, question, portfolio_data);
                }
            },
            Operation::MarkProcessing { ctx, request_id } => {
                if before.apply(ops.last()) is Ok {
                    lemma_mark_processing_consistent(before, ctx, request_id);
                }
            },
            Operation::Verify { ctx, request_id, evidence } => {
                if before.apply(ops.last()) is Ok {
                    lemma_submit_verification_consistent(before, ctx, request_id, evidence);
                }
            },
        }
    }
}

impl ContractView {
    /// Whether no two verifications answer the same request.
    pub open spec fn answered_once(self) -> bool {
        forall|j: int, k: int|
            0 <= j < k < self.verifications.len() ==> (#[trigger] self.verifications[j]).request_id
                != (#[trigger] self.verifications[k]).request_id
    }
}

/// An accepted operation gives no request a second verification: where no
/// request had two, none has two afterwards.
pub proof fn law_operation_keeps_answers_single(s: ContractView, op: Operation)
    requires
        s.consistent(),
        s.answered_once(),
        s.apply(op) is Ok,
    ensures
        s.apply(op).unwrap().answered_once(),
{
    let t = s.apply(op).unwrap();
    assert forall|j: int, k: int| 0 <= j < k < t.verifications.len() implies (
    #[trigger] t.verifications[j]).request_id != (#[trigger] t.verifications[k]).request_id by {
        if k < s.verifications.len() {
            assert(s.verifications[j].request_id != s.verifications[k].request_id);
        } else {
            assert(s.answers_completed(j));
        }
    }
}

/// In a ledger that began empty, the verifications and the completed requests
/// correspond one to one, whatever was done to it: every completed request
/// has a verification, every verification answers a completed request, and
/// no request has two.
pub proof fn law_one_verification_for_each_completed_request(
    owner: Seq<char>,
    ops: Seq<Operation>,
)
    requires
        ops.len() <= u64::MAX,
    ensures
        ContractView::fresh(owner).after(ops).consistent(),
        ContractView::fresh(owner).after(ops).answered_once(),
    decreases ops.len(),
{
    let s = ContractView::fresh(owner);
    law_run_keeps_consistency(s, ops);
    if ops.len() > 0 {
        let earlier = ops.drop_last();
        law_one_verification_for_each_completed_request(owner, earlier);
        if s.after(earlier).apply(ops.last()) is Ok {
            law_operation_keeps_answers_single(s.after(earlier), ops.last());
        }
    }
}

/// How many requests are listed for the users of a list, each user's
/// requests counted once for each time the user stands in the list.
pub open spec fn listed_for(requests: Seq<RequestView>, users: Seq<Seq<char>>) -> nat
    decreases users.len(),
{
    if users.len() == 0 {
        0
    } else {
        listed_for(requests, users.drop_last()) + requests.filter(requested_by(users.last())).len()
    }
}

/// How often a user stands in a list of users.
pub open spec fn times_named(users: Seq<Seq<char>>, user: Seq<char>) -> nat
    decreases users.len(),
{
    if users.len() == 0 {
        0
    } else if users.last() == user {
        times_named(users.drop_last(), user) + 1
    } else {
        times_named(users.drop_last(), user)
    }
}

/// A request more is listed once more for each time its user is named.
proof fn lemma_listed_for_one_more(
    requests: Seq<RequestView>,
    request: RequestView,
    users: Seq<Seq<char>>,
)
    ensures
        listed_for(requests.push(request), users) == listed_for(requests, users) + times_named(
            users,
            request.user,
        ),
    decreases users.len(),
{
    if users.len() > 0 {
        lemma_listed_for_one_more(requests, request, users.drop_last());
        let longer = requests.push(request);
        assert(longer.drop_last() =~= requests);
        assert(longer.last() == request);
        reveal(Seq::filter);
    }
}

/// A user who stands in a list without repetitions is named there once.
proof fn lemma_named_once(users: Seq<Seq<char>>, user: Seq<char>)
    requires
        users.no_duplicates(),
    ensures
        times_named(users, user) == if users.contains(user) {
            1nat
        } else {
            0nat
        },
    decreases users.len(),
{
    if users.len() > 0 {
        let earlier = users.drop_last();
        assert forall|j: int, k: int| 0 <= j < earlier.len() && 0 <= k < earlier.len() && j
            != k implies earlier[j] != earlier[k] by {
            assert(earlier[j] == users[j] && earlier[k] == users[k]);
        }
        lemma_named_once(earlier, user);
        if earlier.contains(user) {
            let j = choose|j: int| 0 <= j < earlier.len() && earlier[j] == user;
            assert(users[j] == user);
            assert(users.last() == users[users.len() - 1]);
        } else if users.contains(user) {
            let j = choose|j: int| 0 <= j < users.len() && users[j] == user;
            if j < earlier.len() {
                assert(earlier[j] == user);
            }
        } else {
            assert(users[users.len() - 1] != user);
        }
    }
}

/// The lists by user divide the requests among the users: over users of
/// whom none is named twice and none who made a request is left out, the
/// lists hold as many requests together as the ledger holds.
pub proof fn law_user_lists_divide_requests(s: ContractView, users: Seq<Seq<char>>)
    requires
        users.no_duplicates(),
        forall|i: int| 0 <= i < s.requests.len() ==> users.contains((#[trigger] s.requests[i]).user),
    ensures
        listed_for(s.requests, users) == s.requests.len(),
{
    lemma_listed_all(s.requests, users);
}

/// What [`law_user_lists_divide_requests`] says, of any list of requests.
proof fn lemma_listed_all(requests: Seq<RequestView>, users: Seq<Seq<char>>)
    requires
        users.no_duplicates(),
        forall|i: int| 0 <= i < requests.len() ==> users.contains((#[trigger] requests[i]).user),
    ensures
        listed_for(requests, users) == requests.len(),
    decreases requests.len(),
{
    if requests.len() == 0 {
        lemma_nothing_listed(requests, users);
    } else {
        let earlier = requests.drop_last();
        assert forall|i: int| 0 <= i < earlier.len() implies users.contains(
            (#[trigger] earlier[i]).user,
        ) by {
            assert(earlier[i] == requests[i]);
        }
        lemma_listed_all(earlier, users);
        lemma_listed_for_one_more(earlier, requests.last(), users);
        assert(earlier.push(requests.last()) =~= requests);
        assert(requests.last() == requests[requests.len() - 1]);
        lemma_named_once(users, requests.last().user);
    }
}

/// Of no requests none is listed.
proof fn lemma_nothing_listed(requests: Seq<RequestView>, users: Seq<Seq<char>>)
    requires
        requests.len() == 0,
    ensures
        listed_for(requests, users) == 0,
    decreases users.len(),
{
    if users.len() > 0 {
        lemma_nothing_listed(requests, users.drop_last());
        reveal(Seq::filter);
    }
}

/// No more operations are accepted than are made.
proof fn lemma_accepted_at_most_length(s: ContractView, ops: Seq<Operation>)
    ensures
        s.accepted_submissions(ops) <= ops.len(),
        s.accepted_verifications(ops) <= ops.len(),
    decreases ops.len(),
{
    if ops.len() > 0 {
        lemma_accepted_at_most_length(s, ops.drop_last());
    }
}

/// Whatever is done to a ledger, in whatever order, it holds as many requests
/// more as submissions were accepted, and as many verifications more as
/// answers were accepted. Nothing is ever removed.
pub proof fn law_counts_follow_accepted_operations(s: ContractView, ops: Seq<Operation>)
    ensures
        s.after(ops).requests.len() == s.requests.len() + s.accepted_submissions(ops),
        s.after(ops).verifications.len() == s.verifications.len() + s.accepted_verifications(
            ops,
        ),
        s.after(ops).owner == s.owner,
    decreases ops.len(),
{
    if ops.len() > 0 {
        law_counts_follow_accepted_operations(s, ops.drop_last());
    }
}

/// A run of paid submissions to a ledger with `n` requests leaves it with one
/// request more for each.
proof fn lemma_paid_submissions_all_stored(s: ContractView, ops: Seq<Operation>)
    requires
        forall|i: int| 0 <= i < ops.len() ==> (#[trigger] ops[i]).is_paid_submission(),
    ensures
        s.after(ops).requests.len() == s.requests.len() + ops.len(),
    decreases ops.len(),
{
    if ops.len() > 0 {
        let earlier = ops.drop_last();
        assert forall|i: int| 0 <= i < earlier.len() implies (#[trigger] earlier[i]).is_paid_submission() by {
            assert(earlier[i] == ops[i]);
        }
        lemma_paid_submissions_all_stored(s, earlier);
        assert(ops.last() == ops[ops.len() - 1]);
        assert(ops.last().is_paid_submission());
    }
}

/// Ids are given out in the order of the submissions that are accepted,
/// whatever else is done in between: the id that the ledger has next after
/// the first `k` operations of a run, which is the id that a submission made
/// then gets, is the number of requests that the ledger held at first and of
/// submissions accepted since.
pub proof fn law_ids_count_accepted_submissions(s: ContractView, ops: Seq<Operation>, k: int)
    requires
        0 <= k <= ops.len(),
        s.requests.len() + ops.len() <= u64::MAX,
    ensures
        s.after(ops.take(k)).next_request_id() == s.requests.len() + s.accepted_submissions(
            ops.take(k),
        ),
{
    law_counts_follow_accepted_operations(s, ops.take(k));
    lemma_accepted_at_most_length(s, ops.take(k));
}

/// Submissions to a new ledger are numbered 0, 1, 2, … in the order of the
/// calls: the `k`-th of a run of paid submissions gets the id `k`, which is
/// the id that the ledger has next when the call is made, and after the run
/// the ledger holds as many requests as there were calls.
pub proof fn law_submissions_numbered_in_order(owner: Seq<char>, ops: Seq<Operation>, k: int)
    requires
        0 <= k < ops.len() <= u64::MAX,
        forall|i: int| 0 <= i < ops.len() ==> (#[trigger] ops[i]).is_paid_submission(),
    ensures
        ContractView::fresh(owner).after(ops.take(k)).next_request_id() == k,
        ContractView::fresh(owner).after(ops.take(k)).apply(ops[k]) is Ok,
        ContractView::fresh(owner).after(ops).requests.len() == ops.len(),
{
    let s = ContractView::fresh(owner);
    let earlier = ops.take(k);
    assert forall|i: int| 0 <= i < earlier.len() implies (#[trigger] earlier[i]).is_paid_submission() by {
        assert(earlier[i] == ops[i]);
    }
    lemma_paid_submissions_all_stored(s, earlier);
    lemma_paid_submissions_all_stored(s, ops);
    assert(ops[k].is_paid_submission());
}

/// For a caller who may act on a stored request: taking the request up fails
/// with `InvalidTransition` unless the request is `Pending`; it succeeds if the
/// request is `Pending`, and then a second attempt fails with
/// `InvalidTransition`.
pub proof fn law_mark_processing_only_once(
    s: ContractView,
    ctx: ContextView,
    again: ContextView,
    request_id: u64,
)
    requires
        s.may_act(ctx),
        s.may_act(again),
        request_id < s.requests.len(),
    ensures
        s.requests[request_id as int].status != RequestStatus::Pending ==> s.mark_processing(
            ctx,
            request_id,
        ) == Err::<ContractView, LedgerError>(LedgerError::InvalidTransition),
        s.requests[request_id as int].status == RequestStatus::Pending ==> s.mark_processing(
            ctx,
            request_id,
        ) is Ok && s.mark_processing(ctx, request_id).unwrap().mark_processing(again, request_id)
            == Err::<ContractView, LedgerError>(LedgerError::InvalidTransition),
{
}

/// An answer to a request that is not `Processing`, or that does not exist,
/// is refused, whoever sends it.
pub proof fn law_verification_needs_processing(
    s: ContractView,
    ctx: ContextView,
    request_id: u64,
    evidence: Evidence,
)
    requires
        match s.request(request_id) {
            Some(r) => r.status != RequestStatus::Processing,
            None => true,
        },
    ensures
        s.submit_verification(ctx, request_id, evidence) is Err,
        s.may_act(ctx) && s.request(request_id) is Some ==> s.submit_verification(
            ctx,
            request_id,
            evidence,
        ) == Err::<ContractView, LedgerError>(LedgerError::InvalidTransition),
{
}

/// What [`first_answer`] finds answers the request, and no earlier record
/// does; where it finds nothing, no record answers the request.
pub proof fn lemma_first_answer(records: Seq<VerificationView>, request_id: u64)
    ensures
        match first_answer(records, request_id) {
            Some(v) => exists|i: int|
                0 <= i < records.len() && #[trigger] records[i] == v && v.request_id == request_id
                    && forall|j: int| 0 <= j < i ==> (#[trigger] records[j]).request_id != request_id,
            None => forall|i: int|
                0 <= i < records.len() ==> (#[trigger] records[i]).request_id != request_id,
        },
    decreases records.len(),
{
    if records.len() > 0 && records[0].request_id != request_id {
        let rest = records.drop_first();
        lemma_first_answer(rest, request_id);
        match first_answer(rest, request_id) {
            Some(v) => {
                let i = choose|i: int|
                    0 <= i < rest.len() && #[trigger] rest[i] == v && v.request_id == request_id
                        && forall|j: int| 0 <= j < i ==> (#[trigger] rest[j]).request_id != request_id;
                assert(records[i + 1] == v);
                assert forall|j: int| 0 <= j < i + 1 implies (#[trigger] records[j]).request_id
                    != request_id by {
                    if j > 0 {
                        assert(records[j] == rest[j - 1]);
                    }
                }
            },
            None => {
                assert forall|i: int| 0 <= i < records.len() implies (#[trigger] records[i]).request_id
                    != request_id by {
                    if i > 0 {
                        assert(records[i] == rest[i - 1]);
                    }
                }
            },
        }
    } else if records.len() > 0 {
        assert(records[0] == records[0]);
    }
}

/// After an accepted answer to request `request_id`, the request is
/// `Completed`, and looking for the verification of that request finds the
/// record that the answer stored.
pub proof fn law_answer_completes_request(
    s: ContractView,
    ctx: ContextView,
    request_id: u64,
    evidence: Evidence,
)
    requires
        s.consistent(),
        s.submit_verification(ctx, request_id, evidence) is Ok,
    ensures
        ({
            let t = s.submit_verification(ctx, request_id, evidence).unwrap();
            &&& t.request(request_id) is Some
            &&& t.request(request_id).unwrap().status == RequestStatus::Completed
            &&& t.verification_for(request_id) == Some(s.new_verification(ctx, request_id, evidence))
            &&& t.verification_for(request_id).unwrap().request_id == request_id
        }),
{
    let t = s.submit_verification(ctx, request_id, evidence).unwrap();
    let stored = s.new_verification(ctx, request_id, evidence);
    let last = s.verifications.len() as int;
    lemma_first_answer(t.verifications, request_id);
    assert(t.verifications[last] == stored);
    assert forall|j: int| 0 <= j < last implies (#[trigger] t.verifications[j]).request_id
        != request_id by {
        assert(s.answers_completed(j));
    }
}

} // verus!
