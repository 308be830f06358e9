//! The ledger as a mathematical value, and its operations as functions on it.
//!
//! Every contract of [`crate::BlindFoldContract`] is stated over the
//! [`ContractView`] of the ledger before and after the call.

use vstd::prelude::*;
use crate::context::{ContextView, MIN_DEPOSIT};
use crate::error::LedgerError;
use crate::records::{RequestStatus, RequestView, VerificationView};

verus! {

/// What the relay reports with an answer: the answer itself, the digests of
/// question and answer, and the attestation material. None of it is examined.
pub struct Evidence {
    pub response_text: Seq<char>,
    pub request_hash: Seq<char>,
    pub response_hash: Seq<char>,
    pub signature: Seq<char>,
    pub signing_address: Seq<char>,
    pub signing_algo: Seq<char>,
    pub tee_attestation: Seq<char>,
}

/// The content of a ledger: its owner, and every request and verification
/// ever stored, each list in the order of storing.
pub struct ContractView {
    pub owner: Seq<char>,
    pub requests: Seq<RequestView>,
    pub verifications: Seq<VerificationView>,
}

impl ContractView {
    /// The ledger that holds nothing yet.
    pub open spec fn fresh(owner: Seq<char>) -> ContractView {
        ContractView { owner, requests: Seq::empty(), verifications: Seq::empty() }
    }

    /// Whether verification `j` answers a stored request that is completed and
    /// was made by the user that the verification names.
    pub open spec fn answers_completed(self, j: int) -> bool {
        let v = self.verifications[j];
        &&& v.request_id < self.requests.len()
        &&& self.requests[v.request_id as int].status == RequestStatus::Completed
        &&& self.requests[v.request_id as int].user == v.user
    }

    /// Whether request `i` has a verification that answers it.
    pub open spec fn is_answered(self, i: int) -> bool {
        exists|j: int|
            0 <= j < self.verifications.len() && (#[trigger] self.verifications[j]).request_id == i
    }

    /// Whether request `i`, if it is completed, has a verification that
    /// answers it.
    pub open spec fn answered_if_completed(self, i: int) -> bool {
        self.requests[i].status == RequestStatus::Completed ==> self.is_answered(i)
    }

    /// What holds of every ledger: each record's id is its place in its list,
    /// both lists can still be numbered in 64 bits, every verification
    /// answers a completed request, and every completed request has a
    /// verification that answers it.
    pub open spec fn consistent(self) -> bool {
        &&& self.requests.len() <= u64::MAX
        &&& self.verifications.len() <= u64::MAX
        &&& forall|i: int| 0 <= i < self.requests.len() ==> (#[trigger] self.requests[i]).id == i
        &&& forall|j: int|
            0 <= j < self.verifications.len() ==> (#[trigger] self.verifications[j]).id == j
        &&& forall|j: int|
            0 <= j < self.verifications.len() ==> #[trigger] self.answers_completed(j)
        &&& forall|i: int| 0 <= i < self.requests.len() ==> #[trigger] self.answered_if_completed(i)
    }

    /// Whether the caller may advance a request: it is the ledger's own
    /// account, or the owner.
    pub open spec fn may_act(self, ctx: ContextView) -> bool {
        ctx.caller == ctx.contract_account || ctx.caller == self.owner
    }

    /// The id that the next request gets.
    pub open spec fn next_request_id(self) -> u64 {
        self.requests.len() as u64
    }

    /// The id that the next verification gets.
    pub open spec fn next_verification_id(self) -> u64 {
        self.verifications.len() as u64
    }

    /// The request with this id, if there is one.
    pub open spec fn request(self, id: u64) -> Option<RequestView> {
        if id < self.requests.len() {
            Some(self.requests[id as int])
        } else {
            None
        }
    }

    /// The verification with this id, if there is one.
    pub open spec fn verification(self, id: u64) -> Option<VerificationView> {
        if id < self.verifications.len() {
            Some(self.verifications[id as int])
        } else {
            None
        }
    }

    /// The earliest verification that answers this request, if one does.
    pub open spec fn verification_for(self, request_id: u64) -> Option<VerificationView> {
        first_answer(self.verifications, request_id)
    }

    /// The requests that wait to be taken up, oldest first.
    pub open spec fn pending(self) -> Seq<RequestView> {
        self.requests.filter(is_pending())
    }

    /// The requests that this user made, oldest first.
    pub open spec fn requests_of(self, user: Seq<char>) -> Seq<RequestView> {
        self.requests.filter(requested_by(user))
    }

    /// The verifications of this user's requests, oldest first.
    pub open spec fn verifications_of(self, user: Seq<char>) -> Seq<VerificationView> {
        self.verifications.filter(verified_for(user))
    }

    /// The request that a submission stores.
    pub open spec fn new_request(
        self,
        ctx: ContextView,
        question: Seq<char>,
        portfolio_data: Seq<char>,
    ) -> RequestView {
        RequestView {
            id: self.next_request_id(),
            user: ctx.caller,
            question,
            portfolio_data,
            timestamp: ctx.timestamp,
            status: RequestStatus::Pending,
        }
    }

    /// The verification that an answer to `request_id` stores.
    pub open spec fn new_verification(
        self,
        ctx: ContextView,
        request_id: u64,
        evidence: Evidence,
    ) -> VerificationView {
        VerificationView {
            id: self.next_verification_id(),
            request_id,
            user: self.requests[request_id as int].user,
            request_hash: evidence.request_hash,
            response_hash: evidence.response_hash,
            signature: evidence.signature,
            signing_address: evidence.signing_address,
            signing_algo: evidence.signing_algo,
            tee_attestation: evidence.tee_attestation,
            response_text: evidence.response_text,
            timestamp: ctx.timestamp,
            block_height: ctx.block_height,
        }
    }

    /// The ledger with one request moved to another status.
    pub open spec fn with_status(self, request_id: u64, status: RequestStatus) -> ContractView {
        ContractView {
            owner: self.owner,
            requests: self.requests.update(
                request_id as int,
                self.requests[request_id as int].with_status(status),
            ),
            verifications: self.verifications,
        }
    }

    /// Submitting a request: refused below the minimum deposit; otherwise the
    /// request is stored as `Pending` under the next id.
    pub open spec fn submit_request(
        self,
        ctx: ContextView,
        question: Seq<char>,
        portfolio_data: Seq<char>,
    ) -> Result<ContractView, LedgerError> {
        if ctx.attached_deposit < MIN_DEPOSIT {
            Err(LedgerError::InsufficientDeposit)
        } else {
            Ok(
                ContractView {
                    owner: self.owner,
                    requests: self.requests.push(self.new_request(ctx, question, portfolio_data)),
                    verifications: self.verifications,
                },
            )
        }
    }

    /// Why a caller may not move `request_id` out of the status `from`, if
    /// anything stands against it.
    pub open spec fn refusal(
        self,
        ctx: ContextView,
        request_id: u64,
        from: RequestStatus,
    ) -> Option<LedgerError> {
        if !self.may_act(ctx) {
            Some(LedgerError::Unauthorized)
        } else if request_id >= self.requests.len() {
            Some(LedgerError::NotFound)
        } else if self.requests[request_id as int].status != from {
            Some(LedgerError::InvalidTransition)
        } else {
            None
        }
    }

    /// Taking a request up: a `Pending` request becomes `Processing`.
    pub open spec fn mark_processing(self, ctx: ContextView, request_id: u64) -> Result<
        ContractView,
        LedgerError,
    > {
        match self.refusal(ctx, request_id, RequestStatus::Pending) {
            Some(e) => Err(e),
            None => Ok(self.with_status(request_id, RequestStatus::Processing)),
        }
    }

    /// Answering a request: a `Processing` request becomes `Completed`, and
    /// the verification is stored under the next id, both or neither.
    pub open spec fn submit_verification(
        self,
        ctx: ContextView,
        request_id: u64,
        evidence: Evidence,
    ) -> Result<ContractView, LedgerError> {
        match self.refusal(ctx, request_id, RequestStatus::Processing) {
            Some(e) => Err(e),
            None => Ok(
                ContractView {
                    owner: self.owner,
                    requests: self.with_status(request_id, RequestStatus::Completed).requests,
                    verifications: self.verifications.push(
                        self.new_verification(ctx, request_id, evidence),
                    ),
                },
            ),
        }
    }
}

/// The requests that wait to be taken up.
pub open spec fn is_pending() -> spec_fn(RequestView) -> bool {
    |r: RequestView| r.status == RequestStatus::Pending
}

/// The requests that `user` made.
pub open spec fn requested_by(user: Seq<char>) -> spec_fn(RequestView) -> bool {
    |r: RequestView| r.user == user
}

/// The verifications that name `user`.
pub open spec fn verified_for(user: Seq<char>) -> spec_fn(VerificationView) -> bool {
    |v: VerificationView| v.user == user
}

/// Filtering one element more keeps what was kept, and adds the element if
/// the predicate holds of it.
pub proof fn lemma_filter_next<A>(s: Seq<A>, i: int, keep: spec_fn(A) -> bool)
    requires
        0 <= i < s.len(),
    ensures
        s.take(i + 1).filter(keep) == if keep(s[i]) {
            s.take(i).filter(keep).push(s[i])
        } else {
            s.take(i).filter(keep)
        },
{
    reveal(Seq::filter);
    assert(s.take(i + 1).drop_last() =~= s.take(i));
}

/// The first of `records` that answers `request_id`, if one does.
pub open spec fn first_answer(records: Seq<VerificationView>, request_id: u64) -> Option<
    VerificationView,
>
    decreases records.len(),
{
    if records.len() == 0 {
        None
    } else if records[0].request_id == request_id {
        Some(records[0])
    } else {
        first_answer(records.drop_first(), request_id)
    }
}

/// A submission keeps a consistent ledger consistent, as long as the new
/// request can still be numbered.
pub proof fn lemma_submit_request_consistent(
    s: ContractView,
    ctx: ContextView,
    question: Seq<char>,
    portfolio_data: Seq<char>,
)
    requires
        s.consistent(),
        s.requests.len() < u64::MAX,
        s.submit_request(ctx, question, portfolio_data) is Ok,
    ensures
        s.submit_request(ctx, question, portfolio_data).unwrap().consistent(),
{
    let t = s.submit_request(ctx, question, portfolio_data).unwrap();
    assert forall|j: int| 0 <= j < t.verifications.len() implies #[trigger] t.answers_completed(
        j,
    ) by {
        assert(s.answers_completed(j));
    }
    assert forall|i: int| 0 <= i < t.requests.len() implies #[trigger] t.answered_if_completed(
        i,
    ) by {
        if i < s.requests.len() {
            assert(s.answered_if_completed(i));
        }
    }
}

/// Taking a request up keeps a consistent ledger consistent.
pub proof fn lemma_mark_processing_consistent(s: ContractView, ctx: ContextView, request_id: u64)
    requires
        s.consistent(),
        s.mark_processing(ctx, request_id) is Ok,
    ensures
        s.mark_processing(ctx, request_id).unwrap().consistent(),
{
    let t = s.mark_processing(ctx, request_id).unwrap();
    assert forall|j: int| 0 <= j < t.verifications.len() implies #[trigger] t.answers_completed(
        j,
    ) by {
        assert(s.answers_completed(j));
    }
    assert forall|i: int| 0 <= i < t.requests.len() implies #[trigger] t.answered_if_completed(
        i,
    ) by {
        assert(s.answered_if_completed(i));
    }
}

/// An answer keeps a consistent ledger consistent, as long as the new
/// verification can still be numbered.
pub proof fn lemma_submit_verification_consistent(
    s: ContractView,
    ctx: ContextView,
    request_id: u64,
    evidence: Evidence,
)
    requires
        s.consistent(),
        s.verifications.len() < u64::MAX,
        s.submit_verification(ctx, request_id, evidence) is Ok,
    ensures
        s.submit_verification(ctx, request_id, evidence).unwrap().consistent(),
{
    let t = s.submit_verification(ctx, request_id, evidence).unwrap();
    assert forall|j: int| 0 <= j < t.verifications.len() implies #[trigger] t.answers_completed(
        j,
    ) by {
        if j < s.verifications.len() {
            assert(s.answers_completed(j));
        }
    }
    assert forall|i: int| 0 <= i < t.requests.len() implies #[trigger] t.answered_if_completed(
        i,
    ) by {
        if i == request_id {
            assert(t.verifications[s.verifications.len() as int].request_id == i);
        } else if s.requests[i].status == RequestStatus::Completed {
            assert(s.answered_if_completed(i));
            let j = choose|j: int|
                0 <= j < s.verifications.len() && (#[trigger] s.verifications[j]).request_id == i;
            assert(t.verifications[j].request_id == i);
        }
    }
}

} // verus!
