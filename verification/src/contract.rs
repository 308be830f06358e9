//! The ledger itself.

use vstd::prelude::*;
use crate::context::{CallContext, MIN_DEPOSIT};
use crate::error::LedgerError;
use crate::json::json_document;
use crate::model::{
    first_answer, is_pending, lemma_filter_next, lemma_mark_processing_consistent,
    lemma_submit_request_consistent, lemma_submit_verification_consistent, requested_by,
    verified_for, ContractView, Evidence,
};
use crate::records::{
    request_view_of, request_views, verification_view_of, verification_views, AdvisorRequest,
    RequestStatus, Verification,
};
use crate::risk::{document_balances, risk_of, score_portfolio, RiskScore};

verus! {

/// The ledger of one deployed instance: its owner, the requests and the
/// verifications, and the counters that number them.
#[derive(Debug)]
pub struct BlindFoldContract {
    owner: String,
    requests: Vec<AdvisorRequest>,
    verifications: Vec<Verification>,
    next_request_id: u64,
    next_verification_id: u64,
    total_requests: u64,
    total_verifications: u64,
}

impl View for BlindFoldContract {
    type V = ContractView;

    closed spec fn view(&self) -> ContractView {
        ContractView {
            owner: self.owner@,
            requests: request_views(self.requests@),
            verifications: verification_views(self.verifications@),
        }
    }
}

impl BlindFoldContract {
    /// Whether the counters agree with the lists, and the lists with each
    /// other. Every ledger that this library hands out is well formed.
    pub closed spec fn wf(&self) -> bool {
        &&& self@.consistent()
        &&& self.next_request_id == self.requests@.len()
        &&& self.total_requests == self.requests@.len()
        &&& self.next_verification_id == self.verifications@.len()
        &&& self.total_verifications == self.verifications@.len()
    }

    /// A well-formed ledger is consistent.
    pub proof fn lemma_wf_consistent(&self)
        requires
            self.wf(),
        ensures
            self@.consistent(),
    {
    }

    /// A ledger that holds nothing yet.
    pub fn new(owner: String) -> (contract: Self)
        ensures
            contract.wf(),
            contract@ == ContractView::fresh(owner@),
    {
        let contract = BlindFoldContract {
            owner,
            requests: Vec::new(),
            verifications: Vec::new(),
            next_request_id: 0,
            next_verification_id: 0,
            total_requests: 0,
            total_verifications: 0,
        };
        assert(contract@.requests =~= Seq::empty());
        assert(contract@.verifications =~= Seq::empty());
        contract
    }

    /// Sets up the ledger of an instance that has none yet.
    ///
    /// An instance is initialized once: where `slot` already holds a ledger
    /// the call fails with `AlreadyInitialized` and leaves it as it is.
    pub fn initialize(slot: &mut Option<BlindFoldContract>, owner: String) -> (result: Result<
        (),
        LedgerError,
    >)
        ensures
            match *old(slot) {
                Some(_) => result == Err::<(), LedgerError>(LedgerError::AlreadyInitialized)
                    && *final(slot) == *old(slot),
                None => result is Ok && (*final(slot)) is Some && (*final(slot)).unwrap().wf()
                    && (*final(slot)).unwrap()@ == ContractView::fresh(owner@),
            },
    {
        if slot.is_some() {
            return Err(LedgerError::AlreadyInitialized);
        }
        *slot = Some(BlindFoldContract::new(owner));
        Ok(())
    }

    /// Puts a ledger together from its parts, as they were stored: the owner,
    /// the requests and the verifications. Parts that do not make up a
    /// consistent ledger give nothing.
    pub fn from_parts(
        owner: String,
        requests: Vec<AdvisorRequest>,
        verifications: Vec<Verification>,
    ) -> (restored: Option<BlindFoldContract>)
        ensures
            ({
                let parts = ContractView {
                    owner: owner@,
                    requests: request_views(requests@),
                    verifications: verification_views(verifications@),
                };
                match restored {
                    Some(contract) => parts.consistent() && contract.wf() && contract@ == parts,
                    None => !parts.consistent(),
                }
            }),
    {
        let ghost parts = ContractView {
            owner: owner@,
            requests: request_views(requests@),
            verifications: verification_views(verifications@),
        };
        let mut i: usize = 0;
        while i < requests.len()
            invariant
                i <= requests@.len(),
                parts.requests == request_views(requests@),
                forall|k: int| 0 <= k < i ==> (#[trigger] parts.requests[k]).id == k,
            decreases requests@.len() - i,
        {
            if requests[i].id != i as u64 {
                assert(parts.requests[i as int].id != i);
                return None;
            }
            i += 1;
        }
        let mut answered: Vec<bool> = Vec::new();
        while answered.len() < requests.len()
            invariant
                answered@.len() <= requests@.len(),
                forall|r: int| 0 <= r < answered@.len() ==> !answered@[r],
            decreases requests@.len() - answered@.len(),
        {
            answered.push(false);
        }
        let mut j: usize = 0;
        while j < verifications.len()
            invariant
                j <= verifications@.len(),
                answered@.len() == requests@.len(),
                parts == (ContractView {
                    owner: owner@,
                    requests: request_views(requests@),
                    verifications: verification_views(verifications@),
                }),
                forall|k: int| 0 <= k < j ==> (#[trigger] parts.verifications[k]).id == k,
                forall|k: int| 0 <= k < j ==> #[trigger] parts.answers_completed(k),
                forall|r: int|
                    0 <= r < answered@.len() ==> answered@[r] == exists|k: int|
                        0 <= k < j && (#[trigger] parts.verifications[k]).request_id == r,
            decreases verifications@.len() - j,
        {
            let record = &verifications[j];
            if record.id != j as u64 {
                assert(parts.verifications[j as int].id != j);
                return None;
            }
            if record.request_id >= requests.len() as u64 {
                assert(!parts.answers_completed(j as int));
                return None;
            }
            let request = &requests[record.request_id as usize];
            if request.status != RequestStatus::Completed || !(request.user == record.user) {
                assert(!parts.answers_completed(j as int));
                return None;
            }
            assert(parts.answers_completed(j as int));
            let ghost before = answered@;
            answered.set(record.request_id as usize, true);
            assert forall|r: int| 0 <= r < answered@.len() implies answered@[r] == exists|k: int|
                0 <= k < j + 1 && (#[trigger] parts.verifications[k]).request_id == r by {
                if r == record.request_id {
                    assert(parts.verifications[j as int].request_id == r);
                } else if before[r] {
                    let k = choose|k: int|
                        0 <= k < j && (#[trigger] parts.verifications[k]).request_id == r;
                    assert(parts.verifications[k].request_id == r);
                } else {
                    assert(parts.verifications[j as int].request_id != r);
                }
            }
            j += 1;
        }
        let mut i: usize = 0;
        while i < requests.len()
            invariant
                i <= requests@.len(),
                answered@.len() == requests@.len(),
                parts == (ContractView {
                    owner: owner@,
                    requests: request_views(requests@),
                    verifications: verification_views(verifications@),
                }),
                forall|r: int| 0 <= r < answered@.len() ==> answered@[r] == parts.is_answered(r),
                forall|k: int| 0 <= k < i ==> #[trigger] parts.answered_if_completed(k),
            decreases requests@.len() - i,
        {
            if requests[i].status == RequestStatus::Completed && !answered[i] {
                assert(!parts.answered_if_completed(i as int));
                return None;
            }
            assert(parts.answered_if_completed(i as int));
            i += 1;
        }
        let next_request_id = requests.len() as u64;
        let next_verification_id = verifications.len() as u64;
        Some(
            BlindFoldContract {
                owner,
                requests,
                verifications,
                next_request_id,
                next_verification_id,
                total_requests: next_request_id,
                total_verifications: next_verification_id,
            },
        )
    }

    /// Every request, oldest first.
    pub fn requests(&self) -> (list: &Vec<AdvisorRequest>)
        ensures
            request_views(list@) == self@.requests,
    {
        &self.requests
    }

    /// Every verification, oldest first.
    pub fn verifications(&self) -> (list: &Vec<Verification>)
        ensures
            verification_views(list@) == self@.verifications,
    {
        &self.verifications
    }

    /// The account that owns the ledger.
    pub fn owner(&self) -> (owner: &String)
        ensures
            owner@ == self@.owner,
    {
        &self.owner
    }

    /// Whether the caller may advance a request.
    pub fn may_act(&self, ctx: &CallContext) -> (allowed: bool)
        ensures
            allowed == self@.may_act(ctx@),
    {
        ctx.caller == ctx.contract_account || ctx.caller == self.owner
    }

    /// Why the caller may not move `request_id` out of the status `from`, if
    /// anything stands against it.
    fn refusal(&self, ctx: &CallContext, request_id: u64, from: RequestStatus) -> (refused: Option<
        LedgerError,
    >)
        ensures
            refused == self@.refusal(ctx@, request_id, from),
            refused is None ==> request_id < self.requests@.len() <= usize::MAX,
    {
        if !self.may_act(ctx) {
            return Some(LedgerError::Unauthorized);
        }
        if request_id >= self.requests.len() as u64 {
            return Some(LedgerError::NotFound);
        }
        if self.requests[request_id as usize].status != from {
            return Some(LedgerError::InvalidTransition);
        }
        None
    }

    /// Stores a request of the caller's as `Pending` and returns its id.
    ///
    /// Anyone may ask. The call fails with `InsufficientDeposit` where less
    /// than [`MIN_DEPOSIT`] is attached. Ids are given out in order, from 0.
    pub fn ask_advisor(&mut self, ctx: &CallContext, question: String, portfolio_data: String) -> (result:
        Result<u64, LedgerError>)
        requires
            old(self).wf(),
        ensures
            final(self).wf(),
            match result {
                Ok(id) => old(self)@.submit_request(ctx@, question@, portfolio_data@) == Ok::<
                    ContractView,
                    LedgerError,
                >(final(self)@) && id == old(self)@.next_request_id(),
                Err(e) => old(self)@.submit_request(ctx@, question@, portfolio_data@) == Err::<
                    ContractView,
                    LedgerError,
                >(e) && final(self)@ == old(self)@,
            },
    {
        if ctx.attached_deposit < MIN_DEPOSIT {
            return Err(LedgerError::InsufficientDeposit);
        }
        let id = self.next_request_id;
        let request = AdvisorRequest {
            id,
            user: ctx.caller.clone(),
            question,
            portfolio_data,
            timestamp: ctx.timestamp,
            status: RequestStatus::Pending,
        };
        self.requests.push(request);
        let stored = self.requests.len() as u64;
        self.next_request_id = stored;
        self.total_requests = stored;
        proof {
            let before = old(self)@;
            let after = before.submit_request(ctx@, question@, portfolio_data@).unwrap();
            assert(self@.requests =~= after.requests);
            assert(self@.verifications =~= after.verifications);
            lemma_submit_request_consistent(before, ctx@, question@, portfolio_data@);
        }
        Ok(id)
    }

    /// Takes a `Pending` request up: it becomes `Processing`.
    ///
    /// Only the ledger's own account and the owner may do so: another caller
    /// gets `Unauthorized`. An id that names no request gives `NotFound`, a
    /// request in another status `InvalidTransition`.
    pub fn mark_processing(&mut self, ctx: &CallContext, request_id: u64) -> (result: Result<
        (),
        LedgerError,
    >)
        requires
            old(self).wf(),
        ensures
            final(self).wf(),
            match result {
                Ok(_) => old(self)@.mark_processing(ctx@, request_id) == Ok::<
                    ContractView,
                    LedgerError,
                >(final(self)@),
                Err(e) => old(self)@.mark_processing(ctx@, request_id) == Err::<
                    ContractView,
                    LedgerError,
                >(e) && final(self)@ == old(self)@,
            },
    {
        match self.refusal(ctx, request_id, RequestStatus::Pending) {
            Some(e) => {
                return Err(e);
            },
            None => {},
        }
        self.requests[request_id as usize].status = RequestStatus::Processing;
        proof {
            let before = old(self)@;
            let after = before.mark_processing(ctx@, request_id).unwrap();
            assert(self@.requests =~= after.requests);
            assert(self@.verifications =~= after.verifications);
            lemma_mark_processing_consistent(before, ctx@, request_id);
        }
        Ok(())
    }

    /// Stores the relay's answer to a `Processing` request and completes the
    /// request, both or neither. Returns the id of the new verification.
    ///
    /// Only the ledger's own account and the owner may do so: another caller
    /// gets `Unauthorized`. An id that names no request gives `NotFound`, a
    /// request in another status `InvalidTransition`. The verification names
    /// the user of the request. Nothing of the evidence is examined.
    pub fn provide_ai_response(
        &mut self,
        ctx: &CallContext,
        request_id: u64,
        response_text: String,
        request_hash: String,
        response_hash: String,
        signature: String,
        signing_address: String,
        signing_algo: String,
        tee_attestation: String,
    ) -> (result: Result<u64, LedgerError>)
        requires
            old(self).wf(),
        ensures
            final(self).wf(),
            ({
                let evidence = Evidence {
                    response_text: response_text@,
                    request_hash: request_hash@,
                    response_hash: response_hash@,
                    signature: signature@,
                    signing_address: signing_address@,
                    signing_algo: signing_algo@,
                    tee_attestation: tee_attestation@,
                };
                match result {
                    Ok(id) => old(self)@.submit_verification(ctx@, request_id, evidence) == Ok::<
                        ContractView,
                        LedgerError,
                    >(final(self)@) && id == old(self)@.next_verification_id(),
                    Err(e) => old(self)@.submit_verification(ctx@, request_id, evidence) == Err::<
                        ContractView,
                        LedgerError,
                    >(e) && final(self)@ == old(self)@,
                }
            }),
    {
        match self.refusal(ctx, request_id, RequestStatus::Processing) {
            Some(e) => {
                return Err(e);
            },
            None => {},
        }
        let id = self.next_verification_id;
        let verification = Verification {
            id,
            request_id,
            user: self.requests[request_id as usize].user.clone(),
            request_hash,
            response_hash,
            signature,
            signing_address,
            signing_algo,
            tee_attestation,
            response_text,
            timestamp: ctx.timestamp,
            block_height: ctx.block_height,
        };
        self.verifications.push(verification);
        let stored = self.verifications.len() as u64;
        self.requests[request_id as usize].status = RequestStatus::Completed;
        self.next_verification_id = stored;
        self.total_verifications = stored;
        proof {
            let evidence = Evidence {
                response_text: response_text@,
                request_hash: request_hash@,
                response_hash: response_hash@,
                signature: signature@,
                signing_address: signing_address@,
                signing_algo: signing_algo@,
                tee_attestation: tee_attestation@,
            };
            let before = old(self)@;
            let after = before.submit_verification(ctx@, request_id, evidence).unwrap();
            assert(self@.requests =~= after.requests);
            assert(self@.verifications =~= after.verifications);
            lemma_submit_verification_consistent(before, ctx@, request_id, evidence);
        }
        Ok(id)
    }

    /// The request with this id, if there is one.
    pub fn get_request(&self, request_id: u64) -> (found: Option<AdvisorRequest>)
        ensures
            request_view_of(found) == self@.request(request_id),
    {
        if request_id < self.requests.len() as u64 {
            Some(self.requests[request_id as usize].clone())
        } else {
            None
        }
    }

    /// The verification with this id, if there is one.
    pub fn get_verification(&self, verification_id: u64) -> (found: Option<Verification>)
        ensures
            verification_view_of(found) == self@.verification(verification_id),
    {
        if verification_id < self.verifications.len() as u64 {
            Some(self.verifications[verification_id as usize].clone())
        } else {
            None
        }
    }

    /// The earliest verification that answers this request, if one does.
    /// The verifications are searched one by one, oldest first.
    pub fn get_verification_by_request(&self, request_id: u64) -> (found: Option<Verification>)
        ensures
            verification_view_of(found) == self@.verification_for(request_id),
    {
        let mut i: usize = 0;
        assert(self@.verifications.skip(0) =~= self@.verifications);
        while i < self.verifications.len()
            invariant
                i <= self.verifications@.len(),
                first_answer(self@.verifications, request_id) == first_answer(
                    self@.verifications.skip(i as int),
                    request_id,
                ),
            decreases self.verifications@.len() - i,
        {
            let ghost rest = self@.verifications.skip(i as int);
            assert(rest[0] == self.verifications@[i as int]@);
            if self.verifications[i].request_id == request_id {
                return Some(self.verifications[i].clone());
            }
            assert(rest.drop_first() =~= self@.verifications.skip(i + 1));
            i += 1;
        }
        None
    }

    /// The requests that wait to be taken up, oldest first.
    pub fn get_pending_requests(&self) -> (list: Vec<AdvisorRequest>)
        ensures
            request_views(list@) == self@.pending(),
    {
        let mut list: Vec<AdvisorRequest> = Vec::new();
        let mut i: usize = 0;
        assert(self@.requests.take(0).filter(is_pending()) =~= Seq::empty()) by {
            reveal(Seq::filter);
        }
        while i < self.requests.len()
            invariant
                i <= self.requests@.len(),
                request_views(list@) =~= self@.requests.take(i as int).filter(is_pending()),
            decreases self.requests@.len() - i,
        {
            proof {
                lemma_filter_next(self@.requests, i as int, is_pending());
            }
            if self.requests[i].status == RequestStatus::Pending {
                list.push(self.requests[i].clone());
            }
            i += 1;
        }
        assert(self@.requests.take(i as int) =~= self@.requests);
        list
    }

    /// The requests that `user` made, oldest first.
    pub fn get_user_requests(&self, user: String) -> (list: Vec<AdvisorRequest>)
        ensures
            request_views(list@) == self@.requests_of(user@),
    {
        let mut list: Vec<AdvisorRequest> = Vec::new();
        let mut i: usize = 0;
        assert(self@.requests.take(0).filter(requested_by(user@)) =~= Seq::empty()) by {
            reveal(Seq::filter);
        }
        while i < self.requests.len()
            invariant
                i <= self.requests@.len(),
                request_views(list@) =~= self@.requests.take(i as int).filter(
                    requested_by(user@),
                ),
            decreases self.requests@.len() - i,
        {
            proof {
                lemma_filter_next(self@.requests, i as int, requested_by(user@));
            }
            if self.requests[i].user == user {
                list.push(self.requests[i].clone());
            }
            i += 1;
        }
        assert(self@.requests.take(i as int) =~= self@.requests);
        list
    }

    /// The verifications of `user`'s requests, oldest first.
    pub fn get_user_verifications(&self, user: String) -> (list: Vec<Verification>)
        ensures
            verification_views(list@) == self@.verifications_of(user@),
    {
        let mut list: Vec<Verification> = Vec::new();
        let mut i: usize = 0;
        assert(self@.verifications.take(0).filter(verified_for(user@)) =~= Seq::empty()) by {
            reveal(Seq::filter);
        }
        while i < self.verifications.len()
            invariant
                i <= self.verifications@.len(),
                verification_views(list@) =~= self@.verifications.take(i as int).filter(
                    verified_for(user@),
                ),
            decreases self.verifications@.len() - i,
        {
            proof {
                lemma_filter_next(self@.verifications, i as int, verified_for(user@));
            }
            if self.verifications[i].user == user {
                list.push(self.verifications[i].clone());
            }
            i += 1;
        }
        assert(self@.verifications.take(i as int) =~= self@.verifications);
        list
    }

    /// The concentration rating of the portfolio that a text describes. The
    /// ledger is neither read nor changed.
    pub fn calculate_risk_score(&self, portfolio_json: String) -> (risk: RiskScore)
        ensures
            risk@ == risk_of(document_balances(json_document(portfolio_json@))),
    {
        score_portfolio(portfolio_json.as_str())
    }

    /// How many requests and verifications were ever stored, and the id that
    /// the next request gets.
    pub fn get_stats(&self) -> (stats: (u64, u64, u64))
        requires
            self.wf(),
        ensures
            stats.0 == self@.requests.len(),
            stats.1 == self@.verifications.len(),
            stats.2 == self@.next_request_id(),
    {
        (self.total_requests, self.total_verifications, self.next_request_id)
    }
}

} // verus!
