//! The records that the ledger keeps, and their mathematical content.

use vstd::prelude::*;

verus! {

/// Where a request stands in its lifecycle. A request starts as `Pending`,
/// becomes `Processing` when the relay takes it up, and `Completed` when its
/// attestation is stored. No operation leads to `Failed`.
#[derive(Clone, Copy, Debug, PartialEq, Eq, Structural)]
pub enum RequestStatus {
    Pending,
    Processing,
    Completed,
    Failed,
}

impl RequestStatus {
    /// Whether no transition leaves this status.
    pub open spec fn is_terminal(self) -> bool {
        self == RequestStatus::Completed || self == RequestStatus::Failed
    }

    /// The status that follows this one, if any does.
    pub open spec fn successor(self) -> Option<RequestStatus> {
        match self {
            RequestStatus::Pending => Some(RequestStatus::Processing),
            RequestStatus::Processing => Some(RequestStatus::Completed),
            RequestStatus::Completed => None,
            RequestStatus::Failed => None,
        }
    }

    /// Whether a request in this status can come to be in `later`, by no
    /// transition or by some: the order is `Pending`, `Processing`,
    /// `Completed`, and nothing leads to or from `Failed`.
    pub open spec fn leads_to(self, later: RequestStatus) -> bool {
        ||| self == later
        ||| self == RequestStatus::Pending && later == RequestStatus::Processing
        ||| self == RequestStatus::Pending && later == RequestStatus::Completed
        ||| self == RequestStatus::Processing && later == RequestStatus::Completed
    }

    /// Whether no transition leaves this status.
    pub fn terminal(&self) -> (r: bool)
        ensures
            r == self.is_terminal(),
    {
        match self {
            RequestStatus::Completed => true,
            RequestStatus::Failed => true,
            _ => false,
        }
    }

    /// The status that follows this one, if any does.
    pub fn next(&self) -> (r: Option<RequestStatus>)
        ensures
            r == self.successor(),
    {
        match self {
            RequestStatus::Pending => Some(RequestStatus::Processing),
            RequestStatus::Processing => Some(RequestStatus::Completed),
            _ => None,
        }
    }
}

/// A question put to the advisor, with the portfolio it is about.
#[derive(Debug, PartialEq, Eq)]
pub struct AdvisorRequest {
    /// The request's number: requests are numbered from 0 in the order made.
    pub id: u64,
    /// The account that made the request.
    pub user: String,
    pub question: String,
    /// The portfolio description, kept as it was given.
    pub portfolio_data: String,
    /// The time of the call that made the request.
    pub timestamp: u64,
    pub status: RequestStatus,
}

/// The mathematical content of an [`AdvisorRequest`].
pub struct RequestView {
    pub id: u64,
    pub user: Seq<char>,
    pub question: Seq<char>,
    pub portfolio_data: Seq<char>,
    pub timestamp: u64,
    pub status: RequestStatus,
}

impl RequestView {
    /// The same request in another status.
    pub open spec fn with_status(self, status: RequestStatus) -> RequestView {
        RequestView {
            id: self.id,
            user: self.user,
            question: self.question,
            portfolio_data: self.portfolio_data,
            timestamp: self.timestamp,
            status,
        }
    }
}

impl View for AdvisorRequest {
    type V = RequestView;

    open spec fn view(&self) -> RequestView {
        RequestView {
            id: self.id,
            user: self.user@,
            question: self.question@,
            portfolio_data: self.portfolio_data@,
            timestamp: self.timestamp,
            status: self.status,
        }
    }
}

impl Clone for AdvisorRequest {
    fn clone(&self) -> (copy: Self)
        ensures
            copy == *self,
    {
        AdvisorRequest {
            id: self.id,
            user: self.user.clone(),
            question: self.question.clone(),
            portfolio_data: self.portfolio_data.clone(),
            timestamp: self.timestamp,
            status: self.status,
        }
    }
}

/// The attestation that answers one request. It is never changed once stored.
#[derive(Debug, PartialEq, Eq)]
pub struct Verification {
    /// The record's number: records are numbered from 0 in the order stored.
    pub id: u64,
    /// The request that this record answers.
    pub request_id: u64,
    /// The account that made that request, as it stood when the record was stored.
    pub user: String,
    pub request_hash: String,
    pub response_hash: String,
    pub signature: String,
    pub signing_address: String,
    pub signing_algo: String,
    /// The attestation material, stored as given and not examined.
    pub tee_attestation: String,
    pub response_text: String,
    /// The time of the call that stored the record.
    pub timestamp: u64,
    /// The height of the block that holds that call.
    pub block_height: u64,
}

/// The mathematical content of a [`Verification`].
pub struct VerificationView {
    pub id: u64,
    pub request_id: u64,
    pub user: Seq<char>,
    pub request_hash: Seq<char>,
    pub response_hash: Seq<char>,
    pub signature: Seq<char>,
    pub signing_address: Seq<char>,
    pub signing_algo: Seq<char>,
    pub tee_attestation: Seq<char>,
    pub response_text: Seq<char>,
    pub timestamp: u64,
    pub block_height: u64,
}

impl View for Verification {
    type V = VerificationView;

    open spec fn view(&self) -> VerificationView {
        VerificationView {
            id: self.id,
            request_id: self.request_id,
            user: self.user@,
            request_hash: self.request_hash@,
            response_hash: self.response_hash@,
            signature: self.signature@,
            signing_address: self.signing_address@,
            signing_algo: self.signing_algo@,
            tee_attestation: self.tee_attestation@,
            response_text: self.response_text@,
            timestamp: self.timestamp,
            block_height: self.block_height,
        }
    }
}

impl Clone for Verification {
    fn clone(&self) -> (copy: Self)
        ensures
            copy == *self,
    {
        Verification {
            id: self.id,
            request_id: self.request_id,
            user: self.user.clone(),
            request_hash: self.request_hash.clone(),
            response_hash: self.response_hash.clone(),
            signature: self.signature.clone(),
            signing_address: self.signing_address.clone(),
            signing_algo: self.signing_algo.clone(),
            tee_attestation: self.tee_attestation.clone(),
            response_text: self.response_text.clone(),
            timestamp: self.timestamp,
            block_height: self.block_height,
        }
    }
}

/// The contents of a list of requests, in the list's order.
pub open spec fn request_views(list: Seq<AdvisorRequest>) -> Seq<RequestView> {
    list.map_values(|r: AdvisorRequest| r@)
}

/// The contents of a list of verifications, in the list's order.
pub open spec fn verification_views(list: Seq<Verification>) -> Seq<VerificationView> {
    list.map_values(|v: Verification| v@)
}

/// The content of a request that may be absent.
pub open spec fn request_view_of(r: Option<AdvisorRequest>) -> Option<RequestView> {
    match r {
        Some(request) => Some(request@),
        None => None,
    }
}

/// The content of a verification that may be absent.
pub open spec fn verification_view_of(v: Option<Verification>) -> Option<VerificationView> {
    match v {
        Some(record) => Some(record@),
        None => None,
    }
}

} // verus!
