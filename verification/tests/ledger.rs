use blindfold::{
    AdvisorRequest, BlindFoldContract, CallContext, LedgerError, RequestStatus, Verification,
    MIN_DEPOSIT,
};

const OWNER: &str = "owner.near";
const LEDGER: &str = "ledger.near";

fn context(caller: &str, deposit: u128) -> CallContext {
    CallContext {
        caller: caller.to_string(),
        contract_account: LEDGER.to_string(),
        attached_deposit: deposit,
        timestamp: 1_700_000_000,
        block_height: 42,
    }
}

fn ask(contract: &mut BlindFoldContract, user: &str, question: &str) -> u64 {
    contract
        .ask_advisor(&context(user, MIN_DEPOSIT), question.to_string(), "{}".to_string())
        .unwrap()
}

fn answer(contract: &mut BlindFoldContract, caller: &str, request_id: u64) -> Result<u64, LedgerError> {
    contract.provide_ai_response(
        &context(caller, 0),
        request_id,
        "Hold.".to_string(),
        "req-hash".to_string(),
        "resp-hash".to_string(),
        "sig".to_string(),
        "0xabc".to_string(),
        "ecdsa".to_string(),
        "attestation".to_string(),
    )
}

#[test]
fn test_new() {
    let contract = BlindFoldContract::new("alice.near".to_string());
    let stats = contract.get_stats();
    assert_eq!(stats.0, 0);
    assert_eq!(stats.1, 0);
}

#[test]
fn new_ledger_holds_nothing() {
    let contract = BlindFoldContract::new(OWNER.to_string());
    assert_eq!(contract.owner(), OWNER);
    assert_eq!(contract.get_stats(), (0, 0, 0));
    assert!(contract.get_request(0).is_none());
    assert!(contract.get_verification(0).is_none());
    assert!(contract.get_verification_by_request(0).is_none());
    assert!(contract.get_pending_requests().is_empty());
    assert!(contract.requests().is_empty());
    assert!(contract.verifications().is_empty());
}

#[test]
fn initialize_happens_once() {
    let mut slot: Option<BlindFoldContract> = None;
    assert_eq!(BlindFoldContract::initialize(&mut slot, OWNER.to_string()), Ok(()));
    assert_eq!(slot.as_ref().unwrap().owner(), OWNER);
    ask(slot.as_mut().unwrap(), "alice.near", "q");
    assert_eq!(
        BlindFoldContract::initialize(&mut slot, "mallory.near".to_string()),
        Err(LedgerError::AlreadyInitialized)
    );
    assert_eq!(slot.as_ref().unwrap().owner(), OWNER);
    assert_eq!(slot.as_ref().unwrap().get_stats(), (1, 0, 1));
}

#[test]
fn request_ids_count_up_from_zero() {
    let mut contract = BlindFoldContract::new(OWNER.to_string());
    for expected in 0..5u64 {
        assert_eq!(ask(&mut contract, "alice.near", "q"), expected);
        assert_eq!(contract.get_stats().0, expected + 1);
        assert_eq!(contract.get_stats().2, expected + 1);
    }
}

#[test]
fn request_is_stored_as_given() {
    let mut contract = BlindFoldContract::new(OWNER.to_string());
    let ctx = CallContext {
        caller: "alice.near".to_string(),
        contract_account: LEDGER.to_string(),
        attached_deposit: 7,
        timestamp: 123,
        block_height: 9,
    };
    let id = contract
        .ask_advisor(&ctx, "Should I rebalance?".to_string(), "{\"holdings\":[]}".to_string())
        .unwrap();
    assert_eq!(
        contract.get_request(id),
        Some(AdvisorRequest {
            id: 0,
            user: "alice.near".to_string(),
            question: "Should I rebalance?".to_string(),
            portfolio_data: "{\"holdings\":[]}".to_string(),
            timestamp: 123,
            status: RequestStatus::Pending,
        })
    );
}

#[test]
fn deposit_below_minimum_is_refused() {
    let mut contract = BlindFoldContract::new(OWNER.to_string());
    assert_eq!(MIN_DEPOSIT, 1);
    assert_eq!(
        contract.ask_advisor(&context("alice.near", 0), "q".to_string(), "{}".to_string()),
        Err(LedgerError::InsufficientDeposit)
    );
    assert_eq!(contract.get_stats(), (0, 0, 0));
    assert!(contract.get_request(0).is_none());
    assert_eq!(ask(&mut contract, "alice.near", "q"), 0);
}

#[test]
fn mark_processing_moves_pending_to_processing_once() {
    let mut contract = BlindFoldContract::new(OWNER.to_string());
    let id = ask(&mut contract, "alice.near", "q");
    assert_eq!(contract.mark_processing(&context(OWNER, 0), id), Ok(()));
    assert_eq!(contract.get_request(id).unwrap().status, RequestStatus::Processing);
    assert_eq!(
        contract.mark_processing(&context(OWNER, 0), id),
        Err(LedgerError::InvalidTransition)
    );
    assert_eq!(contract.get_request(id).unwrap().status, RequestStatus::Processing);
}

#[test]
fn mark_processing_fails_on_completed_request() {
    let mut contract = BlindFoldContract::new(OWNER.to_string());
    let id = ask(&mut contract, "alice.near", "q");
    contract.mark_processing(&context(LEDGER, 0), id).unwrap();
    answer(&mut contract, LEDGER, id).unwrap();
    assert_eq!(
        contract.mark_processing(&context(LEDGER, 0), id),
        Err(LedgerError::InvalidTransition)
    );
    assert_eq!(contract.get_request(id).unwrap().status, RequestStatus::Completed);
}

#[test]
fn only_relay_and_owner_may_advance() {
    let mut contract = BlindFoldContract::new(OWNER.to_string());
    let first = ask(&mut contract, "alice.near", "q");
    let second = ask(&mut contract, "alice.near", "q");
    assert!(!contract.may_act(&context("alice.near", 0)));
    assert!(contract.may_act(&context(OWNER, 0)));
    assert!(contract.may_act(&context(LEDGER, 0)));
    assert_eq!(
        contract.mark_processing(&context("alice.near", 0), first),
        Err(LedgerError::Unauthorized)
    );
    assert_eq!(contract.mark_processing(&context(OWNER, 0), first), Ok(()));
    assert_eq!(contract.mark_processing(&context(LEDGER, 0), second), Ok(()));
    assert_eq!(answer(&mut contract, "alice.near", first), Err(LedgerError::Unauthorized));
    assert_eq!(answer(&mut contract, OWNER, first), Ok(0));
    assert_eq!(answer(&mut contract, LEDGER, second), Ok(1));
}

#[test]
fn unauthorized_comes_before_not_found() {
    let mut contract = BlindFoldContract::new(OWNER.to_string());
    assert_eq!(
        contract.mark_processing(&context("alice.near", 0), 3),
        Err(LedgerError::Unauthorized)
    );
    assert_eq!(answer(&mut contract, "alice.near", 3), Err(LedgerError::Unauthorized));
}

#[test]
fn unknown_request_is_not_found() {
    let mut contract = BlindFoldContract::new(OWNER.to_string());
    ask(&mut contract, "alice.near", "q");
    assert_eq!(contract.mark_processing(&context(OWNER, 0), 1), Err(LedgerError::NotFound));
    assert_eq!(answer(&mut contract, OWNER, 1), Err(LedgerError::NotFound));
    assert_eq!(answer(&mut contract, OWNER, u64::MAX), Err(LedgerError::NotFound));
    assert_eq!(contract.get_stats(), (1, 0, 1));
}

#[test]
fn verification_needs_a_processing_request() {
    let mut contract = BlindFoldContract::new(OWNER.to_string());
    let id = ask(&mut contract, "alice.near", "q");
    assert_eq!(answer(&mut contract, OWNER, id), Err(LedgerError::InvalidTransition));
    assert_eq!(contract.get_request(id).unwrap().status, RequestStatus::Pending);
    assert_eq!(contract.get_stats(), (1, 0, 1));
    assert!(contract.get_verification(0).is_none());
    assert!(contract.get_verification_by_request(id).is_none());

    contract.mark_processing(&context(OWNER, 0), id).unwrap();
    assert_eq!(answer(&mut contract, OWNER, id), Ok(0));
    assert_eq!(answer(&mut contract, OWNER, id), Err(LedgerError::InvalidTransition));
    assert_eq!(contract.get_stats(), (1, 1, 1));
    assert!(contract.get_verification(1).is_none());
}

#[test]
fn verification_completes_the_request() {
    let mut contract = BlindFoldContract::new(OWNER.to_string());
    ask(&mut contract, "bob.near", "first");
    let id = ask(&mut contract, "alice.near", "second");
    contract.mark_processing(&context(OWNER, 0), id).unwrap();
    let ctx = CallContext {
        caller: OWNER.to_string(),
        contract_account: LEDGER.to_string(),
        attached_deposit: 0,
        timestamp: 555,
        block_height: 77,
    };
    let verification_id = contract
        .provide_ai_response(
            &ctx,
            id,
            "Hold.".to_string(),
            "req-hash".to_string(),
            "resp-hash".to_string(),
            "sig".to_string(),
            "0xabc".to_string(),
            "ecdsa".to_string(),
            "attestation".to_string(),
        )
        .unwrap();
    assert_eq!(verification_id, 0);
    assert_eq!(contract.get_request(id).unwrap().status, RequestStatus::Completed);
    assert_eq!(contract.get_request(0).unwrap().status, RequestStatus::Pending);
    let expected = Verification {
        id: 0,
        request_id: 1,
        user: "alice.near".to_string(),
        request_hash: "req-hash".to_string(),
        response_hash: "resp-hash".to_string(),
        signature: "sig".to_string(),
        signing_address: "0xabc".to_string(),
        signing_algo: "ecdsa".to_string(),
        tee_attestation: "attestation".to_string(),
        response_text: "Hold.".to_string(),
        timestamp: 555,
        block_height: 77,
    };
    assert_eq!(contract.get_verification_by_request(id), Some(expected.clone()));
    assert_eq!(contract.get_verification(verification_id), Some(expected));
    assert!(contract.get_verification_by_request(0).is_none());
}

#[test]
fn stats_count_requests_and_verifications() {
    let mut contract = BlindFoldContract::new(OWNER.to_string());
    for _ in 0..4 {
        ask(&mut contract, "alice.near", "q");
    }
    for id in [2u64, 0u64] {
        contract.mark_processing(&context(OWNER, 0), id).unwrap();
        answer(&mut contract, OWNER, id).unwrap();
    }
    assert_eq!(contract.get_stats(), (4, 2, 4));
    assert_eq!(contract.get_verification_by_request(2).unwrap().id, 0);
    assert_eq!(contract.get_verification_by_request(0).unwrap().id, 1);
}

#[test]
fn pending_requests_come_oldest_first() {
    let mut contract = BlindFoldContract::new(OWNER.to_string());
    for question in ["a", "b", "c", "d"] {
        ask(&mut contract, "alice.near", question);
    }
    contract.mark_processing(&context(OWNER, 0), 1).unwrap();
    contract.mark_processing(&context(OWNER, 0), 3).unwrap();
    answer(&mut contract, OWNER, 3).unwrap();
    let pending: Vec<u64> = contract.get_pending_requests().iter().map(|r| r.id).collect();
    assert_eq!(pending, vec![0, 2]);
    let questions: Vec<String> =
        contract.get_pending_requests().into_iter().map(|r| r.question).collect();
    assert_eq!(questions, vec!["a".to_string(), "c".to_string()]);
}

#[test]
fn records_are_listed_by_user() {
    let mut contract = BlindFoldContract::new(OWNER.to_string());
    ask(&mut contract, "alice.near", "a0");
    ask(&mut contract, "bob.near", "b0");
    ask(&mut contract, "alice.near", "a1");
    for id in [2u64, 1u64, 0u64] {
        contract.mark_processing(&context(OWNER, 0), id).unwrap();
        answer(&mut contract, OWNER, id).unwrap();
    }
    let alice: Vec<u64> =
        contract.get_user_requests("alice.near".to_string()).iter().map(|r| r.id).collect();
    assert_eq!(alice, vec![0, 2]);
    let bob: Vec<u64> =
        contract.get_user_requests("bob.near".to_string()).iter().map(|r| r.id).collect();
    assert_eq!(bob, vec![1]);
    assert!(contract.get_user_requests("carol.near".to_string()).is_empty());
    let verified: Vec<(u64, u64)> = contract
        .get_user_verifications("alice.near".to_string())
        .iter()
        .map(|v| (v.id, v.request_id))
        .collect();
    assert_eq!(verified, vec![(0, 2), (2, 0)]);
    assert!(contract.get_user_verifications(OWNER.to_string()).is_empty());
}

#[test]
fn status_steps_are_in_order() {
    assert_eq!(RequestStatus::Pending.next(), Some(RequestStatus::Processing));
    assert_eq!(RequestStatus::Processing.next(), Some(RequestStatus::Completed));
    assert_eq!(RequestStatus::Completed.next(), None);
    assert_eq!(RequestStatus::Failed.next(), None);
    assert!(!RequestStatus::Pending.terminal());
    assert!(!RequestStatus::Processing.terminal());
    assert!(RequestStatus::Completed.terminal());
    assert!(RequestStatus::Failed.terminal());
}

#[test]
fn ledger_is_restored_from_its_parts() {
    let mut contract = BlindFoldContract::new(OWNER.to_string());
    ask(&mut contract, "alice.near", "a0");
    ask(&mut contract, "bob.near", "b0");
    contract.mark_processing(&context(OWNER, 0), 1).unwrap();
    answer(&mut contract, OWNER, 1).unwrap();
    let restored = BlindFoldContract::from_parts(
        contract.owner().clone(),
        contract.requests().clone(),
        contract.verifications().clone(),
    )
    .unwrap();
    assert_eq!(restored.get_stats(), (2, 1, 2));
    assert_eq!(restored.owner(), OWNER);
    assert_eq!(restored.requests(), contract.requests());
    assert_eq!(restored.verifications(), contract.verifications());
}

#[test]
fn inconsistent_parts_are_refused() {
    let mut contract = BlindFoldContract::new(OWNER.to_string());
    ask(&mut contract, "alice.near", "a0");
    ask(&mut contract, "bob.near", "b0");
    contract.mark_processing(&context(OWNER, 0), 1).unwrap();
    answer(&mut contract, OWNER, 1).unwrap();
    let requests = contract.requests().clone();
    let verifications = contract.verifications().clone();

    let mut misnumbered = requests.clone();
    misnumbered[1].id = 5;
    assert!(BlindFoldContract::from_parts(OWNER.to_string(), misnumbered, Vec::new()).is_none());

    let mut reopened = requests.clone();
    reopened[1].status = RequestStatus::Processing;
    assert!(
        BlindFoldContract::from_parts(OWNER.to_string(), reopened, verifications.clone()).is_none()
    );

    let mut dangling = verifications.clone();
    dangling[0].request_id = 2;
    assert!(BlindFoldContract::from_parts(OWNER.to_string(), requests.clone(), dangling).is_none());

    let mut renamed = verifications.clone();
    renamed[0].user = "alice.near".to_string();
    assert!(BlindFoldContract::from_parts(OWNER.to_string(), requests.clone(), renamed).is_none());

    let mut renumbered = verifications.clone();
    renumbered[0].id = 1;
    assert!(
        BlindFoldContract::from_parts(OWNER.to_string(), requests.clone(), renumbered).is_none()
    );

    let mut unanswered = requests.clone();
    unanswered[0].status = RequestStatus::Completed;
    assert!(
        BlindFoldContract::from_parts(OWNER.to_string(), unanswered, verifications.clone())
            .is_none()
    );
    assert!(
        BlindFoldContract::from_parts(OWNER.to_string(), requests.clone(), Vec::new()).is_none()
    );

    let mut twice = verifications.clone();
    twice.push(Verification { id: 1, ..verifications[0].clone() });
    assert!(BlindFoldContract::from_parts(OWNER.to_string(), requests.clone(), twice).is_some());

    let mut failed = requests.clone();
    failed[0].status = RequestStatus::Failed;
    assert!(BlindFoldContract::from_parts(OWNER.to_string(), failed, verifications).is_some());
}

#[test]
fn errors_describe_themselves() {
    assert_eq!(LedgerError::NotFound.message(), "Request not found");
    assert_eq!(LedgerError::Unauthorized.message(), "Only relayer can provide responses");
    assert_ne!(LedgerError::InvalidTransition.message(), LedgerError::NotFound.message());
    assert!(!LedgerError::InsufficientDeposit.message().is_empty());
    assert!(!LedgerError::AlreadyInitialized.message().is_empty());
}
