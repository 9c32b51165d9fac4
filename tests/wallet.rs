use multisig::account::AccountId;
use multisig::types::{
    Approve, Error, Event, LangError, OwnerAdded, OwnerRemoved, Reject, ThresholdChanged, Transaction,
    TransactionCancelled, TransactionExecuted, TransactionRemoved, Transfer, TxResult, Vote,
};
use multisig::wallet::{ensure_creation_params, tx_result, MultiSig, TxEntry, MAX_OWNERS, MAX_TRANSACTIONS};

fn acc(n: u8) -> AccountId {
    AccountId([n; 32])
}

const THIS: u8 = 200;

fn call_to(target: AccountId, allow_reentry: bool) -> Transaction {
    Transaction {
        address: target,
        selector: [1, 2, 3, 4],
        input: vec![9, 8, 7],
        transferred_value: 5,
        gas_limit: 1000,
        allow_reentry,
    }
}

fn three_owner_wallet() -> MultiSig {
    MultiSig::new(2, vec![acc(1), acc(2), acc(3)]).unwrap()
}

#[test]
fn happy_path_works() {
    let owners_list = vec![acc(1), acc(2), acc(3)];
    let wallet = MultiSig::new(2, owners_list.clone()).expect("instantiate failed");
    assert_eq!(wallet.get_threshold(), 2);
    assert_eq!(wallet.get_owners(), owners_list);
}

#[test]
fn new_sorts_and_deduplicates_owners() {
    let wallet = MultiSig::new(2, vec![acc(3), acc(1), acc(3), acc(2), acc(1)]).unwrap();
    assert_eq!(wallet.get_owners(), vec![acc(1), acc(2), acc(3)]);
    assert_eq!(wallet.get_next_tx_id(), 0);
    assert!(wallet.get_active_txid_list().is_empty());
}

#[test]
fn new_orders_owners_by_first_differing_byte() {
    let mut low = [5u8; 32];
    low[31] = 0;
    let mut high = [5u8; 32];
    high[0] = 6;
    let wallet = MultiSig::new(1, vec![AccountId(high), AccountId([5; 32]), AccountId(low)]).unwrap();
    assert_eq!(wallet.get_owners(), vec![AccountId(low), AccountId([5; 32]), AccountId(high)]);
}

#[test]
fn new_counts_distinct_owners_for_threshold() {
    assert_eq!(MultiSig::new(3, vec![acc(1), acc(1), acc(2)]).err(), Some(Error::ThresholdGreaterThanOwners));
    assert!(MultiSig::new(2, vec![acc(1), acc(1), acc(2)]).is_ok());
}

#[test]
fn new_rejects_bad_parameters() {
    assert_eq!(MultiSig::new(1, vec![]).err(), Some(Error::OwnersCantBeEmpty));
    assert_eq!(MultiSig::new(0, vec![]).err(), Some(Error::OwnersCantBeEmpty));
    assert_eq!(MultiSig::new(4, vec![acc(1), acc(2), acc(3)]).err(), Some(Error::ThresholdGreaterThanOwners));
    assert_eq!(MultiSig::new(0, vec![acc(1)]).err(), Some(Error::ThresholdCantBeZero));
}

#[test]
fn creation_params_checked_in_order() {
    assert_eq!(ensure_creation_params(0, &vec![]), Err(Error::OwnersCantBeEmpty));
    assert_eq!(ensure_creation_params(2, &vec![acc(1)]), Err(Error::ThresholdGreaterThanOwners));
    assert_eq!(ensure_creation_params(0, &vec![acc(1)]), Err(Error::ThresholdCantBeZero));
    assert_eq!(ensure_creation_params(1, &vec![acc(1)]), Ok(()));
}

#[test]
fn default_has_caller_as_single_owner() {
    let wallet = MultiSig::default(acc(7)).unwrap();
    assert_eq!(wallet.get_owners(), vec![acc(7)]);
    assert_eq!(wallet.get_threshold(), 1);
    assert!(wallet.is_owner(acc(7)));
    assert!(!wallet.is_owner(acc(8)));
}

#[test]
fn two_of_three_executes_on_second_approval() {
    let mut wallet = three_owner_wallet();
    let mut events = Vec::new();
    let tx = call_to(acc(50), false);
    assert_eq!(wallet.propose_tx(acc(1), tx.clone(), &mut events), Ok(None));
    assert_eq!(wallet.get_tx_approvals(0), Some(1));
    assert_eq!(wallet.get_tx_rejections(0), Some(0));
    assert_eq!(wallet.get_active_txid_list(), vec![0]);
    assert_eq!(wallet.get_tx(0), Some(tx.clone()));
    assert_eq!(wallet.get_tx_approval_for_account(0, acc(1)), Some(true));

    assert_eq!(wallet.approve_tx(acc(2), 0, &mut events), Ok(Some(0)));
    assert_eq!(wallet.get_tx_approvals(0), Some(2));
    assert!(!wallet.needs_reload(0, acc(THIS)));
    wallet.finish_execution(0, acc(THIS), Ok(Ok(vec![42])), None, &mut events);
    assert!(wallet.get_active_txid_list().is_empty());
    assert_eq!(wallet.is_tx_valid(0), Err(Error::InvalidTxId));
    assert_eq!(wallet.approve_tx(acc(3), 0, &mut events), Err(Error::InvalidTxId));
    assert_eq!(wallet.reject_tx(acc(3), 0, &mut events), Err(Error::InvalidTxId));

    match &events[0] {
        Event::TransactionProposed(p) => {
            assert_eq!(p.tx_id, 0);
            assert_eq!(p.contract_address, acc(50));
            assert_eq!(p.selector, [1, 2, 3, 4]);
            assert_eq!(p.input, vec![9, 8, 7]);
            assert_eq!(p.transferred_value, 5);
            assert_eq!(p.gas_limit, 1000);
            assert!(!p.allow_reentry);
        },
        other => panic!("unexpected event {:?}", other),
    }
    assert_eq!(
        events[1..].to_vec(),
        vec![
            Event::Approve(Approve { tx_id: 0, owner: acc(2) }),
            Event::TransactionExecuted(TransactionExecuted { tx_id: 0, result: TxResult::Success(vec![42]) }),
            Event::TransactionRemoved(TransactionRemoved { tx_id: 0 }),
        ]
    );
}

#[test]
fn single_owner_executes_on_proposal() {
    let mut wallet = MultiSig::new(1, vec![acc(1)]).unwrap();
    let mut events = Vec::new();
    assert_eq!(wallet.propose_tx(acc(1), call_to(acc(50), false), &mut events), Ok(Some(0)));
    wallet.finish_execution(0, acc(THIS), Ok(Ok(vec![])), None, &mut events);
    assert!(wallet.get_active_txid_list().is_empty());
    assert_eq!(wallet.get_next_tx_id(), 1);
}

#[test]
fn rejections_cancel_when_threshold_unreachable() {
    let mut wallet = three_owner_wallet();
    let mut events = Vec::new();
    assert_eq!(wallet.propose_tx(acc(1), call_to(acc(50), false), &mut events), Ok(None));
    events.clear();
    assert_eq!(wallet.reject_tx(acc(3), 0, &mut events), Ok(()));
    assert_eq!(wallet.get_tx_rejections(0), Some(1));
    assert_eq!(wallet.get_active_txid_list(), vec![0]);
    assert_eq!(wallet.get_tx_approval_for_account(0, acc(3)), Some(false));
    assert_eq!(wallet.reject_tx(acc(2), 0, &mut events), Ok(()));
    assert!(wallet.get_active_txid_list().is_empty());
    assert_eq!(wallet.get_tx_rejections(0), None);
    assert_eq!(
        events,
        vec![
            Event::Reject(Reject { tx_id: 0, owner: acc(3) }),
            Event::Reject(Reject { tx_id: 0, owner: acc(2) }),
            Event::TransactionCancelled(TransactionCancelled { tx_id: 0 }),
            Event::TransactionRemoved(TransactionRemoved { tx_id: 0 }),
        ]
    );
}

#[test]
fn add_owner_at_capacity_fails() {
    let owners: Vec<AccountId> = (1..=10).map(acc).collect();
    let mut wallet = MultiSig::new(1, owners).unwrap();
    let mut events = Vec::new();
    assert_eq!(wallet.add_owner(acc(THIS), acc(THIS), acc(11), &mut events), Err(Error::MaxOwnersReached));
    assert_eq!(wallet.get_owners().len(), MAX_OWNERS);
    assert!(!wallet.is_owner(acc(11)));
    assert!(events.is_empty());
}

#[test]
fn non_owner_cannot_approve() {
    let mut wallet = three_owner_wallet();
    let mut events = Vec::new();
    wallet.propose_tx(acc(1), call_to(acc(50), false), &mut events).unwrap();
    events.clear();
    assert_eq!(wallet.approve_tx(acc(9), 0, &mut events), Err(Error::NotOwner));
    assert_eq!(wallet.get_tx_approvals(0), Some(1));
    assert_eq!(wallet.get_tx_rejections(0), Some(0));
    assert_eq!(wallet.get_tx_approval_for_account(0, acc(9)), None);
    assert!(events.is_empty());
}

/// Replays the steps that lead to a pending self-call in a second wallet, standing for the
/// copy in storage that the callback changes.
fn pending_self_call(allow_reentry: bool) -> (MultiSig, MultiSig) {
    let mut outer = three_owner_wallet();
    let mut stored = three_owner_wallet();
    let mut events = Vec::new();
    for wallet in [&mut outer, &mut stored] {
        wallet.propose_tx(acc(1), call_to(acc(THIS), allow_reentry), &mut events).unwrap();
        assert_eq!(wallet.approve_tx(acc(2), 0, &mut events), Ok(Some(0)));
    }
    assert_eq!(stored.add_owner(acc(THIS), acc(THIS), acc(4), &mut events), Ok(()));
    (outer, stored)
}

#[test]
fn reentrant_self_call_reloads_state() {
    let (mut outer, stored) = pending_self_call(true);
    assert!(outer.needs_reload(0, acc(THIS)));
    let mut events = Vec::new();
    outer.finish_execution(0, acc(THIS), Ok(Ok(vec![])), Some(stored), &mut events);
    assert_eq!(outer.get_owners(), vec![acc(1), acc(2), acc(3), acc(4)]);
    assert!(outer.get_active_txid_list().is_empty());
}

#[test]
fn no_reload_without_reentry() {
    let (mut outer, stored) = pending_self_call(false);
    assert!(!outer.needs_reload(0, acc(THIS)));
    let mut events = Vec::new();
    outer.finish_execution(0, acc(THIS), Ok(Ok(vec![])), Some(stored), &mut events);
    assert_eq!(outer.get_owners(), vec![acc(1), acc(2), acc(3)]);
    assert!(outer.get_active_txid_list().is_empty());
}

#[test]
fn no_reload_for_other_target() {
    let mut wallet = MultiSig::new(1, vec![acc(1)]).unwrap();
    let mut events = Vec::new();
    wallet.propose_tx(acc(1), call_to(acc(50), true), &mut events).unwrap();
    assert!(!wallet.needs_reload(0, acc(THIS)));
    assert!(!wallet.needs_reload(7, acc(THIS)));
}

#[test]
fn execution_outcomes_are_classified() {
    assert_eq!(tx_result(Ok(Ok(vec![1, 2]))), TxResult::Success(vec![1, 2]));
    assert_eq!(
        tx_result(Ok(Err(LangError::CouldNotReadInput))),
        TxResult::Failed(Error::LangExecutionFailed(LangError::CouldNotReadInput))
    );
    assert_eq!(
        tx_result(Err("CalleeTrapped".to_string())),
        TxResult::Failed(Error::EnvExecutionFailed("CalleeTrapped".to_string()))
    );
}

#[test]
fn failed_execution_still_removes_transaction() {
    let mut wallet = MultiSig::new(1, vec![acc(1)]).unwrap();
    let mut events = Vec::new();
    wallet.propose_tx(acc(1), call_to(acc(50), false), &mut events).unwrap();
    events.clear();
    wallet.finish_execution(0, acc(THIS), Err("CalleeReverted".to_string()), None, &mut events);
    assert!(wallet.get_active_txid_list().is_empty());
    assert_eq!(
        events,
        vec![
            Event::TransactionExecuted(TransactionExecuted {
                tx_id: 0,
                result: TxResult::Failed(Error::EnvExecutionFailed("CalleeReverted".to_string())),
            }),
            Event::TransactionRemoved(TransactionRemoved { tx_id: 0 }),
        ]
    );
}

#[test]
fn second_vote_is_refused_either_way() {
    let mut wallet = MultiSig::new(3, vec![acc(1), acc(2), acc(3)]).unwrap();
    let mut events = Vec::new();
    wallet.propose_tx(acc(1), call_to(acc(50), false), &mut events).unwrap();
    assert_eq!(wallet.approve_tx(acc(1), 0, &mut events), Err(Error::AlreadyVoted));
    assert_eq!(wallet.reject_tx(acc(1), 0, &mut events), Err(Error::AlreadyVoted));
    assert_eq!(wallet.approve_tx(acc(2), 0, &mut events), Ok(None));
    assert_eq!(wallet.approve_tx(acc(2), 0, &mut events), Err(Error::AlreadyVoted));
    assert_eq!(wallet.reject_tx(acc(2), 0, &mut events), Err(Error::AlreadyVoted));
    assert_eq!(wallet.get_tx_approvals(0), Some(2));
    assert_eq!(wallet.get_tx_rejections(0), Some(0));
    assert_eq!(wallet.get_tx_approval_for_account(0, acc(2)), Some(true));
}

#[test]
fn removed_id_is_never_reused() {
    let mut wallet = three_owner_wallet();
    let mut events = Vec::new();
    wallet.propose_tx(acc(1), call_to(acc(50), false), &mut events).unwrap();
    wallet.reject_tx(acc(2), 0, &mut events).unwrap();
    wallet.reject_tx(acc(3), 0, &mut events).unwrap();
    assert_eq!(wallet.is_tx_valid(0), Err(Error::InvalidTxId));
    assert_eq!(wallet.get_tx_approvals(0), None);
    assert_eq!(wallet.get_tx_approval_for_account(0, acc(2)), None);
    assert_eq!(wallet.get_tx(0), None);
    wallet.propose_tx(acc(1), call_to(acc(50), false), &mut events).unwrap();
    assert_eq!(wallet.get_active_txid_list(), vec![1]);
    assert_eq!(wallet.get_tx_approval_for_account(1, acc(2)), None);
}

#[test]
fn transaction_capacity_is_enforced() {
    let mut wallet = three_owner_wallet();
    let mut events = Vec::new();
    for _ in 0..MAX_TRANSACTIONS {
        assert_eq!(wallet.propose_tx(acc(1), call_to(acc(50), false), &mut events), Ok(None));
    }
    assert_eq!(
        wallet.propose_tx(acc(1), call_to(acc(50), false), &mut events),
        Err(Error::MaxTransactionsReached)
    );
    assert_eq!(wallet.get_active_txid_list(), (0..10).collect::<Vec<u128>>());
}

#[test]
fn proposal_by_non_owner_is_refused() {
    let mut wallet = three_owner_wallet();
    let mut events = Vec::new();
    assert_eq!(wallet.propose_tx(acc(9), call_to(acc(50), false), &mut events), Err(Error::NotOwner));
    assert_eq!(wallet.get_next_tx_id(), 0);
}

#[test]
fn tx_id_counter_overflow_is_refused() {
    let mut wallet = MultiSig { owners_list: vec![acc(1)], threshold: 1, next_tx_id: u128::MAX, txs: Vec::new() };
    let mut events = Vec::new();
    assert_eq!(wallet.propose_tx(acc(1), call_to(acc(50), false), &mut events), Err(Error::TxIdOverflow));
    assert_eq!(wallet.get_next_tx_id(), u128::MAX);
    assert!(events.is_empty());
}

#[test]
fn try_execute_and_try_remove() {
    let mut wallet = three_owner_wallet();
    let mut events = Vec::new();
    assert_eq!(wallet.try_execute_tx(0), Err(Error::InvalidTxId));
    assert_eq!(wallet.try_remove_tx(0, &mut events), Err(Error::InvalidTxId));
    wallet.propose_tx(acc(1), call_to(acc(50), false), &mut events).unwrap();
    assert_eq!(wallet.try_execute_tx(0), Ok(None));
    assert_eq!(wallet.try_remove_tx(0, &mut events), Ok(()));
    assert_eq!(wallet.get_active_txid_list(), vec![0]);
    wallet.reject_tx(acc(2), 0, &mut events).unwrap();
    assert_eq!(wallet.get_active_txid_list(), vec![0]);
    // The threshold rises to 3: 1 rejection > 3 owners - 3 threshold.
    wallet.change_threshold(acc(THIS), acc(THIS), 3, &mut events).unwrap();
    events.clear();
    assert_eq!(wallet.try_remove_tx(0, &mut events), Ok(()));
    assert!(wallet.get_active_txid_list().is_empty());
    assert_eq!(
        events,
        vec![
            Event::TransactionCancelled(TransactionCancelled { tx_id: 0 }),
            Event::TransactionRemoved(TransactionRemoved { tx_id: 0 }),
        ]
    );
}

#[test]
fn try_execute_sees_lowered_threshold() {
    let mut wallet = three_owner_wallet();
    let mut events = Vec::new();
    wallet.propose_tx(acc(1), call_to(acc(50), false), &mut events).unwrap();
    wallet.change_threshold(acc(THIS), acc(THIS), 1, &mut events).unwrap();
    assert_eq!(wallet.try_execute_tx(0), Ok(Some(0)));
}

#[test]
fn governance_requires_self_call() {
    let mut wallet = three_owner_wallet();
    let mut events = Vec::new();
    assert_eq!(wallet.add_owner(acc(1), acc(THIS), acc(4), &mut events), Err(Error::Unauthorized));
    assert_eq!(wallet.remove_owner(acc(1), acc(THIS), acc(3), &mut events), Err(Error::Unauthorized));
    assert_eq!(wallet.change_threshold(acc(1), acc(THIS), 1, &mut events), Err(Error::Unauthorized));
    assert_eq!(wallet.transfer(acc(1), acc(THIS), acc(4), 10), Err(Error::Unauthorized));
    assert!(events.is_empty());
}

#[test]
fn add_and_remove_owners() {
    let mut wallet = three_owner_wallet();
    let mut events = Vec::new();
    let me = acc(THIS);
    assert_eq!(wallet.add_owner(me, me, acc(2), &mut events), Err(Error::OwnerAlreadyExists));
    assert_eq!(wallet.add_owner(me, me, acc(9), &mut events), Ok(()));
    assert_eq!(wallet.get_owners(), vec![acc(1), acc(2), acc(3), acc(9)]);
    assert_eq!(wallet.remove_owner(me, me, acc(5), &mut events), Err(Error::NotOwner));
    assert_eq!(wallet.remove_owner(me, me, acc(2), &mut events), Ok(()));
    assert_eq!(wallet.get_owners(), vec![acc(1), acc(3), acc(9)]);
    assert!(!wallet.is_owner(acc(2)));
    assert_eq!(
        events,
        vec![
            Event::OwnerAdded(OwnerAdded { owner: acc(9) }),
            Event::OwnerRemoved(OwnerRemoved { owner: acc(2) }),
        ]
    );
}

#[test]
fn remove_owner_keeps_threshold_satisfiable() {
    let mut wallet = MultiSig::new(2, vec![acc(1), acc(2)]).unwrap();
    let mut events = Vec::new();
    let me = acc(THIS);
    assert_eq!(wallet.remove_owner(me, me, acc(1), &mut events), Err(Error::ThresholdGreaterThanOwners));
    let mut single = MultiSig::new(1, vec![acc(1)]).unwrap();
    assert_eq!(single.remove_owner(me, me, acc(1), &mut events), Err(Error::OwnersCantBeEmpty));
    assert!(events.is_empty());
}

#[test]
fn change_threshold_bounds() {
    let mut wallet = three_owner_wallet();
    let mut events = Vec::new();
    let me = acc(THIS);
    assert_eq!(wallet.change_threshold(me, me, 4, &mut events), Err(Error::ThresholdGreaterThanOwners));
    assert_eq!(wallet.change_threshold(me, me, 0, &mut events), Err(Error::ThresholdCantBeZero));
    assert_eq!(wallet.change_threshold(me, me, 3, &mut events), Ok(()));
    assert_eq!(wallet.get_threshold(), 3);
    assert_eq!(events, vec![Event::ThresholdChanged(ThresholdChanged { threshold: 3 })]);
}

#[test]
fn rejection_uses_live_owner_count() {
    let mut wallet = MultiSig::new(2, vec![acc(1), acc(2), acc(3), acc(4)]).unwrap();
    let mut events = Vec::new();
    wallet.propose_tx(acc(1), call_to(acc(50), false), &mut events).unwrap();
    wallet.reject_tx(acc(2), 0, &mut events).unwrap();
    assert_eq!(wallet.get_active_txid_list(), vec![0]);
    wallet.remove_owner(acc(THIS), acc(THIS), acc(4), &mut events).unwrap();
    // 2 rejections > 3 owners - 2 threshold.
    wallet.reject_tx(acc(3), 0, &mut events).unwrap();
    assert!(wallet.get_active_txid_list().is_empty());
}

#[test]
fn transfer_flow() {
    let wallet = three_owner_wallet();
    let mut events = Vec::new();
    let request = wallet.transfer(acc(THIS), acc(THIS), acc(4), 10).unwrap();
    assert_eq!(request, Transfer { to: acc(4), value: 10 });
    assert_eq!(MultiSig::record_transfer(request, false, &mut events), Err(Error::TransferFailed));
    assert!(events.is_empty());
    assert_eq!(MultiSig::record_transfer(request, true, &mut events), Ok(()));
    assert_eq!(events, vec![Event::Transfer(Transfer { to: acc(4), value: 10 })]);
}

#[test]
fn new_refuses_more_than_max_owners() {
    let eleven: Vec<AccountId> = (1..=11).map(acc).collect();
    assert_eq!(MultiSig::new(1, eleven.clone()).err(), Some(Error::MaxOwnersReached));
    assert_eq!(ensure_creation_params(1, &eleven), Ok(()));
    // Repeats count once: ten distinct owners are accepted.
    let mut repeated: Vec<AccountId> = (1..=10).map(acc).collect();
    repeated.push(acc(10));
    assert_eq!(MultiSig::new(1, repeated).unwrap().get_owners().len(), MAX_OWNERS);
    // The owner cap is checked after the threshold.
    assert_eq!(MultiSig::new(12, eleven.clone()).err(), Some(Error::ThresholdGreaterThanOwners));
    assert_eq!(MultiSig::new(0, eleven).err(), Some(Error::ThresholdCantBeZero));
}

fn wallet_with_full_approvals() -> MultiSig {
    let votes: Vec<Vote> = (0..=254u8).map(|n| Vote { owner: acc(n), approved: true }).collect();
    MultiSig {
        owners_list: vec![acc(255)],
        threshold: 1,
        next_tx_id: 1,
        txs: vec![TxEntry { id: 0, tx: call_to(acc(50), false), approvals: 255, rejections: 0, votes }],
    }
}

#[test]
fn full_approval_counter_refuses_the_vote() {
    let mut wallet = wallet_with_full_approvals();
    assert!(wallet.is_well_formed());
    let mut events = Vec::new();
    assert_eq!(wallet.approve_tx(acc(255), 0, &mut events), Err(Error::ApprovalsOverflow));
    assert_eq!(wallet.get_tx_approvals(0), Some(255));
    assert_eq!(wallet.get_tx_approval_for_account(0, acc(255)), None);
    assert!(events.is_empty());
}

#[test]
fn well_formedness_check() {
    assert!(three_owner_wallet().is_well_formed());
    let eleven = MultiSig { owners_list: (1..=11).map(acc).collect(), threshold: 1, next_tx_id: 0, txs: Vec::new() };
    assert!(!eleven.is_well_formed());
    let mut miscounted = wallet_with_full_approvals();
    miscounted.txs[0].approvals = 254;
    assert!(!miscounted.is_well_formed());
    let mut stale_id = wallet_with_full_approvals();
    stale_id.next_tx_id = 0;
    assert!(!stale_id.is_well_formed());
    let mut twice = three_owner_wallet();
    twice.owners_list.push(acc(1));
    assert!(!twice.is_well_formed());
}

#[test]
fn rejection_within_reach_counts_one_more() {
    let mut wallet = MultiSig::new(2, vec![acc(1), acc(2), acc(3), acc(4)]).unwrap();
    let mut events = Vec::new();
    wallet.propose_tx(acc(1), call_to(acc(50), false), &mut events).unwrap();
    assert_eq!(wallet.reject_tx(acc(2), 0, &mut events), Ok(()));
    assert_eq!(wallet.reject_tx(acc(3), 0, &mut events), Ok(()));
    assert_eq!(wallet.get_tx_rejections(0), Some(2));
    assert_eq!(wallet.get_tx_approvals(0), Some(1));
    assert_eq!(wallet.get_tx(0), Some(call_to(acc(50), false)));
    // A third rejection leaves only one possible approver for a threshold of two.
    assert_eq!(wallet.reject_tx(acc(4), 0, &mut events), Ok(()));
    assert_eq!(wallet.get_tx(0), None);
}
