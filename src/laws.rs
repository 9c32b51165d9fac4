use vstd::prelude::*;

use crate::account::AccountId;
use crate::types::{Error, Transaction, TxId};
use crate::wallet::{
    count_votes, lemma_with_proposal, lemma_with_vote, lemma_without_tx, one_vote_each, reload_needed,
    tally_matches, MultiSigView, MAX_OWNERS, MAX_TRANSACTIONS,
};

verus! {

/// The invariant bounds the wallet: a threshold between one and the number of owners, at
/// most `MAX_OWNERS` owners and at most `MAX_TRANSACTIONS` pending transactions; and every
/// state change the wallet allows keeps the invariant.
pub proof fn law_invariant_kept(
    v: MultiSigView,
    caller: AccountId,
    this: AccountId,
    id: TxId,
    tx: Transaction,
    owner: AccountId,
    t: u8,
    reloaded: Option<MultiSigView>,
)
    requires
        v.wf(),
        reloaded matches Some(s) ==> s.wf(),
    ensures
        1 <= v.threshold <= v.owners.len() <= MAX_OWNERS,
        v.txs.len() <= MAX_TRANSACTIONS,
        v.propose_error(caller) is None ==> v.with_proposal(caller, tx).wf(),
        v.approve_error(caller, id) is None ==> v.with_vote(caller, id, true).wf(),
        v.vote_error(caller, id) is None ==> v.after_rejection(caller, id).wf(),
        v.without_tx(id).wf(),
        v.after_execution(id, reloaded).wf(),
        v.add_owner_error(caller, this, owner) is None ==> (MultiSigView {
            owners: v.owners.push(owner),
            ..v
        }).wf(),
        v.remove_owner_error(caller, this, owner) is None ==> (MultiSigView {
            owners: v.owners.remove(v.owners.index_of(owner)),
            ..v
        }).wf(),
        v.change_threshold_error(caller, this, t) is None ==> (MultiSigView { threshold: t, ..v }).wf(),
{
    if v.propose_error(caller) is None {
        lemma_with_proposal(v, caller, tx);
    }
    if v.approve_error(caller, id) is None {
        lemma_with_vote(v, caller, id, true);
    }
    if v.vote_error(caller, id) is None && !v.rejection_cancels(id) {
        lemma_with_vote(v, caller, id, false);
    }
    lemma_without_tx(v, id);
    if let Some(s) = reloaded {
        lemma_without_tx(s, id);
    }
    if v.add_owner_error(caller, this, owner) is None {
        let w = MultiSigView { owners: v.owners.push(owner), ..v };
        assert forall|i: int, j: int| 0 <= i < w.owners.len() && 0 <= j < w.owners.len() && i != j
            implies w.owners[i] != w.owners[j] by {
            if i == v.owners.len() as int {
                assert(v.owners[j] != owner);
            } else if j == v.owners.len() as int {
                assert(v.owners[i] != owner);
            }
        }
    }
    if v.remove_owner_error(caller, this, owner) is None {
        let k = v.owners.index_of(owner);
        v.owners.index_of_first_ensures(owner);
        let w = MultiSigView { owners: v.owners.remove(k), ..v };
        assert forall|i: int, j: int| 0 <= i < w.owners.len() && 0 <= j < w.owners.len() && i != j
            implies w.owners[i] != w.owners[j] by {
            let i2 = if i < k { i } else { i + 1 };
            let j2 = if j < k { j } else { j + 1 };
            assert(v.owners[i2] != v.owners[j2]);
        }
    }
}

/// For a pending transaction, an owner has at most one vote record, and the two counters are
/// the numbers of approving and rejecting records; once a vote is counted, the voter has
/// exactly that one record.
pub proof fn law_one_vote_record_per_owner(v: MultiSigView, id: TxId, owner: AccountId, approved: bool)
    requires
        v.wf(),
        v.has_tx(id),
    ensures
        forall|a: int, b: int|
            0 <= a < v.entry(id).votes.len() && 0 <= b < v.entry(id).votes.len()
                && #[trigger] v.entry(id).votes[a].owner == owner && #[trigger] v.entry(id).votes[b].owner
                == owner ==> a == b,
        v.entry(id).approvals == count_votes(v.entry(id).votes, true),
        v.entry(id).rejections == count_votes(v.entry(id).votes, false),
        (if approved {
            v.approve_error(owner, id) is None
        } else {
            v.vote_error(owner, id) is None && !v.rejection_cancels(id)
        }) ==> {
            let w = v.with_vote(owner, id, approved);
            &&& w.vote_of(id, owner) == Some(approved)
            &&& exists|k: int|
                0 <= k < w.entry(id).votes.len() && #[trigger] w.entry(id).votes[k].owner == owner
            &&& forall|a: int, b: int|
                0 <= a < w.entry(id).votes.len() && 0 <= b < w.entry(id).votes.len()
                    && #[trigger] w.entry(id).votes[a].owner == owner && #[trigger] w.entry(id).votes[b].owner
                    == owner ==> a == b
        },
{
    let k = v.index_of(id);
    assert(one_vote_each(v.txs[k].votes));
    assert(tally_matches(v.txs[k]));
    if (if approved {
        v.approve_error(owner, id) is None
    } else {
        v.vote_error(owner, id) is None && !v.rejection_cancels(id)
    }) {
        lemma_with_vote(v, owner, id, approved);
        let w = v.with_vote(owner, id, approved);
        assert(one_vote_each(w.txs[k].votes));
        let votes = w.entry(id).votes;
        assert(votes[votes.len() - 1].owner == owner);
    }
}

/// Removing a transaction clears its record, both counters and every vote on it; the id is
/// then invalid and, lying below the id counter, is never handed out again.
pub proof fn law_removal_clears(v: MultiSigView, id: TxId, owner: AccountId)
    requires
        v.wf(),
    ensures
        !v.without_tx(id).has_tx(id),
        v.without_tx(id).approvals_of(id) is None,
        v.without_tx(id).rejections_of(id) is None,
        v.without_tx(id).vote_of(id, owner) is None,
        v.without_tx(id).without_tx(id) == v.without_tx(id),
        v.has_tx(id) ==> id < v.without_tx(id).next_tx_id,
        v.without_tx(id).next_tx_id == v.next_tx_id,
{
    lemma_without_tx(v, id);
}

/// An approval that brings a transaction to its threshold makes it due for execution, and
/// settling that execution removes it. A rejection that makes the threshold unreachable
/// removes it without execution; one that leaves it reachable counts one more rejection and
/// changes nothing else about it.
pub proof fn law_quorum(v: MultiSigView, caller: AccountId, id: TxId, reloaded: Option<MultiSigView>)
    requires
        v.wf(),
        v.vote_error(caller, id) is None,
        reloaded matches Some(s) ==> s.wf(),
    ensures
        v.entry(id).approvals < u8::MAX && v.entry(id).approvals + 1 >= v.threshold ==> {
            let w = v.with_vote(caller, id, true);
            &&& v.approve_error(caller, id) is None
            &&& w.threshold_met(id)
            &&& !w.after_execution(id, reloaded).has_tx(id)
        },
        v.entry(id).rejections + 1 > v.owners.len() - v.threshold ==> !v.after_rejection(caller, id).has_tx(id),
        v.entry(id).rejections + 1 <= v.owners.len() - v.threshold ==> {
            let w = v.after_rejection(caller, id);
            &&& w.has_tx(id)
            &&& w.rejections_of(id) == Some((v.entry(id).rejections + 1) as u8)
            &&& w.approvals_of(id) == v.approvals_of(id)
            &&& w.entry(id).tx == v.entry(id).tx
        },
{
    if v.entry(id).approvals < u8::MAX {
        lemma_with_vote(v, caller, id, true);
        let w = v.with_vote(caller, id, true);
        lemma_without_tx(w, id);
        if let Some(s) = reloaded {
            lemma_without_tx(s, id);
        }
    }
    if !v.rejection_cancels(id) {
        lemma_with_vote(v, caller, id, false);
    }
    lemma_without_tx(v, id);
}

/// A second vote of the same owner on the same transaction, of either kind, is refused.
pub proof fn law_no_double_vote(v: MultiSigView, caller: AccountId, id: TxId)
    requires
        v.wf(),
        v.vote_error(caller, id) is None,
    ensures
        v.entry(id).approvals < u8::MAX ==> {
            let w = v.with_vote(caller, id, true);
            &&& w.approve_error(caller, id) == Some(Error::AlreadyVoted)
            &&& w.vote_error(caller, id) == Some(Error::AlreadyVoted)
        },
        v.after_rejection(caller, id).vote_error(caller, id) is Some,
        v.after_rejection(caller, id).approve_error(caller, id) is Some,
{
    if v.entry(id).approvals < u8::MAX {
        lemma_with_vote(v, caller, id, true);
    }
    if !v.rejection_cancels(id) {
        lemma_with_vote(v, caller, id, false);
    }
    lemma_without_tx(v, id);
}

/// When the executed transaction may call back into the wallet and targets it, the state
/// after settling is the one read back from storage, so whatever the callback changed (an
/// owner added, the threshold) is seen.
pub proof fn law_reload_sees_callback(v: MultiSigView, s: MultiSigView, id: TxId, this: AccountId)
    requires
        v.wf(),
        s.wf(),
        v.has_tx(id),
        reload_needed(v.entry(id).tx, this),
    ensures
        v.after_execution(id, Some(s)).owners == s.owners,
        v.after_execution(id, Some(s)).threshold == s.threshold,
        v.after_execution(id, Some(s)).next_tx_id == s.next_tx_id,
{
    lemma_without_tx(s, id);
}

/// When an approval makes a self-call due whose callback adds an owner to the wallet it sees,
/// settling the call with that state read back keeps the new owner and drops the call.
pub proof fn law_reentrant_add_owner(v: MultiSigView, caller: AccountId, id: TxId, this: AccountId, added: AccountId)
    requires
        v.wf(),
        v.approve_error(caller, id) is None,
        reload_needed(v.entry(id).tx, this),
        v.with_vote(caller, id, true).add_owner_error(this, this, added) is None,
    ensures
        ({
            let voted = v.with_vote(caller, id, true);
            let stored = MultiSigView { owners: voted.owners.push(added), ..voted };
            &&& stored.wf()
            &&& voted.after_execution(id, Some(stored)).owners == v.owners.push(added)
            &&& voted.after_execution(id, Some(stored)).is_owner(added)
            &&& !voted.after_execution(id, Some(stored)).has_tx(id)
        }),
{
    lemma_with_vote(v, caller, id, true);
    let voted = v.with_vote(caller, id, true);
    let stored = MultiSigView { owners: voted.owners.push(added), ..voted };
    law_invariant_kept(voted, this, this, id, v.entry(id).tx, added, 1, None);
    lemma_without_tx(stored, id);
    assert(stored.owners[v.owners.len() as int] == added);
}

} // verus!
