use vstd::prelude::*;

use crate::account::{sorted_unique, strictly_sorted, AccountId};
use crate::types::{
    announces_proposal, Approve, Error, Event, LangError, OwnerAdded, OwnerRemoved, Reject,
    ThresholdChanged, Transaction, TransactionCancelled, TransactionExecuted, TransactionProposed,
    TransactionRemoved, Transfer, TxId, TxResult, Vote, Balance, copy_bytes,
};

verus! {

/// Most owners a wallet can have.
pub const MAX_OWNERS: usize = 10;

/// Most transactions that can be pending at the same time.
pub const MAX_TRANSACTIONS: usize = 10;

/// A pending transaction with its tally.
pub struct TxEntry {
    pub id: TxId,
    pub tx: Transaction,
    pub approvals: u8,
    pub rejections: u8,
    /// At most one vote per owner, in the order they were cast.
    pub votes: Vec<Vote>,
}

/// Mathematical view of a pending transaction.
pub struct TxView {
    pub id: TxId,
    pub tx: Transaction,
    pub approvals: u8,
    pub rejections: u8,
    pub votes: Seq<Vote>,
}

impl View for TxEntry {
    type V = TxView;

    open spec fn view(&self) -> TxView {
        TxView {
            id: self.id,
            tx: self.tx,
            approvals: self.approvals,
            rejections: self.rejections,
            votes: self.votes@,
        }
    }
}

/// The state of a multi-owner wallet.
///
/// Owners are kept in order of addition; pending transactions in order of proposal,
/// which is also increasing id order. The operations expect the invariant `wf` of the view;
/// the constructors establish it, every operation keeps it, and `is_well_formed` checks it on
/// a state put together from its fields.
pub struct MultiSig {
    pub owners_list: Vec<AccountId>,
    pub threshold: u8,
    pub next_tx_id: TxId,
    pub txs: Vec<TxEntry>,
}

/// Mathematical view of the wallet.
pub struct MultiSigView {
    pub owners: Seq<AccountId>,
    pub threshold: u8,
    pub next_tx_id: TxId,
    pub txs: Seq<TxView>,
}

impl View for MultiSig {
    type V = MultiSigView;

    open spec fn view(&self) -> MultiSigView {
        MultiSigView {
            owners: self.owners_list@,
            threshold: self.threshold,
            next_tx_id: self.next_tx_id,
            txs: self.txs@.map_values(|e: TxEntry| e@),
        }
    }
}

/// Number of votes of the given kind in `votes`.
pub open spec fn count_votes(votes: Seq<Vote>, approved: bool) -> nat
    decreases votes.len(),
{
    if votes.len() == 0 {
        0
    } else {
        count_votes(votes.drop_last(), approved) + if votes.last().approved == approved {
            1nat
        } else {
            0nat
        }
    }
}

/// Counting a vote added at the end.
pub proof fn lemma_count_votes_push(votes: Seq<Vote>, v: Vote, approved: bool)
    ensures
        count_votes(votes.push(v), approved) == count_votes(votes, approved) + if v.approved == approved {
            1nat
        } else {
            0nat
        },
{
    assert(votes.push(v).drop_last() =~= votes);
}

/// No owner has more than one vote in `votes`.
pub open spec fn one_vote_each(votes: Seq<Vote>) -> bool {
    forall|a: int, b: int|
        0 <= a < votes.len() && 0 <= b < votes.len() && #[trigger] votes[a].owner
            == #[trigger] votes[b].owner ==> a == b
}

/// The vote of `owner` in `votes`, if any.
pub open spec fn vote_in(votes: Seq<Vote>, owner: AccountId) -> Option<bool> {
    if exists|k: int| 0 <= k < votes.len() && #[trigger] votes[k].owner == owner {
        let k = choose|k: int| 0 <= k < votes.len() && #[trigger] votes[k].owner == owner;
        Some(votes[k].approved)
    } else {
        None
    }
}

/// The counters of `e` are the numbers of its approving and rejecting votes, and it has
/// fewer rejections than the wallet can have owners: a rejection beyond that cancels it.
pub open spec fn tally_matches(e: TxView) -> bool {
    &&& e.approvals == count_votes(e.votes, true)
    &&& e.rejections == count_votes(e.votes, false)
    &&& e.rejections < MAX_OWNERS
}

impl MultiSigView {
    /// The wallet's internal invariant.
    pub open spec fn wf(self) -> bool {
        &&& 1 <= self.threshold
        &&& self.threshold <= self.owners.len()
        &&& self.owners.len() <= MAX_OWNERS
        &&& self.owners.no_duplicates()
        &&& self.txs.len() <= MAX_TRANSACTIONS
        &&& forall|i: int, j: int|
            0 <= i < j < self.txs.len() ==> #[trigger] self.txs[i].id < #[trigger] self.txs[j].id
        &&& forall|i: int| 0 <= i < self.txs.len() ==> #[trigger] self.txs[i].id < self.next_tx_id
        &&& forall|i: int| 0 <= i < self.txs.len() ==> one_vote_each(#[trigger] self.txs[i].votes)
        &&& forall|i: int| 0 <= i < self.txs.len() ==> tally_matches(#[trigger] self.txs[i])
    }

    pub open spec fn is_owner(self, a: AccountId) -> bool {
        self.owners.contains(a)
    }

    /// Whether `id` names a pending transaction.
    pub open spec fn has_tx(self, id: TxId) -> bool {
        exists|i: int| 0 <= i < self.txs.len() && #[trigger] self.txs[i].id == id
    }

    /// Position of the pending transaction `id`.
    pub open spec fn index_of(self, id: TxId) -> int {
        choose|i: int| 0 <= i < self.txs.len() && #[trigger] self.txs[i].id == id
    }

    /// The pending transaction `id`.
    pub open spec fn entry(self, id: TxId) -> TxView {
        self.txs[self.index_of(id)]
    }

    /// Ids of the pending transactions, in order of proposal.
    pub open spec fn ids(self) -> Seq<TxId> {
        self.txs.map_values(|e: TxView| e.id)
    }

    pub open spec fn approvals_of(self, id: TxId) -> Option<u8> {
        if self.has_tx(id) {
            Some(self.entry(id).approvals)
        } else {
            None
        }
    }

    pub open spec fn rejections_of(self, id: TxId) -> Option<u8> {
        if self.has_tx(id) {
            Some(self.entry(id).rejections)
        } else {
            None
        }
    }

    /// The vote of `owner` on the pending transaction `id`, if any.
    pub open spec fn vote_of(self, id: TxId, owner: AccountId) -> Option<bool> {
        if self.has_tx(id) {
            vote_in(self.entry(id).votes, owner)
        } else {
            None
        }
    }

    /// Enough approvals to execute `id`, against the current threshold.
    pub open spec fn threshold_met(self, id: TxId) -> bool {
        self.entry(id).approvals >= self.threshold
    }

    /// Approvals could still reach the threshold: no more rejections than owners
    /// beyond the threshold, against the current owners and threshold.
    pub open spec fn threshold_reachable(self, id: TxId) -> bool {
        self.entry(id).rejections <= self.owners.len() - self.threshold
    }

    /// The state with the pending transaction `id` and its whole tally gone.
    pub open spec fn without_tx(self, id: TxId) -> MultiSigView {
        if self.has_tx(id) {
            MultiSigView { txs: self.txs.remove(self.index_of(id)), ..self }
        } else {
            self
        }
    }

    /// Why `caller` may not propose, if it may not.
    pub open spec fn propose_error(self, caller: AccountId) -> Option<Error> {
        if !self.is_owner(caller) {
            Some(Error::NotOwner)
        } else if self.txs.len() >= MAX_TRANSACTIONS {
            Some(Error::MaxTransactionsReached)
        } else if self.next_tx_id == u128::MAX {
            Some(Error::TxIdOverflow)
        } else {
            None
        }
    }

    /// The state after `caller` proposes `tx`: a new entry under the next id, with the
    /// proposer's approval.
    pub open spec fn with_proposal(self, caller: AccountId, tx: Transaction) -> MultiSigView {
        MultiSigView {
            next_tx_id: (self.next_tx_id + 1) as u128,
            txs: self.txs.push(
                TxView {
                    id: self.next_tx_id,
                    tx,
                    approvals: 1,
                    rejections: 0,
                    votes: seq![Vote { owner: caller, approved: true }],
                },
            ),
            ..self
        }
    }

    /// Why `caller` may not vote on `id`, if it may not; checked in this order.
    pub open spec fn vote_error(self, caller: AccountId, id: TxId) -> Option<Error> {
        if !self.is_owner(caller) {
            Some(Error::NotOwner)
        } else if !self.has_tx(id) {
            Some(Error::InvalidTxId)
        } else if self.vote_of(id, caller) is Some {
            Some(Error::AlreadyVoted)
        } else {
            None
        }
    }

    /// Why `caller` may not approve `id`, if it may not: a reason not to vote, or an
    /// approval counter that cannot count one more.
    pub open spec fn approve_error(self, caller: AccountId, id: TxId) -> Option<Error> {
        if self.vote_error(caller, id) is Some {
            self.vote_error(caller, id)
        } else if self.entry(id).approvals == u8::MAX {
            Some(Error::ApprovalsOverflow)
        } else {
            None
        }
    }

    /// The state after `caller`'s vote on `id` is counted and recorded.
    pub open spec fn with_vote(self, caller: AccountId, id: TxId, approved: bool) -> MultiSigView {
        let e = self.entry(id);
        let counted = TxView {
            approvals: if approved {
                (e.approvals + 1) as u8
            } else {
                e.approvals
            },
            rejections: if approved {
                e.rejections
            } else {
                (e.rejections + 1) as u8
            },
            votes: e.votes.push(Vote { owner: caller, approved }),
            ..e
        };
        MultiSigView { txs: self.txs.update(self.index_of(id), counted), ..self }
    }

    /// One more rejection of `id` leaves fewer owners able to approve than the threshold,
    /// counted against the current owners and threshold.
    pub open spec fn rejection_cancels(self, id: TxId) -> bool {
        self.entry(id).rejections + 1 > self.owners.len() - self.threshold
    }

    /// The state after a rejection of `id` by `caller`: cancellation with its whole tally
    /// when the threshold can no longer be met, else the vote counted and recorded.
    pub open spec fn after_rejection(self, caller: AccountId, id: TxId) -> MultiSigView {
        if self.rejection_cancels(id) {
            self.without_tx(id)
        } else {
            self.with_vote(caller, id, false)
        }
    }

    /// The state after the pending transaction `id` has been executed: the state read back
    /// from storage when there is one, without `id`.
    pub open spec fn after_execution(self, id: TxId, reloaded: Option<MultiSigView>) -> MultiSigView {
        match reloaded {
            Some(s) => s.without_tx(id),
            None => self.without_tx(id),
        }
    }

    /// Why `caller` may not add `owner`, if it may not.
    pub open spec fn add_owner_error(self, caller: AccountId, this: AccountId, owner: AccountId) -> Option<Error> {
        if caller != this {
            Some(Error::Unauthorized)
        } else if self.owners.len() >= MAX_OWNERS {
            Some(Error::MaxOwnersReached)
        } else if self.is_owner(owner) {
            Some(Error::OwnerAlreadyExists)
        } else {
            None
        }
    }

    /// Why `caller` may not remove `owner`, if it may not.
    pub open spec fn remove_owner_error(self, caller: AccountId, this: AccountId, owner: AccountId) -> Option<Error> {
        if caller != this {
            Some(Error::Unauthorized)
        } else if !self.is_owner(owner) {
            Some(Error::NotOwner)
        } else if self.owners.len() == 1 {
            Some(Error::OwnersCantBeEmpty)
        } else if self.threshold > self.owners.len() - 1 {
            Some(Error::ThresholdGreaterThanOwners)
        } else {
            None
        }
    }

    /// Why `caller` may not set the threshold to `t`, if it may not.
    pub open spec fn change_threshold_error(self, caller: AccountId, this: AccountId, t: u8) -> Option<Error> {
        if caller != this {
            Some(Error::Unauthorized)
        } else if t > self.owners.len() {
            Some(Error::ThresholdGreaterThanOwners)
        } else if t == 0 {
            Some(Error::ThresholdCantBeZero)
        } else {
            None
        }
    }
}

/// Why `threshold` and `n_owners` distinct owners cannot make a wallet, if they cannot;
/// checked in this order.
pub open spec fn creation_error(threshold: u8, n_owners: int) -> Option<Error> {
    if n_owners == 0 {
        Some(Error::OwnersCantBeEmpty)
    } else if threshold > n_owners {
        Some(Error::ThresholdGreaterThanOwners)
    } else if threshold == 0 {
        Some(Error::ThresholdCantBeZero)
    } else {
        None
    }
}

/// The wallet is due to reload its state after the call of `tx`: the callee may call back
/// and is the wallet itself.
pub open spec fn reload_needed(tx: Transaction, this: AccountId) -> bool {
    tx.allow_reentry && tx.address == this
}

/// Outcome of a call as the wallet records it.
pub open spec fn classify(outcome: Result<Result<Vec<u8>, LangError>, String>) -> TxResult {
    match outcome {
        Ok(Ok(bytes)) => TxResult::Success(bytes),
        Ok(Err(e)) => TxResult::Failed(Error::LangExecutionFailed(e)),
        Err(msg) => TxResult::Failed(Error::EnvExecutionFailed(msg)),
    }
}

/// The unique position of `id` in a well-formed state.
pub proof fn lemma_index_of(v: MultiSigView, i: int)
    requires
        v.wf(),
        0 <= i < v.txs.len(),
    ensures
        v.has_tx(v.txs[i].id),
        v.index_of(v.txs[i].id) == i,
        v.entry(v.txs[i].id) == v.txs[i],
{
    let id = v.txs[i].id;
    assert(v.txs[i].id == id);
    let j = v.index_of(id);
    if j < i {
        assert(v.txs[j].id < v.txs[i].id);
    } else if i < j {
        assert(v.txs[i].id < v.txs[j].id);
    }
}

/// The vote recorded at a position of a list with one vote per owner.
pub proof fn lemma_vote_in(votes: Seq<Vote>, k: int)
    requires
        one_vote_each(votes),
        0 <= k < votes.len(),
    ensures
        vote_in(votes, votes[k].owner) == Some(votes[k].approved),
{
    let owner = votes[k].owner;
    assert(votes[k].owner == owner);
    let c = choose|c: int| 0 <= c < votes.len() && #[trigger] votes[c].owner == owner;
    assert(votes[c].owner == votes[k].owner);
}


/// Removing a pending transaction keeps the invariant and leaves no trace of it.
pub proof fn lemma_without_tx(v: MultiSigView, id: TxId)
    requires
        v.wf(),
    ensures
        v.without_tx(id).wf(),
        !v.without_tx(id).has_tx(id),
        v.without_tx(id).owners == v.owners,
        v.without_tx(id).threshold == v.threshold,
        v.without_tx(id).next_tx_id == v.next_tx_id,
        v.has_tx(id) ==> id < v.next_tx_id,
{
    if v.has_tx(id) {
        let k = v.index_of(id);
        let w = v.without_tx(id);
        assert(w.txs.len() == v.txs.len() - 1);
        assert forall|i: int| 0 <= i < w.txs.len() implies #[trigger] w.txs[i] == (if i < k {
            v.txs[i]
        } else {
            v.txs[i + 1]
        }) by {}
        assert forall|i: int, j: int| 0 <= i < j < w.txs.len() implies #[trigger] w.txs[i].id
            < #[trigger] w.txs[j].id by {
            let i2 = if i < k { i } else { i + 1 };
            let j2 = if j < k { j } else { j + 1 };
            assert(v.txs[i2].id < v.txs[j2].id);
        }
        assert forall|i: int| 0 <= i < w.txs.len() implies #[trigger] w.txs[i].id < w.next_tx_id by {
            let i2 = if i < k { i } else { i + 1 };
            assert(v.txs[i2].id < v.next_tx_id);
        }
        assert forall|i: int| 0 <= i < w.txs.len() implies one_vote_each(#[trigger] w.txs[i].votes) by {
            let i2 = if i < k { i } else { i + 1 };
            assert(one_vote_each(v.txs[i2].votes));
        }
        assert forall|i: int| 0 <= i < w.txs.len() implies tally_matches(#[trigger] w.txs[i]) by {
            let i2 = if i < k { i } else { i + 1 };
            assert(tally_matches(v.txs[i2]));
        }
        if w.has_tx(id) {
            let j = choose|j: int| 0 <= j < w.txs.len() && #[trigger] w.txs[j].id == id;
            let j2 = if j < k { j } else { j + 1 };
            assert(v.txs[j2].id == id);
            if j2 < k {
                assert(v.txs[j2].id < v.txs[k].id);
            } else {
                assert(v.txs[k].id < v.txs[j2].id);
            }
        }
        assert(v.txs[k].id < v.next_tx_id);
    }
}

/// Proposing keeps the invariant, when proposing is allowed.
pub proof fn lemma_with_proposal(v: MultiSigView, caller: AccountId, tx: Transaction)
    requires
        v.wf(),
        v.propose_error(caller) is None,
    ensures
        v.with_proposal(caller, tx).wf(),
        v.with_proposal(caller, tx).has_tx(v.next_tx_id),
        v.with_proposal(caller, tx).entry(v.next_tx_id) == v.with_proposal(caller, tx).txs.last(),
{
    let w = v.with_proposal(caller, tx);
    let n = v.txs.len() as int;
    assert(w.txs[n].id == v.next_tx_id);
    assert forall|i: int, j: int| 0 <= i < j < w.txs.len() implies #[trigger] w.txs[i].id
        < #[trigger] w.txs[j].id by {
        if j == n {
            assert(v.txs[i].id < v.next_tx_id);
        }
    }
    assert forall|i: int| 0 <= i < w.txs.len() implies #[trigger] w.txs[i].id < w.next_tx_id by {
        if i < n {
            assert(v.txs[i].id < v.next_tx_id);
        }
    }
    assert forall|i: int| 0 <= i < w.txs.len() implies one_vote_each(#[trigger] w.txs[i].votes) by {
        if i < n {
            assert(one_vote_each(v.txs[i].votes));
        }
    }
    let first = Vote { owner: caller, approved: true };
    assert(seq![first] =~= Seq::<Vote>::empty().push(first));
    lemma_count_votes_push(Seq::<Vote>::empty(), first, true);
    lemma_count_votes_push(Seq::<Vote>::empty(), first, false);
    assert forall|i: int| 0 <= i < w.txs.len() implies tally_matches(#[trigger] w.txs[i]) by {
        if i < n {
            assert(tally_matches(v.txs[i]));
        }
    }
    lemma_index_of(w, n);
}

/// Counting a new vote keeps the invariant and records exactly that vote.
pub proof fn lemma_with_vote(v: MultiSigView, caller: AccountId, id: TxId, approved: bool)
    requires
        v.wf(),
        v.has_tx(id),
        v.vote_of(id, caller) is None,
        approved ==> v.entry(id).approvals < u8::MAX,
        !approved ==> !v.rejection_cancels(id),
    ensures
        v.with_vote(caller, id, approved).wf(),
        v.with_vote(caller, id, approved).has_tx(id),
        v.with_vote(caller, id, approved).index_of(id) == v.index_of(id),
        v.with_vote(caller, id, approved).vote_of(id, caller) == Some(approved),
        v.with_vote(caller, id, approved).owners == v.owners,
        v.with_vote(caller, id, approved).threshold == v.threshold,
        v.with_vote(caller, id, approved).next_tx_id == v.next_tx_id,
{
    let k = v.index_of(id);
    let w = v.with_vote(caller, id, approved);
    let old_votes = v.txs[k].votes;
    let votes = w.txs[k].votes;
    assert(votes == old_votes.push(Vote { owner: caller, approved }));
    assert forall|a: int| 0 <= a < old_votes.len() implies #[trigger] old_votes[a].owner != caller by {
        if old_votes[a].owner == caller {
            assert(exists|c: int| 0 <= c < old_votes.len() && #[trigger] old_votes[c].owner == caller);
        }
    }
    assert(one_vote_each(old_votes));
    assert forall|a: int, b: int|
        0 <= a < votes.len() && 0 <= b < votes.len() && #[trigger] votes[a].owner
            == #[trigger] votes[b].owner implies a == b by {
        if a < old_votes.len() && b < old_votes.len() {
            assert(old_votes[a].owner == old_votes[b].owner);
        } else if a < old_votes.len() {
            assert(old_votes[a].owner != caller);
        } else if b < old_votes.len() {
            assert(old_votes[b].owner != caller);
        }
    }
    assert forall|i: int| 0 <= i < w.txs.len() implies one_vote_each(#[trigger] w.txs[i].votes) by {
        if i != k {
            assert(one_vote_each(v.txs[i].votes));
        }
    }
    lemma_count_votes_push(old_votes, Vote { owner: caller, approved }, true);
    lemma_count_votes_push(old_votes, Vote { owner: caller, approved }, false);
    assert(tally_matches(v.txs[k]));
    assert forall|i: int| 0 <= i < w.txs.len() implies tally_matches(#[trigger] w.txs[i]) by {
        if i != k {
            assert(tally_matches(v.txs[i]));
        }
    }
    assert forall|i: int, j: int| 0 <= i < j < w.txs.len() implies #[trigger] w.txs[i].id
        < #[trigger] w.txs[j].id by {
        assert(v.txs[i].id < v.txs[j].id);
    }
    assert forall|i: int| 0 <= i < w.txs.len() implies #[trigger] w.txs[i].id < w.next_tx_id by {
        assert(v.txs[i].id < v.next_tx_id);
    }
    lemma_index_of(w, k);
    lemma_vote_in(votes, old_votes.len() as int);
}

impl MultiSig {
    /// Position of the pending transaction `tx_id`, if there is one.
    fn find_tx(&self, tx_id: TxId) -> (r: Option<usize>)
        requires
            self@.wf(),
        ensures
            r is None <==> !self@.has_tx(tx_id),
            r matches Some(i) ==> i < self.txs.len() && self@.index_of(tx_id) == i
                && self@.txs[i as int].id == tx_id,
    {
        let mut i: usize = 0;
        while i < self.txs.len()
            invariant
                0 <= i <= self.txs.len(),
                self@.wf(),
                forall|j: int| 0 <= j < i ==> #[trigger] self@.txs[j].id != tx_id,
            decreases self.txs.len() - i,
        {
            assert(self@.txs[i as int] == self.txs@[i as int]@);
            if self.txs[i].id == tx_id {
                proof {
                    lemma_index_of(self@, i as int);
                }
                return Some(i);
            }
            i = i + 1;
        }
        None
    }

    /// Position of `owner` among the owners, if it is one.
    fn owner_position(&self, owner: &AccountId) -> (r: Option<usize>)
        ensures
            r is None <==> !self@.is_owner(*owner),
            r matches Some(i) ==> i < self.owners_list.len() && self.owners_list@[i as int] == *owner,
    {
        let mut i: usize = 0;
        while i < self.owners_list.len()
            invariant
                0 <= i <= self.owners_list.len(),
                forall|j: int| 0 <= j < i ==> #[trigger] self.owners_list@[j] != *owner,
            decreases self.owners_list.len() - i,
        {
            if self.owners_list[i].same(owner) {
                return Some(i);
            }
            i = i + 1;
        }
        None
    }
}

/// Position of the vote of `owner` in `votes`, if there is one.
fn vote_position(votes: &Vec<Vote>, owner: &AccountId) -> (r: Option<usize>)
    ensures
        r is None <==> vote_in(votes@, *owner) is None,
        r matches Some(k) ==> k < votes.len() && votes@[k as int].owner == *owner,
{
    let mut k: usize = 0;
    while k < votes.len()
        invariant
            0 <= k <= votes.len(),
            forall|j: int| 0 <= j < k ==> #[trigger] votes@[j].owner != *owner,
        decreases votes.len() - k,
    {
        if votes[k].owner.same(owner) {
            assert(votes@[k as int].owner == *owner);
            return Some(k);
        }
        k = k + 1;
    }
    None
}


/// The view of a state read back from storage, if any.
pub open spec fn view_of(s: Option<MultiSig>) -> Option<MultiSigView> {
    match s {
        Some(m) => Some(m@),
        None => None,
    }
}

impl MultiSig {
    /// Counts the vote of `caller` on the pending transaction at position `i`.
    fn record_vote(&mut self, i: usize, caller: AccountId, approved: bool)
        requires
            old(self)@.wf(),
            i < old(self).txs.len(),
            old(self)@.vote_of(old(self)@.txs[i as int].id, caller) is None,
            approved ==> old(self)@.txs[i as int].approvals < u8::MAX,
            !approved ==> !old(self)@.rejection_cancels(old(self)@.txs[i as int].id),
        ensures
            final(self)@ == old(self)@.with_vote(caller, old(self)@.txs[i as int].id, approved),
    {
        let ghost v = self@;
        proof {
            lemma_index_of(v, i as int);
        }
        assert(self@.txs[i as int] == self.txs@[i as int]@);
        assert(tally_matches(v.txs[i as int]));
        let mut e = self.txs.remove(i);
        if approved {
            e.approvals = e.approvals + 1;
        } else {
            e.rejections = e.rejections + 1;
        }
        e.votes.push(Vote { owner: caller, approved });
        self.txs.insert(i, e);
        proof {
            let w = v.with_vote(caller, v.txs[i as int].id, approved);
            assert(self@.txs =~= w.txs);
        }
    }

    /// Removes the pending transaction `tx_id` with its whole tally.
    fn remove_tx(&mut self, tx_id: TxId, events: &mut Vec<Event>)
        requires
            old(self)@.wf(),
        ensures
            final(self)@ == old(self)@.without_tx(tx_id),
            final(events)@ == old(events)@.push(Event::TransactionRemoved(TransactionRemoved { tx_id })),
    {
        let ghost v = self@;
        match self.find_tx(tx_id) {
            Some(i) => {
                self.txs.remove(i);
                proof {
                    assert(self@.txs =~= v.txs.remove(i as int));
                }
            },
            None => {},
        }
        events.push(Event::TransactionRemoved(TransactionRemoved { tx_id }));
    }

    /// Checks that `caller` may vote on `tx_id`, and gives the transaction's position.
    fn perform_approval_rejection_checking(&self, caller: AccountId, tx_id: TxId) -> (r: Result<usize, Error>)
        requires
            self@.wf(),
        ensures
            match self@.vote_error(caller, tx_id) {
                Some(e) => r == Err::<usize, Error>(e),
                None => r matches Ok(i) && i == self@.index_of(tx_id) && i < self.txs.len()
                    && self@.txs[i as int].id == tx_id,
            },
    {
        if self.owner_position(&caller).is_none() {
            return Err(Error::NotOwner);
        }
        let i = match self.find_tx(tx_id) {
            Some(i) => i,
            None => {
                return Err(Error::InvalidTxId);
            },
        };
        assert(self@.txs[i as int] == self.txs@[i as int]@);
        if vote_position(&self.txs[i].votes, &caller).is_some() {
            return Err(Error::AlreadyVoted);
        }
        Ok(i)
    }

    /// Proposes `tx` on behalf of `caller`, with the proposer's approval counted.
    ///
    /// Returns the new transaction's id when it already has enough approvals and is due for
    /// execution.
    pub fn propose_tx(&mut self, caller: AccountId, tx: Transaction, events: &mut Vec<Event>) -> (r: Result<Option<TxId>, Error>)
        requires
            old(self)@.wf(),
        ensures
            final(self)@.wf(),
            match old(self)@.propose_error(caller) {
                Some(e) => {
                    &&& r == Err::<Option<TxId>, Error>(e)
                    &&& final(self)@ == old(self)@
                    &&& final(events)@ == old(events)@
                },
                None => {
                    &&& final(self)@ == old(self)@.with_proposal(caller, tx)
                    &&& final(self)@.has_tx(old(self)@.next_tx_id)
                    &&& final(self)@.entry(old(self)@.next_tx_id) == final(self)@.txs.last()
                    &&& r == Ok::<Option<TxId>, Error>(
                        if final(self)@.threshold_met(old(self)@.next_tx_id) {
                            Some(old(self)@.next_tx_id)
                        } else {
                            None
                        },
                    )
                    &&& final(events)@.len() == old(events)@.len() + 1
                    &&& final(events)@.drop_last() == old(events)@
                    &&& announces_proposal(final(events)@.last(), old(self)@.next_tx_id, tx)
                },
            },
    {
        let ghost v = self@;
        if self.owner_position(&caller).is_none() {
            return Err(Error::NotOwner);
        }
        if self.txs.len() >= MAX_TRANSACTIONS {
            return Err(Error::MaxTransactionsReached);
        }
        let current_tx_id = self.next_tx_id;
        self.next_tx_id = match current_tx_id.checked_add(1) {
            Some(n) => n,
            None => {
                return Err(Error::TxIdOverflow);
            },
        };
        let proposed = TransactionProposed {
            tx_id: current_tx_id,
            contract_address: tx.address,
            selector: tx.selector,
            input: copy_bytes(&tx.input),
            transferred_value: tx.transferred_value,
            gas_limit: tx.gas_limit,
            allow_reentry: tx.allow_reentry,
        };
        let mut votes: Vec<Vote> = Vec::new();
        votes.push(Vote { owner: caller, approved: true });
        self.txs.push(TxEntry { id: current_tx_id, tx, approvals: 1, rejections: 0, votes });
        let ghost ev = Event::TransactionProposed(proposed);
        events.push(Event::TransactionProposed(proposed));
        proof {
            let w = v.with_proposal(caller, tx);
            assert(self@.txs =~= w.txs);
            assert(self@ == w);
            lemma_with_proposal(v, caller, tx);
            assert(events@.drop_last() =~= old(events)@);
        }
        if 1 >= self.threshold {
            Ok(Some(current_tx_id))
        } else {
            Ok(None)
        }
    }

    /// Counts the approval of `caller` on `tx_id`.
    ///
    /// Returns `tx_id` when the transaction now has enough approvals and is due for execution.
    pub fn approve_tx(&mut self, caller: AccountId, tx_id: TxId, events: &mut Vec<Event>) -> (r: Result<Option<TxId>, Error>)
        requires
            old(self)@.wf(),
        ensures
            final(self)@.wf(),
            match old(self)@.approve_error(caller, tx_id) {
                Some(e) => {
                    &&& r == Err::<Option<TxId>, Error>(e)
                    &&& final(self)@ == old(self)@
                    &&& final(events)@ == old(events)@
                },
                None => {
                    &&& final(self)@ == old(self)@.with_vote(caller, tx_id, true)
                    &&& final(self)@.has_tx(tx_id)
                    &&& final(self)@.index_of(tx_id) == old(self)@.index_of(tx_id)
                    &&& final(self)@.vote_of(tx_id, caller) == Some(true)
                    &&& r == Ok::<Option<TxId>, Error>(
                        if final(self)@.threshold_met(tx_id) {
                            Some(tx_id)
                        } else {
                            None
                        },
                    )
                    &&& final(events)@ == old(events)@.push(Event::Approve(Approve { tx_id, owner: caller }))
                },
            },
    {
        let ghost v = self@;
        let i = self.perform_approval_rejection_checking(caller, tx_id)?;
        assert(self@.txs[i as int] == self.txs@[i as int]@);
        if self.txs[i].approvals == u8::MAX {
            return Err(Error::ApprovalsOverflow);
        }
        self.record_vote(i, caller, true);
        events.push(Event::Approve(Approve { tx_id, owner: caller }));
        proof {
            lemma_with_vote(v, caller, tx_id, true);
            assert(self@.txs[i as int] == self.txs@[i as int]@);
        }
        if self.txs[i].approvals >= self.threshold {
            Ok(Some(tx_id))
        } else {
            Ok(None)
        }
    }

    /// Cancels the pending transaction at position `i` when its threshold can no longer be met.
    fn cancel_if_unreachable(&mut self, i: usize, events: &mut Vec<Event>)
        requires
            old(self)@.wf(),
            i < old(self).txs.len(),
        ensures
            ({
                let id = old(self)@.txs[i as int].id;
                if old(self)@.threshold_reachable(id) {
                    &&& final(self)@ == old(self)@
                    &&& final(events)@ == old(events)@
                } else {
                    &&& final(self)@ == old(self)@.without_tx(id)
                    &&& final(events)@ == old(events)@.push(
                        Event::TransactionCancelled(TransactionCancelled { tx_id: id }),
                    ).push(Event::TransactionRemoved(TransactionRemoved { tx_id: id }))
                }
            }),
    {
        proof {
            lemma_index_of(self@, i as int);
        }
        assert(self@.txs[i as int] == self.txs@[i as int]@);
        let tx_id = self.txs[i].id;
        let rejections = self.txs[i].rejections as usize;
        if rejections > self.owners_list.len() - self.threshold as usize {
            events.push(Event::TransactionCancelled(TransactionCancelled { tx_id }));
            self.remove_tx(tx_id, events);
        }
    }

    /// Rejects `tx_id` on behalf of `caller`: cancels the transaction when its threshold can
    /// no longer be met, else counts and records the rejection.
    pub fn reject_tx(&mut self, caller: AccountId, tx_id: TxId, events: &mut Vec<Event>) -> (r: Result<(), Error>)
        requires
            old(self)@.wf(),
        ensures
            final(self)@.wf(),
            match old(self)@.vote_error(caller, tx_id) {
                Some(e) => {
                    &&& r == Err::<(), Error>(e)
                    &&& final(self)@ == old(self)@
                    &&& final(events)@ == old(events)@
                },
                None => {
                    let rejected = old(events)@.push(Event::Reject(Reject { tx_id, owner: caller }));
                    &&& r == Ok::<(), Error>(())
                    &&& final(self)@ == old(self)@.after_rejection(caller, tx_id)
                    &&& final(events)@ == if old(self)@.rejection_cancels(tx_id) {
                        rejected.push(Event::TransactionCancelled(TransactionCancelled { tx_id })).push(
                            Event::TransactionRemoved(TransactionRemoved { tx_id }),
                        )
                    } else {
                        rejected
                    }
                },
            },
    {
        let ghost v = self@;
        let i = self.perform_approval_rejection_checking(caller, tx_id)?;
        assert(self@.txs[i as int] == self.txs@[i as int]@);
        events.push(Event::Reject(Reject { tx_id, owner: caller }));
        let rejections = self.txs[i].rejections as usize;
        if rejections + 1 > self.owners_list.len() - self.threshold as usize {
            events.push(Event::TransactionCancelled(TransactionCancelled { tx_id }));
            proof {
                lemma_without_tx(v, tx_id);
            }
            self.remove_tx(tx_id, events);
        } else {
            self.record_vote(i, caller, false);
            proof {
                lemma_with_vote(v, caller, tx_id, false);
            }
        }
        Ok(())
    }
}


/// How the wallet records the outcome of a call: the returned bytes, the callee's
/// language error, or the environment's failure described by `outcome`'s message.
pub fn tx_result(outcome: Result<Result<Vec<u8>, LangError>, String>) -> (r: TxResult)
    ensures
        r == classify(outcome),
{
    match outcome {
        Ok(Ok(bytes)) => TxResult::Success(bytes),
        Ok(Err(e)) => TxResult::Failed(Error::LangExecutionFailed(e)),
        Err(msg) => TxResult::Failed(Error::EnvExecutionFailed(msg)),
    }
}

/// Checks the parameters of a new wallet, in this order: some owners, then the threshold's
/// upper bound, then its lower bound.
pub fn ensure_creation_params(threshold: u8, owners_list: &Vec<AccountId>) -> (r: Result<(), Error>)
    ensures
        r == match creation_error(threshold, owners_list@.len() as int) {
            Some(e) => Err::<(), Error>(e),
            None => Ok(()),
        },
{
    if owners_list.len() == 0 {
        return Err(Error::OwnersCantBeEmpty);
    }
    if threshold as usize > owners_list.len() {
        return Err(Error::ThresholdGreaterThanOwners);
    }
    if threshold == 0 {
        return Err(Error::ThresholdCantBeZero);
    }
    Ok(())
}

/// Checks that the call comes from the wallet itself.
fn ensure_self_call(caller: AccountId, this: AccountId) -> (r: Result<(), Error>)
    ensures
        r == if caller == this {
            Ok::<(), Error>(())
        } else {
            Err(Error::Unauthorized)
        },
{
    if !caller.same(&this) {
        return Err(Error::Unauthorized);
    }
    Ok(())
}

impl MultiSig {
    /// A wallet of the distinct accounts of `owners_list`, kept in byte order, that needs
    /// `threshold` approvals. The parameters are checked as `ensure_creation_params` does,
    /// then the number of owners against `MAX_OWNERS`.
    pub fn new(threshold: u8, owners_list: Vec<AccountId>) -> (r: Result<MultiSig, Error>)
        ensures
            match creation_error(threshold, owners_list@.to_set().len() as int) {
                Some(e) => r == Err::<MultiSig, Error>(e),
                None if owners_list@.to_set().len() > MAX_OWNERS => r == Err::<MultiSig, Error>(
                    Error::MaxOwnersReached,
                ),
                None => r matches Ok(m) && {
                    &&& m@.wf()
                    &&& strictly_sorted(m@.owners)
                    &&& m@.owners.to_set() == owners_list@.to_set()
                    &&& m@.owners.len() == owners_list@.to_set().len()
                    &&& m@.threshold == threshold
                    &&& m@.next_tx_id == 0
                    &&& m@.txs.len() == 0
                },
            },
    {
        let owners = sorted_unique(&owners_list);
        proof {
            assert(owners@.to_set() =~= owners_list@.to_set());
            owners@.unique_seq_to_set();
        }
        ensure_creation_params(threshold, &owners)?;
        if owners.len() > MAX_OWNERS {
            return Err(Error::MaxOwnersReached);
        }
        proof {
            crate::account::lemma_sorted_no_duplicates(owners@);
        }
        Ok(MultiSig { owners_list: owners, threshold, next_tx_id: 0, txs: Vec::new() })
    }
}


impl MultiSig {
    /// A wallet with `caller` as its single owner and a threshold of one.
    pub fn default(caller: AccountId) -> (r: Result<MultiSig, Error>)
        ensures
            r matches Ok(m) && {
                &&& m@.wf()
                &&& m@.owners == seq![caller]
                &&& m@.threshold == 1
                &&& m@.next_tx_id == 0
                &&& m@.txs.len() == 0
            },
    {
        let mut owners_list: Vec<AccountId> = Vec::new();
        owners_list.push(caller);
        proof {
            assert(owners_list@ =~= seq![caller]);
        }
        Ok(MultiSig { owners_list, threshold: 1, next_tx_id: 0, txs: Vec::new() })
    }

    /// Whether the pending transaction `tx_id` has enough approvals to be executed.
    ///
    /// Returns `tx_id` when it is due for execution.
    pub fn try_execute_tx(&self, tx_id: TxId) -> (r: Result<Option<TxId>, Error>)
        requires
            self@.wf(),
        ensures
            r == if !self@.has_tx(tx_id) {
                Err::<Option<TxId>, Error>(Error::InvalidTxId)
            } else if self@.threshold_met(tx_id) {
                Ok(Some(tx_id))
            } else {
                Ok(None)
            },
    {
        let i = match self.find_tx(tx_id) {
            Some(i) => i,
            None => {
                return Err(Error::InvalidTxId);
            },
        };
        assert(self@.txs[i as int] == self.txs@[i as int]@);
        if self.txs[i].approvals >= self.threshold {
            Ok(Some(tx_id))
        } else {
            Ok(None)
        }
    }

    /// Cancels the pending transaction `tx_id` when its threshold can no longer be met.
    pub fn try_remove_tx(&mut self, tx_id: TxId, events: &mut Vec<Event>) -> (r: Result<(), Error>)
        requires
            old(self)@.wf(),
        ensures
            final(self)@.wf(),
            if !old(self)@.has_tx(tx_id) {
                &&& r == Err::<(), Error>(Error::InvalidTxId)
                &&& final(self)@ == old(self)@
                &&& final(events)@ == old(events)@
            } else if old(self)@.threshold_reachable(tx_id) {
                &&& r == Ok::<(), Error>(())
                &&& final(self)@ == old(self)@
                &&& final(events)@ == old(events)@
            } else {
                &&& r == Ok::<(), Error>(())
                &&& final(self)@ == old(self)@.without_tx(tx_id)
                &&& final(events)@ == old(events)@.push(
                    Event::TransactionCancelled(TransactionCancelled { tx_id }),
                ).push(Event::TransactionRemoved(TransactionRemoved { tx_id }))
            },
    {
        proof {
            lemma_without_tx(self@, tx_id);
        }
        let i = match self.find_tx(tx_id) {
            Some(i) => i,
            None => {
                return Err(Error::InvalidTxId);
            },
        };
        self.cancel_if_unreachable(i, events);
        Ok(())
    }

    /// Whether, after the call of the pending transaction `tx_id`, the wallet `this` must
    /// read its state back from storage: the callee may call back and is the wallet itself.
    pub fn needs_reload(&self, tx_id: TxId, this: AccountId) -> (r: bool)
        requires
            self@.wf(),
        ensures
            r == (self@.has_tx(tx_id) && reload_needed(self@.entry(tx_id).tx, this)),
    {
        match self.find_tx(tx_id) {
            Some(i) => {
                assert(self@.txs[i as int] == self.txs@[i as int]@);
                self.txs[i].tx.allow_reentry && self.txs[i].tx.address.same(&this)
            },
            None => false,
        }
    }

    /// Settles the pending transaction `tx_id` after its call returned `outcome`.
    ///
    /// When the call may have changed the wallet (see `needs_reload`), the state read back
    /// from storage, `reloaded`, replaces this one first. The transaction is then removed
    /// whatever the outcome.
    pub fn finish_execution(
        &mut self,
        tx_id: TxId,
        this: AccountId,
        outcome: Result<Result<Vec<u8>, LangError>, String>,
        reloaded: Option<MultiSig>,
        events: &mut Vec<Event>,
    )
        requires
            old(self)@.wf(),
            reloaded matches Some(s) ==> s@.wf(),
        ensures
            final(self)@.wf(),
            final(self)@ == old(self)@.after_execution(
                tx_id,
                if old(self)@.has_tx(tx_id) && reload_needed(old(self)@.entry(tx_id).tx, this) {
                    view_of(reloaded)
                } else {
                    None
                },
            ),
            final(events)@ == old(events)@.push(
                Event::TransactionExecuted(TransactionExecuted { tx_id, result: classify(outcome) }),
            ).push(Event::TransactionRemoved(TransactionRemoved { tx_id })),
    {
        let result = tx_result(outcome);
        if self.needs_reload(tx_id, this) {
            match reloaded {
                Some(s) => {
                    *self = s;
                },
                None => {},
            }
        }
        events.push(Event::TransactionExecuted(TransactionExecuted { tx_id, result }));
        proof {
            lemma_without_tx(self@, tx_id);
        }
        self.remove_tx(tx_id, events);
    }

    /// Adds `owner`; only the wallet `this` may do so.
    pub fn add_owner(&mut self, caller: AccountId, this: AccountId, owner: AccountId, events: &mut Vec<Event>) -> (r: Result<(), Error>)
        requires
            old(self)@.wf(),
        ensures
            final(self)@.wf(),
            match old(self)@.add_owner_error(caller, this, owner) {
                Some(e) => {
                    &&& r == Err::<(), Error>(e)
                    &&& final(self)@ == old(self)@
                    &&& final(events)@ == old(events)@
                },
                None => {
                    &&& r == Ok::<(), Error>(())
                    &&& final(self)@ == MultiSigView { owners: old(self)@.owners.push(owner), ..old(self)@ }
                    &&& final(events)@ == old(events)@.push(Event::OwnerAdded(OwnerAdded { owner }))
                },
            },
    {
        let ghost v = self@;
        ensure_self_call(caller, this)?;
        if self.owners_list.len() >= MAX_OWNERS {
            return Err(Error::MaxOwnersReached);
        }
        if self.owner_position(&owner).is_some() {
            return Err(Error::OwnerAlreadyExists);
        }
        self.owners_list.push(owner);
        events.push(Event::OwnerAdded(OwnerAdded { owner }));
        proof {
            assert(self@.txs == v.txs);
            assert forall|i: int, j: int| 0 <= i < self@.owners.len() && 0 <= j < self@.owners.len() && i != j
                implies self@.owners[i] != self@.owners[j] by {
                if i == v.owners.len() as int {
                    assert(!v.owners.contains(owner));
                    assert(v.owners[j] != owner);
                } else if j == v.owners.len() as int {
                    assert(v.owners[i] != owner);
                }
            }
        }
        Ok(())
    }

    /// Removes `owner`; only the wallet `this` may do so.
    pub fn remove_owner(&mut self, caller: AccountId, this: AccountId, owner: AccountId, events: &mut Vec<Event>) -> (r: Result<(), Error>)
        requires
            old(self)@.wf(),
        ensures
            final(self)@.wf(),
            match old(self)@.remove_owner_error(caller, this, owner) {
                Some(e) => {
                    &&& r == Err::<(), Error>(e)
                    &&& final(self)@ == old(self)@
                    &&& final(events)@ == old(events)@
                },
                None => {
                    &&& r == Ok::<(), Error>(())
                    &&& final(self)@ == MultiSigView {
                        owners: old(self)@.owners.remove(old(self)@.owners.index_of(owner)),
                        ..old(self)@
                    }
                    &&& !final(self)@.is_owner(owner)
                    &&& final(events)@ == old(events)@.push(Event::OwnerRemoved(OwnerRemoved { owner }))
                },
            },
    {
        let ghost v = self@;
        ensure_self_call(caller, this)?;
        let k = match self.owner_position(&owner) {
            Some(k) => k,
            None => {
                return Err(Error::NotOwner);
            },
        };
        let owners_count = self.owners_list.len();
        if owners_count == 1 {
            return Err(Error::OwnersCantBeEmpty);
        }
        if self.threshold as usize > owners_count - 1 {
            return Err(Error::ThresholdGreaterThanOwners);
        }
        self.owners_list.remove(k);
        events.push(Event::OwnerRemoved(OwnerRemoved { owner }));
        proof {
            v.owners.index_of_first_ensures(owner);
            assert(v.owners.index_of(owner) == k as int);
            assert(self@.txs == v.txs);
            assert(self@.owners =~= v.owners.remove(k as int));
            assert forall|i: int, j: int| 0 <= i < self@.owners.len() && 0 <= j < self@.owners.len() && i != j
                implies self@.owners[i] != self@.owners[j] by {
                let i2 = if i < k { i } else { i + 1 };
                let j2 = if j < k { j } else { j + 1 };
                assert(v.owners[i2] != v.owners[j2]);
            }
            if self@.owners.contains(owner) {
                let i = choose|i: int| 0 <= i < self@.owners.len() && self@.owners[i] == owner;
                let i2 = if i < k { i } else { i + 1 };
                assert(v.owners[i2] == v.owners[k as int]);
            }
        }
        Ok(())
    }

    /// Sets the threshold to `threshold`; only the wallet `this` may do so.
    pub fn change_threshold(&mut self, caller: AccountId, this: AccountId, threshold: u8, events: &mut Vec<Event>) -> (r: Result<(), Error>)
        requires
            old(self)@.wf(),
        ensures
            final(self)@.wf(),
            match old(self)@.change_threshold_error(caller, this, threshold) {
                Some(e) => {
                    &&& r == Err::<(), Error>(e)
                    &&& final(self)@ == old(self)@
                    &&& final(events)@ == old(events)@
                },
                None => {
                    &&& r == Ok::<(), Error>(())
                    &&& final(self)@ == MultiSigView { threshold, ..old(self)@ }
                    &&& final(events)@ == old(events)@.push(
                        Event::ThresholdChanged(ThresholdChanged { threshold }),
                    )
                },
            },
    {
        ensure_self_call(caller, this)?;
        if threshold as usize > self.owners_list.len() {
            return Err(Error::ThresholdGreaterThanOwners);
        }
        if threshold == 0 {
            return Err(Error::ThresholdCantBeZero);
        }
        self.threshold = threshold;
        events.push(Event::ThresholdChanged(ThresholdChanged { threshold }));
        Ok(())
    }

    /// Checks that the wallet `this` itself asks to send `value` to `to`, and gives the
    /// transfer to perform.
    pub fn transfer(&self, caller: AccountId, this: AccountId, to: AccountId, value: Balance) -> (r: Result<Transfer, Error>)
        ensures
            r == if caller == this {
                Ok::<Transfer, Error>(Transfer { to, value })
            } else {
                Err(Error::Unauthorized)
            },
    {
        ensure_self_call(caller, this)?;
        Ok(Transfer { to, value })
    }

    /// Records the transfer `request` once performed: announced when `succeeded`, an error
    /// otherwise.
    pub fn record_transfer(request: Transfer, succeeded: bool, events: &mut Vec<Event>) -> (r: Result<(), Error>)
        ensures
            succeeded ==> r == Ok::<(), Error>(()) && final(events)@ == old(events)@.push(Event::Transfer(request)),
            !succeeded ==> r == Err::<(), Error>(Error::TransferFailed) && final(events)@ == old(events)@,
    {
        if !succeeded {
            return Err(Error::TransferFailed);
        }
        events.push(Event::Transfer(request));
        Ok(())
    }

    /// The owners, in the order they were added.
    pub fn get_owners(&self) -> (r: Vec<AccountId>)
        ensures
            r@ == self@.owners,
    {
        let mut r: Vec<AccountId> = Vec::new();
        let mut i: usize = 0;
        while i < self.owners_list.len()
            invariant
                0 <= i <= self.owners_list.len(),
                r@ == self.owners_list@.subrange(0, i as int),
            decreases self.owners_list.len() - i,
        {
            r.push(self.owners_list[i]);
            proof {
                assert(self.owners_list@.subrange(0, i + 1) =~= self.owners_list@.subrange(0, i as int).push(
                    self.owners_list@[i as int],
                ));
            }
            i = i + 1;
        }
        proof {
            assert(self.owners_list@.subrange(0, self.owners_list.len() as int) =~= self.owners_list@);
        }
        r
    }

    pub fn is_owner(&self, owner: AccountId) -> (r: bool)
        ensures
            r == self@.is_owner(owner),
    {
        self.owner_position(&owner).is_some()
    }

    pub fn get_threshold(&self) -> (r: u8)
        ensures
            r == self@.threshold,
    {
        self.threshold
    }

    /// The id the next proposal will get.
    pub fn get_next_tx_id(&self) -> (r: TxId)
        ensures
            r == self@.next_tx_id,
    {
        self.next_tx_id
    }

    /// Ids of the pending transactions, in order of proposal.
    pub fn get_active_txid_list(&self) -> (r: Vec<TxId>)
        ensures
            r@ == self@.ids(),
    {
        let mut r: Vec<TxId> = Vec::new();
        let mut i: usize = 0;
        while i < self.txs.len()
            invariant
                0 <= i <= self.txs.len(),
                r@ == self@.ids().subrange(0, i as int),
            decreases self.txs.len() - i,
        {
            r.push(self.txs[i].id);
            proof {
                assert(self@.ids().subrange(0, i + 1) =~= self@.ids().subrange(0, i as int).push(
                    self@.ids()[i as int],
                ));
            }
            i = i + 1;
        }
        proof {
            assert(self@.ids().subrange(0, self.txs.len() as int) =~= self@.ids());
        }
        r
    }

    /// The pending transaction `index`, if there is one.
    pub fn get_tx(&self, index: TxId) -> (r: Option<Transaction>)
        requires
            self@.wf(),
        ensures
            r is Some <==> self@.has_tx(index),
            r matches Some(t) ==> t.same_call(&self@.entry(index).tx),
    {
        match self.find_tx(index) {
            Some(i) => {
                assert(self@.txs[i as int] == self.txs@[i as int]@);
                Some(self.txs[i].tx.duplicate())
            },
            None => None,
        }
    }

    /// `Ok` when `tx_id` names a pending transaction.
    pub fn is_tx_valid(&self, tx_id: TxId) -> (r: Result<(), Error>)
        requires
            self@.wf(),
        ensures
            r == if self@.has_tx(tx_id) {
                Ok::<(), Error>(())
            } else {
                Err(Error::InvalidTxId)
            },
    {
        match self.find_tx(tx_id) {
            Some(_) => Ok(()),
            None => Err(Error::InvalidTxId),
        }
    }

    pub fn get_tx_approvals(&self, tx_id: TxId) -> (r: Option<u8>)
        requires
            self@.wf(),
        ensures
            r == self@.approvals_of(tx_id),
    {
        match self.find_tx(tx_id) {
            Some(i) => {
                assert(self@.txs[i as int] == self.txs@[i as int]@);
                Some(self.txs[i].approvals)
            },
            None => None,
        }
    }

    pub fn get_tx_rejections(&self, tx_id: TxId) -> (r: Option<u8>)
        requires
            self@.wf(),
        ensures
            r == self@.rejections_of(tx_id),
    {
        match self.find_tx(tx_id) {
            Some(i) => {
                assert(self@.txs[i as int] == self.txs@[i as int]@);
                Some(self.txs[i].rejections)
            },
            None => None,
        }
    }

    /// The vote of `owner` on `tx_id`: `true` for an approval, `false` for a rejection.
    pub fn get_tx_approval_for_account(&self, tx_id: TxId, owner: AccountId) -> (r: Option<bool>)
        requires
            self@.wf(),
        ensures
            r == self@.vote_of(tx_id, owner),
    {
        match self.find_tx(tx_id) {
            Some(i) => {
                assert(self@.txs[i as int] == self.txs@[i as int]@);
                match vote_position(&self.txs[i].votes, &owner) {
                    Some(k) => {
                        proof {
                            assert(one_vote_each(self@.txs[i as int].votes));
                            lemma_vote_in(self@.txs[i as int].votes, k as int);
                        }
                        Some(self.txs[i].votes[k].approved)
                    },
                    None => None,
                }
            },
            None => None,
        }
    }
}


/// Whether no account occurs twice in `v`.
fn distinct_accounts(v: &Vec<AccountId>) -> (r: bool)
    ensures
        r == v@.no_duplicates(),
{
    let mut i: usize = 0;
    while i < v.len()
        invariant
            0 <= i <= v.len(),
            forall|a: int, b: int| 0 <= a < i && 0 <= b < v.len() && a != b ==> v@[a] != v@[b],
        decreases v.len() - i,
    {
        let mut j: usize = 0;
        while j < v.len()
            invariant
                0 <= i < v.len(),
                0 <= j <= v.len(),
                forall|a: int, b: int| 0 <= a < i && 0 <= b < v.len() && a != b ==> v@[a] != v@[b],
                forall|b: int| 0 <= b < j && b != i ==> v@[i as int] != v@[b],
            decreases v.len() - j,
        {
            if j != i && v[i].same(&v[j]) {
                return false;
            }
            j = j + 1;
        }
        i = i + 1;
    }
    true
}

/// Whether no owner has two votes in `votes`.
fn distinct_voters(votes: &Vec<Vote>) -> (r: bool)
    ensures
        r == one_vote_each(votes@),
{
    let mut i: usize = 0;
    while i < votes.len()
        invariant
            0 <= i <= votes.len(),
            forall|a: int, b: int|
                0 <= a < i && 0 <= b < votes.len() && a != b ==> votes@[a].owner != votes@[b].owner,
        decreases votes.len() - i,
    {
        let mut j: usize = 0;
        while j < votes.len()
            invariant
                0 <= i < votes.len(),
                0 <= j <= votes.len(),
                forall|a: int, b: int|
                    0 <= a < i && 0 <= b < votes.len() && a != b ==> votes@[a].owner != votes@[b].owner,
                forall|b: int| 0 <= b < j && b != i ==> votes@[i as int].owner != votes@[b].owner,
            decreases votes.len() - j,
        {
            if j != i && votes[i].owner.same(&votes[j].owner) {
                assert(votes@[i as int].owner == votes@[j as int].owner);
                return false;
            }
            j = j + 1;
        }
        i = i + 1;
    }
    proof {
        assert forall|a: int, b: int|
            0 <= a < votes.len() && 0 <= b < votes.len() && #[trigger] votes@[a].owner
                == #[trigger] votes@[b].owner implies a == b by {
            if a != b {
                assert(votes@[a].owner != votes@[b].owner);
            }
        }
    }
    true
}

/// Number of votes of the given kind in `votes`.
fn count_of(votes: &Vec<Vote>, approved: bool) -> (r: usize)
    ensures
        r == count_votes(votes@, approved),
{
    let mut r: usize = 0;
    let mut k: usize = 0;
    while k < votes.len()
        invariant
            0 <= k <= votes.len(),
            r <= k,
            r == count_votes(votes@.subrange(0, k as int), approved),
        decreases votes.len() - k,
    {
        proof {
            assert(votes@.subrange(0, k + 1) =~= votes@.subrange(0, k as int).push(votes@[k as int]));
            lemma_count_votes_push(votes@.subrange(0, k as int), votes@[k as int], approved);
        }
        if votes[k].approved == approved {
            r = r + 1;
        }
        k = k + 1;
    }
    proof {
        assert(votes@.subrange(0, votes.len() as int) =~= votes@);
    }
    r
}

impl MultiSig {
    /// Whether this state satisfies the wallet's invariant, as a state read from storage must.
    pub fn is_well_formed(&self) -> (r: bool)
        ensures
            r == self@.wf(),
    {
        if self.threshold < 1 || self.threshold as usize > self.owners_list.len()
            || self.owners_list.len() > MAX_OWNERS {
            return false;
        }
        if !distinct_accounts(&self.owners_list) {
            return false;
        }
        if self.txs.len() > MAX_TRANSACTIONS {
            return false;
        }
        let mut i: usize = 0;
        while i < self.txs.len()
            invariant
                0 <= i <= self.txs.len(),
                forall|a: int, b: int| 0 <= a < b < i ==> #[trigger] self@.txs[a].id < #[trigger] self@.txs[b].id,
                forall|a: int| 0 <= a < i ==> #[trigger] self@.txs[a].id < self@.next_tx_id,
                forall|a: int| 0 <= a < i ==> one_vote_each(#[trigger] self@.txs[a].votes),
                forall|a: int| 0 <= a < i ==> tally_matches(#[trigger] self@.txs[a]),
            decreases self.txs.len() - i,
        {
            assert(self@.txs[i as int] == self.txs@[i as int]@);
            if self.txs[i].id >= self.next_tx_id {
                assert(!(self@.txs[i as int].id < self@.next_tx_id));
                return false;
            }
            if i > 0 && self.txs[i - 1].id >= self.txs[i].id {
                assert(self@.txs[i - 1] == self.txs@[i - 1]@);
                assert(!(self@.txs[i - 1].id < self@.txs[i as int].id));
                return false;
            }
            if !distinct_voters(&self.txs[i].votes) {
                assert(!one_vote_each(self@.txs[i as int].votes));
                return false;
            }
            if self.txs[i].approvals as usize != count_of(&self.txs[i].votes, true)
                || self.txs[i].rejections as usize != count_of(&self.txs[i].votes, false)
                || self.txs[i].rejections as usize >= MAX_OWNERS {
                assert(!tally_matches(self@.txs[i as int]));
                return false;
            }
            proof {
                if i > 0 {
                    assert(self@.txs[i - 1] == self.txs@[i - 1]@);
                }
                assert forall|a: int, b: int| 0 <= a < b < i + 1 implies #[trigger] self@.txs[a].id
                    < #[trigger] self@.txs[b].id by {
                    if b == i && a < i - 1 {
                        assert(self@.txs[a].id < self@.txs[i - 1].id);
                    }
                }
            }
            i = i + 1;
        }
        true
    }
}

} // verus!
