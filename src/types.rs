use vstd::prelude::*;

use crate::account::AccountId;

verus! {

/// Identifier of a proposed transaction.
pub type TxId = u128;

/// Amount of native currency.
pub type Balance = u128;

/// Language-level error reported by a callee that ran but refused the call.
#[derive(Clone, Copy, Debug, PartialEq, Eq)]
pub enum LangError {
    /// The callee could not decode its input.
    CouldNotReadInput,
}

/// Errors of the engine.
#[derive(Clone, Debug, PartialEq, Eq)]
pub enum Error {
    /// Environment error encountered when executing the transaction
    EnvExecutionFailed(String),
    /// Transaction executed but a language error was encountered
    LangExecutionFailed(LangError),
    /// The owners list cannot be empty
    OwnersCantBeEmpty,
    /// The threshold cannot be greater than the number of owners
    ThresholdGreaterThanOwners,
    /// The threshold cannot be zero
    ThresholdCantBeZero,
    /// The operation can only be performed by the wallet itself
    Unauthorized,
    /// No more owners can be added
    MaxOwnersReached,
    /// The owner already exists
    OwnerAlreadyExists,
    /// The caller is not an owner
    NotOwner,
    /// The maximum number of active transactions has been reached
    MaxTransactionsReached,
    /// The transaction id counter would overflow
    TxIdOverflow,
    /// The transaction's approval counter is full
    ApprovalsOverflow,
    /// The caller has already voted
    AlreadyVoted,
    /// The transaction id is not valid
    InvalidTxId,
    /// The transfer has failed
    TransferFailed,
}

/// Outcome of executing a transaction.
#[derive(Clone, Debug, PartialEq, Eq)]
pub enum TxResult {
    /// Executed; the callee returned these bytes
    Success(Vec<u8>),
    /// Execution failed with this error
    Failed(Error),
}

/// A call to be performed once enough owners approve it.
#[derive(Clone, Debug, PartialEq, Eq)]
pub struct Transaction {
    /// Account to be called
    pub address: AccountId,
    /// Selector of the message to be called
    pub selector: [u8; 4],
    /// Encoded arguments of the call
    pub input: Vec<u8>,
    /// Value transferred with the call
    pub transferred_value: Balance,
    /// Gas limit of the call
    pub gas_limit: u64,
    /// Whether the callee may call back into the wallet
    pub allow_reentry: bool,
}

/// A recorded vote of one owner on one transaction.
#[derive(Clone, Copy, Debug, PartialEq, Eq)]
pub struct Vote {
    pub owner: AccountId,
    /// `true` for an approval, `false` for a rejection
    pub approved: bool,
}

/// A copy of a byte vector.
pub fn copy_bytes(v: &Vec<u8>) -> (r: Vec<u8>)
    ensures
        r@ == v@,
{
    let mut r: Vec<u8> = Vec::new();
    let mut i: usize = 0;
    while i < v.len()
        invariant
            0 <= i <= v.len(),
            r@ == v@.subrange(0, i as int),
        decreases v.len() - i,
    {
        r.push(v[i]);
        proof {
            assert(v@.subrange(0, i + 1) =~= v@.subrange(0, i as int).push(v@[i as int]));
        }
        i = i + 1;
    }
    proof {
        assert(v@.subrange(0, v.len() as int) =~= v@);
    }
    r
}

impl Transaction {
    /// Same call: equal fields, input compared by content.
    pub open spec fn same_call(&self, other: &Transaction) -> bool {
        &&& self.address == other.address
        &&& self.selector == other.selector
        &&& self.input@ == other.input@
        &&& self.transferred_value == other.transferred_value
        &&& self.gas_limit == other.gas_limit
        &&& self.allow_reentry == other.allow_reentry
    }

    /// A copy of this transaction.
    pub fn duplicate(&self) -> (r: Transaction)
        ensures
            r.same_call(self),
    {
        Transaction {
            address: self.address,
            selector: self.selector,
            input: copy_bytes(&self.input),
            transferred_value: self.transferred_value,
            gas_limit: self.gas_limit,
            allow_reentry: self.allow_reentry,
        }
    }
}

/// The threshold was changed.
#[derive(Clone, Copy, Debug, PartialEq, Eq)]
pub struct ThresholdChanged {
    pub threshold: u8,
}

/// An owner was added.
#[derive(Clone, Copy, Debug, PartialEq, Eq)]
pub struct OwnerAdded {
    pub owner: AccountId,
}

/// An owner was removed.
#[derive(Clone, Copy, Debug, PartialEq, Eq)]
pub struct OwnerRemoved {
    pub owner: AccountId,
}

/// A transaction was proposed.
#[derive(Clone, Debug, PartialEq, Eq)]
pub struct TransactionProposed {
    pub tx_id: TxId,
    pub contract_address: AccountId,
    pub selector: [u8; 4],
    pub input: Vec<u8>,
    pub transferred_value: Balance,
    pub gas_limit: u64,
    pub allow_reentry: bool,
}

/// An owner approved a transaction.
#[derive(Clone, Copy, Debug, PartialEq, Eq)]
pub struct Approve {
    pub tx_id: TxId,
    pub owner: AccountId,
}

/// An owner rejected a transaction.
#[derive(Clone, Copy, Debug, PartialEq, Eq)]
pub struct Reject {
    pub tx_id: TxId,
    pub owner: AccountId,
}

/// A transaction was executed.
#[derive(Clone, Debug, PartialEq, Eq)]
pub struct TransactionExecuted {
    pub tx_id: TxId,
    pub result: TxResult,
}

/// A transaction was cancelled because its threshold can no longer be met.
#[derive(Clone, Copy, Debug, PartialEq, Eq)]
pub struct TransactionCancelled {
    pub tx_id: TxId,
}

/// A transaction was removed.
#[derive(Clone, Copy, Debug, PartialEq, Eq)]
pub struct TransactionRemoved {
    pub tx_id: TxId,
}

/// Funds were transferred out of the wallet.
#[derive(Clone, Copy, Debug, PartialEq, Eq)]
pub struct Transfer {
    pub to: AccountId,
    pub value: Balance,
}

/// The events the wallet publishes, in the order it publishes them.
#[derive(Clone, Debug, PartialEq, Eq)]
pub enum Event {
    ThresholdChanged(ThresholdChanged),
    OwnerAdded(OwnerAdded),
    OwnerRemoved(OwnerRemoved),
    TransactionProposed(TransactionProposed),
    Approve(Approve),
    Reject(Reject),
    TransactionExecuted(TransactionExecuted),
    TransactionCancelled(TransactionCancelled),
    TransactionRemoved(TransactionRemoved),
    Transfer(Transfer),
}

/// Whether `e` announces the proposal of `tx` under `tx_id`.
pub open spec fn announces_proposal(e: Event, tx_id: TxId, tx: Transaction) -> bool {
    match e {
        Event::TransactionProposed(p) => {
            &&& p.tx_id == tx_id
            &&& p.contract_address == tx.address
            &&& p.selector == tx.selector
            &&& p.input@ == tx.input@
            &&& p.transferred_value == tx.transferred_value
            &&& p.gas_limit == tx.gas_limit
            &&& p.allow_reentry == tx.allow_reentry
        },
        _ => false,
    }
}

} // verus!
