use vstd::prelude::*;

use crate::account::AccountId;

verus! {

/// Hash of the code that new wallets are instantiated from.
pub type Hash = [u8; 32];

/// Errors of the factory.
#[derive(Clone, Copy, Debug, PartialEq, Eq)]
pub enum Error {
    /// The wallet could not be instantiated.
    InstantiationFailed,
}

/// A wallet was deployed.
#[derive(Clone, Debug, PartialEq, Eq)]
pub struct NewMultisig {
    /// Address of the new wallet
    pub multisig_address: AccountId,
    /// Its threshold
    pub threshold: u8,
    /// The owners it was created with
    pub owners_list: Vec<AccountId>,
    /// The salt used to derive its address
    pub salt: Vec<u8>,
}

/// Deploys wallets from one code hash.
#[derive(Clone, Copy, Debug, PartialEq, Eq)]
pub struct MultiSigFactory {
    pub multisig_codehash: Hash,
}

impl MultiSigFactory {
    /// A factory for wallets of the code `codehash`.
    pub fn new(codehash: Hash) -> (r: Result<MultiSigFactory, Error>)
        ensures
            r == Ok::<MultiSigFactory, Error>(MultiSigFactory { multisig_codehash: codehash }),
    {
        Ok(MultiSigFactory { multisig_codehash: codehash })
    }

    /// The announcement of a wallet deployed with `threshold`, `owners_list` and `salt`,
    /// given where the deployment put it (`None` when it failed).
    pub fn new_multisig(
        &self,
        threshold: u8,
        owners_list: Vec<AccountId>,
        salt: Vec<u8>,
        deployed: Option<AccountId>,
    ) -> (r: Result<NewMultisig, Error>)
        ensures
            r == match deployed {
                Some(a) => Ok::<NewMultisig, Error>(
                    NewMultisig { multisig_address: a, threshold, owners_list, salt },
                ),
                None => Err(Error::InstantiationFailed),
            },
    {
        match deployed {
            Some(multisig_address) => Ok(NewMultisig { multisig_address, threshold, owners_list, salt }),
            None => Err(Error::InstantiationFailed),
        }
    }
}

} // verus!
