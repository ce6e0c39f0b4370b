use vstd::prelude::*;

use crate::address::Address;

verus! {

/// Where an aggregate lives in the ledger's storage.
pub enum DataKey {
    Admin,
    UserAssets(Address),
    UserTransactions(Address),
    UserGoals(Address),
}

/// Something an owner holds; a negative amount is a liability.
pub struct Asset {
    pub asset_type: String,
    pub amount: i128,
    pub description: String,
}

/// A movement of money, stamped with the ledger's time when recorded.
pub struct Transaction {
    pub timestamp: u64,
    pub transaction_type: String,
    pub amount: i128,
    pub description: String,
}

/// A savings target and the progress made towards it.
pub struct Goal {
    pub name: String,
    pub target_amount: i128,
    pub current_amount: i128,
    pub deadline: u64,
}

/// Why an operation was refused. A refused operation changes nothing.
#[derive(Debug, PartialEq, Eq, Structural)]
pub enum FinanceError {
    /// The administrator was already set.
    AlreadyInitialized,
    /// No valid proof of identity for the owner the operation names.
    Unauthorized,
    /// The owner has no stored goal list.
    MissingGoals,
    /// The goal index is not below the number of goals.
    IndexOutOfRange,
    /// The administrator was never set.
    NotInitialized,
    /// A sum left the range of `i128`.
    ArithmeticOverflow,
}

impl Clone for DataKey {
    fn clone(&self) -> (r: DataKey)
        ensures
            r == *self,
    {
        match self {
            DataKey::Admin => DataKey::Admin,
            DataKey::UserAssets(a) => DataKey::UserAssets(a.clone()),
            DataKey::UserTransactions(a) => DataKey::UserTransactions(a.clone()),
            DataKey::UserGoals(a) => DataKey::UserGoals(a.clone()),
        }
    }
}

impl Clone for Asset {
    fn clone(&self) -> (r: Asset)
        ensures
            r == *self,
    {
        Asset {
            asset_type: self.asset_type.clone(),
            amount: self.amount,
            description: self.description.clone(),
        }
    }
}

impl Clone for Transaction {
    fn clone(&self) -> (r: Transaction)
        ensures
            r == *self,
    {
        Transaction {
            timestamp: self.timestamp,
            transaction_type: self.transaction_type.clone(),
            amount: self.amount,
            description: self.description.clone(),
        }
    }
}

impl Clone for Goal {
    fn clone(&self) -> (r: Goal)
        ensures
            r == *self,
    {
        Goal {
            name: self.name.clone(),
            target_amount: self.target_amount,
            current_amount: self.current_amount,
            deadline: self.deadline,
        }
    }
}

} // verus!
