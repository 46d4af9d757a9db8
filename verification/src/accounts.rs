//! Token accounts as the programs read them, and the token transfers that they order.

use vstd::prelude::*;

use crate::pubkey::Pubkey;

verus! {

/// A token account: its address, and the mint, the owner and the balance it records.
#[derive(Clone, Copy, Debug, PartialEq, Eq)]
pub struct TokenAccount {
    pub key: Pubkey,
    pub mint: Pubkey,
    pub owner: Pubkey,
    pub amount: u64,
}

/// The account holds this mint's tokens and belongs to this owner.
pub open spec fn is_token_account_of(account: TokenAccount, mint: Pubkey, owner: Pubkey) -> bool {
    account.mint == mint && account.owner == owner
}

/// Whether an account holds a mint's tokens and belongs to an owner.
pub fn belongs_to(account: &TokenAccount, mint: &Pubkey, owner: &Pubkey) -> (r: bool)
    ensures
        r == is_token_account_of(*account, *mint, *owner),
{
    account.mint == *mint && account.owner == *owner
}

/// A transfer between token accounts, signed by `authority`.
#[derive(Clone, Copy, Debug, PartialEq, Eq)]
pub struct TokenTransfer {
    pub from: Pubkey,
    pub to: Pubkey,
    pub authority: Pubkey,
    pub amount: u64,
}

} // verus!
