//! The pool account and the event of a swap.

use vstd::prelude::*;

use crate::bytes::{le_bytes, le_bytes_of};
use crate::pubkey::{is_default_key, Pubkey};

verus! {

/// One pool: a pair of tokens at one fee rate.
#[derive(Clone, Copy, Debug, PartialEq, Eq)]
pub struct Pool {
    /// The mint that comes first in byte order.
    pub token_mint_0: Pubkey,
    pub token_mint_1: Pubkey,
    pub token_vault_0: Pubkey,
    pub token_vault_1: Pubkey,
    pub tick_manager_program: Pubkey,
    /// Current square root price in Q64.64.
    pub sqrt_price: u128,
    pub tick_current: i32,
    pub _padding: [u8; 4],
    /// Liquidity of the positions whose range holds the current tick.
    pub liquidity: u128,
    /// Parts of a million.
    pub fee_rate: u32,
    /// Fees per unit of liquidity ever earned, in Q64.64.
    pub fee_growth_global_0: u128,
    pub fee_growth_global_1: u128,
    pub protocol_fee_0: u64,
    pub protocol_fee_1: u64,
    /// Bump of the pool's address.
    pub bump: u8,
    /// Swaps are refused until this is set.
    pub initialized: bool,
    pub _padding2: [u8; 6],
}

/// The seeds that a pool signs with: a label, both mints, the fee rate and the bump.
#[derive(Clone, Copy, Debug, PartialEq, Eq)]
pub struct PoolSeeds {
    pub label: [u8; 4],
    pub token_mint_0: Pubkey,
    pub token_mint_1: Pubkey,
    pub fee_rate: [u8; 4],
    pub bump: [u8; 1],
}

impl Pool {
    /// Account space: discriminator, five addresses, price, tick and padding, liquidity, fee
    /// rate, two fee growths, two protocol fees, bump and flag, padding.
    pub const LEN: usize = 8 + 160 + 16 + 8 + 16 + 4 + 32 + 16 + 2 + 6;

    /// The seeds of this pool's address.
    pub open spec fn has_seeds(self, seeds: PoolSeeds) -> bool {
        &&& seeds.label@ == seq![0x70u8, 0x6f, 0x6f, 0x6c]
        &&& seeds.token_mint_0 == self.token_mint_0
        &&& seeds.token_mint_1 == self.token_mint_1
        &&& seeds.fee_rate@ == le_bytes_of(self.fee_rate)
        &&& seeds.bump@ == seq![self.bump]
    }

    /// The seeds that sign for this pool: `"pool"`, the mints, the fee rate's bytes, the bump.
    pub fn signer_seeds(&self) -> (r: PoolSeeds)
        ensures
            self.has_seeds(r),
    {
        let label: [u8; 4] = [0x70, 0x6f, 0x6f, 0x6c];
        let bump: [u8; 1] = [self.bump];
        assert(label@ =~= seq![0x70u8, 0x6f, 0x6f, 0x6c]);
        assert(bump@ =~= seq![self.bump]);
        PoolSeeds {
            label,
            token_mint_0: self.token_mint_0,
            token_mint_1: self.token_mint_1,
            fee_rate: le_bytes(self.fee_rate),
            bump,
        }
    }
}

impl Default for Pool {
    fn default() -> (r: Self)
        ensures
            is_default_key(r.token_mint_0) && is_default_key(r.token_mint_1),
            is_default_key(r.token_vault_0) && is_default_key(r.token_vault_1),
            is_default_key(r.tick_manager_program),
            r.sqrt_price == 0 && r.tick_current == 0 && r.liquidity == 0 && r.fee_rate == 0,
            r.fee_growth_global_0 == 0 && r.fee_growth_global_1 == 0,
            r.protocol_fee_0 == 0 && r.protocol_fee_1 == 0,
            r.bump == 0 && !r.initialized,
            forall|i: int| 0 <= i < 4 ==> r._padding@[i] == 0,
            forall|i: int| 0 <= i < 6 ==> r._padding2@[i] == 0,
    {
        Pool {
            token_mint_0: Pubkey::default(),
            token_mint_1: Pubkey::default(),
            token_vault_0: Pubkey::default(),
            token_vault_1: Pubkey::default(),
            tick_manager_program: Pubkey::default(),
            sqrt_price: 0,
            tick_current: 0,
            _padding: [0; 4],
            liquidity: 0,
            fee_rate: 0,
            fee_growth_global_0: 0,
            fee_growth_global_1: 0,
            protocol_fee_0: 0,
            protocol_fee_1: 0,
            bump: 0,
            initialized: false,
            _padding2: [0; 6],
        }
    }
}

/// What a completed swap reports.
#[derive(Clone, Copy, Debug, PartialEq, Eq)]
pub struct SwapEvent {
    pub pool: Pubkey,
    pub zero_for_one: bool,
    pub amount_in: u64,
    pub amount_out: u64,
    pub sqrt_price_before: u128,
    pub sqrt_price_after: u128,
    pub tick_before: i32,
    pub tick_after: i32,
    pub fee_amount: u64,
}

} // verus!
