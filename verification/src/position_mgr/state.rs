//! Positions and the events about them.

use vstd::prelude::*;

use crate::arith::{saturating_mul, wrapping_difference, Q64};
use crate::position_mgr::liquidity_math::clamp_u64;
use crate::pubkey::{is_default_key, Pubkey};

verus! {

/// One position: liquidity in a price range, on record for the holder of its NFT.
#[derive(Clone, Copy, Debug, PartialEq, Eq)]
pub struct Position {
    pub pool: Pubkey,
    /// Who opened the position. The position belongs to whoever holds the NFT.
    pub owner: Pubkey,
    /// The mint of the NFT receipt, which identifies the position.
    pub nft_mint: Pubkey,
    pub tick_lower: i32,
    pub tick_upper: i32,
    pub liquidity: u128,
    /// The pool's fee growth when the position's fees were last settled.
    pub fee_growth_checkpoint_0: u128,
    pub fee_growth_checkpoint_1: u128,
    /// Fees that are settled and not yet collected.
    pub tokens_owed_0: u64,
    pub tokens_owed_1: u64,
    /// Bump of the position's address.
    pub bump: u8,
    pub _padding: [u8; 7],
}

/// Fees of `liquidity` since a checkpoint: `(growth - checkpoint) * liquidity / 2^64`,
/// clamped at 64 bits. The difference wraps around.
pub open spec fn fees_since(growth: u128, checkpoint: u128, liquidity: u128) -> int {
    clamp_u64((wrapping_difference(growth, checkpoint) * liquidity) / Q64 as int) as int
}

impl Position {
    /// Account space: discriminator, three addresses, two ticks, liquidity, two checkpoints,
    /// two amounts owed, bump and padding.
    pub const LEN: usize = 8 + 32 + 32 + 32 + 4 + 4 + 16 + 16 + 16 + 8 + 8 + 1 + 7;

    /// Fees of both tokens since the last checkpoint.
    pub fn compute_fees_owed(&self, fee_growth_inside_0: u128, fee_growth_inside_1: u128) -> (r: (
        u64,
        u64,
    ))
        ensures
            r.0 == fees_since(fee_growth_inside_0, self.fee_growth_checkpoint_0, self.liquidity),
            r.1 == fees_since(fee_growth_inside_1, self.fee_growth_checkpoint_1, self.liquidity),
    {
        let delta_0: u128 = fee_growth_inside_0.wrapping_sub(self.fee_growth_checkpoint_0);
        let delta_1: u128 = fee_growth_inside_1.wrapping_sub(self.fee_growth_checkpoint_1);
        let fee_0: u64 = (saturating_mul(delta_0, self.liquidity) / Q64) as u64;
        let fee_1: u64 = (saturating_mul(delta_1, self.liquidity) / Q64) as u64;
        (fee_0, fee_1)
    }
}

impl Default for Position {
    fn default() -> (r: Self)
        ensures
            is_default_key(r.pool) && is_default_key(r.owner) && is_default_key(r.nft_mint),
            r.tick_lower == 0 && r.tick_upper == 0 && r.liquidity == 0,
            r.fee_growth_checkpoint_0 == 0 && r.fee_growth_checkpoint_1 == 0,
            r.tokens_owed_0 == 0 && r.tokens_owed_1 == 0 && r.bump == 0,
            forall|i: int| 0 <= i < 7 ==> r._padding@[i] == 0,
    {
        Position {
            pool: Pubkey::default(),
            owner: Pubkey::default(),
            nft_mint: Pubkey::default(),
            tick_lower: 0,
            tick_upper: 0,
            liquidity: 0,
            fee_growth_checkpoint_0: 0,
            fee_growth_checkpoint_1: 0,
            tokens_owed_0: 0,
            tokens_owed_1: 0,
            bump: 0,
            _padding: [0; 7],
        }
    }
}

/// What the opening of a position reports.
#[derive(Clone, Copy, Debug, PartialEq, Eq)]
pub struct PositionOpenedEvent {
    pub position: Pubkey,
    pub pool: Pubkey,
    pub owner: Pubkey,
    pub nft_mint: Pubkey,
    pub tick_lower: i32,
    pub tick_upper: i32,
    pub liquidity: u128,
    pub amount_0: u64,
    pub amount_1: u64,
}

/// What the closing of a position reports.
#[derive(Clone, Copy, Debug, PartialEq, Eq)]
pub struct PositionClosedEvent {
    pub position: Pubkey,
    pub pool: Pubkey,
    pub owner: Pubkey,
    pub liquidity: u128,
    pub amount_0: u64,
    pub amount_1: u64,
    pub fees_0: u64,
    pub fees_1: u64,
}

/// What a collection of fees reports.
#[derive(Clone, Copy, Debug, PartialEq, Eq)]
pub struct FeesCollectedEvent {
    pub position: Pubkey,
    pub owner: Pubkey,
    pub fees_0: u64,
    pub fees_1: u64,
}

} // verus!
