//! What setting up a pool, changing its liquidity and paying out of its vaults promise, in
//! terms of the accounts and the orders.

use vstd::prelude::*;

use crate::pool_core::{
    liquidity_modified, pool_set_up, vault_transfer_ordered, InitializePool, ModifyLiquidity,
    PoolError, TransferFromVault, VaultTransfer,
};
use crate::pubkey::lex_less;

verus! {

/// A pool is set up where the price is positive, the fee rate is a proper part of a million and
/// the first mint's address comes before the second's: at the first byte in which they differ,
/// it has the smaller one. It is refused for the first of these that fails, and then nothing
/// changes.
pub proof fn law_pools_are_set_up_for_sorted_mints(
    before: InitializePool,
    initial_sqrt_price: u128,
    fee_rate: u32,
    initial_tick: i32,
    after: InitializePool,
    r: Result<(), PoolError>,
    place: int,
)
    requires
        pool_set_up(before, initial_sqrt_price, fee_rate, initial_tick, after, r),
        0 <= place < 32,
        forall|i: int|
            0 <= i < place ==> before.token_mint_0.bytes@[i] == before.token_mint_1.bytes@[i],
        before.token_mint_0.bytes@[place] != before.token_mint_1.bytes@[place],
    ensures
        ({
            let first = before.token_mint_0.bytes@[place];
            let second = before.token_mint_1.bytes@[place];
            &&& r is Ok <==> initial_sqrt_price > 0 && 0 < fee_rate < 1_000_000 && first < second
            &&& initial_sqrt_price == 0 ==> r == Err::<(), PoolError>(PoolError::InvalidSqrtPrice)
            &&& initial_sqrt_price > 0 && !(0 < fee_rate < 1_000_000) ==> r == Err::<
                (),
                PoolError,
            >(PoolError::InvalidFeeRate)
            &&& initial_sqrt_price > 0 && 0 < fee_rate < 1_000_000 && first > second ==> r == Err::<
                (),
                PoolError,
            >(PoolError::InvalidTokenOrder)
        }),
        r is Err ==> after == before,
{
    let a = before.token_mint_0.bytes@;
    let b = before.token_mint_1.bytes@;
    if a[place] < b[place] {
        assert(lex_less(a, b));
    } else if lex_less(a, b) {
        let i = choose|i: int|
            0 <= i < 32 && #[trigger] a[i] < b[i] && (forall|j: int| 0 <= j < i ==> a[j] == b[j]);
        assert(a[i] < b[i]);
        if i < place {
            assert(a[i] == b[i]);
        } else {
            assert(place < i ==> a[place] == b[place]);
        }
    }
}

/// No pool is set up for one mint with itself.
pub proof fn law_pools_are_of_two_mints(
    before: InitializePool,
    initial_sqrt_price: u128,
    fee_rate: u32,
    initial_tick: i32,
    after: InitializePool,
    r: Result<(), PoolError>,
)
    requires
        pool_set_up(before, initial_sqrt_price, fee_rate, initial_tick, after, r),
        before.token_mint_0 == before.token_mint_1,
    ensures
        r is Err,
        after == before,
{
}

/// A pool that is set up records the addresses it was given, the price, the fee rate and the
/// tick, and starts without liquidity, fees or protocol fees.
pub proof fn law_new_pool_records_its_arguments(
    before: InitializePool,
    initial_sqrt_price: u128,
    fee_rate: u32,
    initial_tick: i32,
    after: InitializePool,
    r: Result<(), PoolError>,
)
    requires
        pool_set_up(before, initial_sqrt_price, fee_rate, initial_tick, after, r),
        r is Ok,
    ensures
        after.pool.token_mint_0 == before.token_mint_0,
        after.pool.token_mint_1 == before.token_mint_1,
        after.pool.token_vault_0 == before.token_vault_0,
        after.pool.token_vault_1 == before.token_vault_1,
        after.pool.tick_manager_program == before.tick_manager_program,
        after.pool.sqrt_price == initial_sqrt_price,
        after.pool.tick_current == initial_tick,
        after.pool.liquidity == 0,
        after.pool.fee_rate == fee_rate,
        after.pool.fee_growth_global_0 == 0,
        after.pool.fee_growth_global_1 == 0,
        after.pool.protocol_fee_0 == 0,
        after.pool.protocol_fee_1 == 0,
        after.pool.bump == before.pool_bump,
        after.pool.initialized,
        after.pool_bump == before.pool_bump,
        after.token_mint_0 == before.token_mint_0,
        after.token_mint_1 == before.token_mint_1,
        after.token_vault_0 == before.token_vault_0,
        after.token_vault_1 == before.token_vault_1,
        after.tick_manager_program == before.tick_manager_program,
{
}

/// The liquidity of every pool that is set up can be changed. Where the range holds the current
/// tick, the change is added to the active liquidity, clamped between zero and 128 bits;
/// elsewhere nothing changes. Nothing else of the pool does, and nothing of one that is not set
/// up.
pub proof fn law_active_liquidity_changes_by_delta(
    before: ModifyLiquidity,
    liquidity_delta: i128,
    tick_lower: i32,
    tick_upper: i32,
    after: ModifyLiquidity,
    r: Result<(), PoolError>,
)
    requires
        liquidity_modified(before, liquidity_delta, tick_lower, tick_upper, after, r),
    ensures
        r is Ok <==> before.pool.initialized,
        r is Err ==> r->Err_0 == PoolError::PoolNotInitialized && after == before,
        ({
            let sum = before.pool.liquidity + liquidity_delta;
            let active = tick_lower <= before.pool.tick_current < tick_upper;
            &&& r is Ok && active && 0 <= sum <= u128::MAX ==> after.pool.liquidity == sum
            &&& r is Ok && active && sum < 0 ==> after.pool.liquidity == 0
            &&& r is Ok && active && sum > u128::MAX ==> after.pool.liquidity == u128::MAX
            &&& !active ==> after.pool.liquidity == before.pool.liquidity
        }),
        after.pool.token_mint_0 == before.pool.token_mint_0,
        after.pool.token_mint_1 == before.pool.token_mint_1,
        after.pool.token_vault_0 == before.pool.token_vault_0,
        after.pool.token_vault_1 == before.pool.token_vault_1,
        after.pool.tick_manager_program == before.pool.tick_manager_program,
        after.pool.sqrt_price == before.pool.sqrt_price,
        after.pool.tick_current == before.pool.tick_current,
        after.pool.fee_rate == before.pool.fee_rate,
        after.pool.fee_growth_global_0 == before.pool.fee_growth_global_0,
        after.pool.fee_growth_global_1 == before.pool.fee_growth_global_1,
        after.pool.protocol_fee_0 == before.pool.protocol_fee_0,
        after.pool.protocol_fee_1 == before.pool.protocol_fee_1,
        after.pool.bump == before.pool.bump,
        after.pool.initialized == before.pool.initialized,
{
}

/// A transfer out of a vault is ordered for every positive amount, from a vault of the mint
/// that the index names: the first for index 0, the second for any other. It goes to the
/// destination and is signed by the pool, whose seeds are those of its address. Nothing is
/// ordered for an amount of zero.
pub proof fn law_vaults_pay_what_is_asked(
    ctx: TransferFromVault,
    vault_index: u8,
    amount: u64,
    r: Result<Option<VaultTransfer>, PoolError>,
)
    requires
        vault_transfer_ordered(ctx, vault_index, amount, r),
    ensures
        amount == 0 ==> r is Ok && r->Ok_0 is None,
        ({
            let fits = if vault_index == 0 {
                ctx.vault.mint == ctx.pool.token_mint_0
            } else {
                ctx.vault.mint == ctx.pool.token_mint_1
            };
            &&& amount > 0 && !fits ==> r == Err::<Option<VaultTransfer>, PoolError>(
                PoolError::InvalidTokenAccount,
            )
            &&& amount > 0 && fits ==> {
                &&& r is Ok && r->Ok_0 is Some
                &&& ({
                    let order = r->Ok_0->0;
                    &&& order.transfer.from == ctx.vault.key
                    &&& order.transfer.to == ctx.destination.key
                    &&& order.transfer.authority == ctx.pool_key
                    &&& order.transfer.amount == amount
                    &&& order.seeds.label@ == seq![0x70u8, 0x6f, 0x6f, 0x6c]
                    &&& order.seeds.token_mint_0 == ctx.pool.token_mint_0
                    &&& order.seeds.token_mint_1 == ctx.pool.token_mint_1
                    &&& order.seeds.bump@[0] == ctx.pool.bump
                    &&& order.seeds.fee_rate@[0] + 0x100 * order.seeds.fee_rate@[1] + 0x1_0000
                        * order.seeds.fee_rate@[2] + 0x100_0000 * order.seeds.fee_rate@[3]
                        == ctx.pool.fee_rate
                })
            }
        }),
{
    assert(seq![ctx.pool.bump][0] == ctx.pool.bump);
}

} // verus!
