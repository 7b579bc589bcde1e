//! Account layouts of the revenue distribution program and their accessors.
//!
//! Each account type is the exact image of the program's `repr(C)` layout:
//! integers are stored little-endian and every padding and reserved byte is
//! kept, so that a decoded value determines every byte it was read from.

use vstd::prelude::*;

use crate::bindings::{program_address, pubkey_text, pubkey_to_string, try_find_program_address};
use crate::le_bytes::{
    le_at, le_value, read_array, read_u16_le, read_u32_le, read_u64_le, spec_le_bytes_u64,
    u64_to_le_bytes,
};

verus! {

/// A 32-byte account address.
#[derive(Debug, Clone, Copy, Default, PartialEq, Eq, PartialOrd, Ord, Hash)]
pub struct Pubkey(pub [u8; 32]);

impl Pubkey {
    /// The key's text, as Solana writes addresses.
    pub fn to_text(&self) -> (r: String)
        ensures
            r@ == pubkey_text(self.0@),
    {
        pubkey_to_string(self)
    }
}

/// The address of the revenue distribution program,
/// `dzrevZC94tBLwuHw1dyynZxaXTWyp7yocsinyEVPtt4` in base58.
pub open spec fn spec_revenue_distribution_program_id() -> Seq<u8> {
    seq![
        9u8, 122, 83, 197, 63, 159, 52, 50, 17, 163, 185, 14, 31, 170, 17, 91,
        95, 230, 238, 126, 213, 192, 201, 37, 218, 102, 247, 163, 32, 151, 95, 141,
    ]
}

/// The address of the revenue distribution program.
pub fn revenue_distribution_program_id() -> (r: Pubkey)
    ensures
        r.0@ == spec_revenue_distribution_program_id(),
{
    let r = Pubkey([
        9u8, 122, 83, 197, 63, 159, 52, 50, 17, 163, 185, 14, 31, 170, 17, 91,
        95, 230, 238, 126, 213, 192, 201, 37, 218, 102, 247, 163, 32, 151, 95, 141,
    ]);
    assert(r.0@ =~= spec_revenue_distribution_program_id());
    r
}

/// Raw flag bits of an account.
pub type Flags = u64;

/// A number of DoubleZero epochs.
pub type EpochDuration = u32;

/// A DoubleZero epoch number.
#[derive(Debug, Clone, Copy, Default, PartialEq, Eq, PartialOrd, Ord, Structural)]
pub struct DoubleZeroEpoch(pub u64);

/// A share expressed in basis points (one part in ten thousand).
#[derive(Debug, Clone, Copy, Default, PartialEq, Eq, PartialOrd, Ord, Structural)]
pub struct UnitShare16(pub u16);

/// A share expressed in parts per billion.
#[derive(Debug, Clone, Copy, Default, PartialEq, Eq, PartialOrd, Ord, Structural)]
pub struct UnitShare32(pub u32);

impl UnitShare32 {
    /// The raw value that stands for a share of one.
    pub const MAX: u64 = 1_000_000_000;
}

pub type ValidatorFee = UnitShare16;

pub type BurnRate = UnitShare32;

/// A type stored as a fixed-size `repr(C)` image in account data.
pub trait AccountLayout: Sized {
    /// The number of bytes of the image.
    spec fn spec_layout_len() -> nat;

    /// `self` is the value whose image is `b[off .. off + len]`.
    spec fn is_layout_of(&self, b: Seq<u8>, off: int) -> bool;

    fn layout_len() -> (n: usize)
        ensures
            n as nat == Self::spec_layout_len(),
    ;

    /// Reads the value whose image starts at `off`.
    fn decode_at(data: &[u8], off: usize) -> (r: Self)
        requires
            off + Self::spec_layout_len() <= data@.len(),
        ensures
            r.is_layout_of(data@, off as int),
    ;
}

/// Reads `N` consecutive little-endian `u32` words at `off`.
pub fn read_u32_words<const N: usize>(data: &[u8], off: usize) -> (r: [u32; N])
    requires
        off + 4 * N <= data@.len(),
    ensures
        forall|i: int| 0 <= i < N ==> #[trigger] r@[i] as nat == le_at(data@, off + 4 * i, 4),
{
    let mut out = [0u32; N];
    let mut i: usize = 0;
    while i < N
        invariant
            i <= N,
            off + 4 * N <= data.len(),
            out@.len() == N,
            forall|j: int| 0 <= j < i ==> #[trigger] out@[j] as nat == le_at(data@, off + 4 * j, 4),
        decreases N - i,
    {
        out[i] = read_u32_le(data, off + 4 * i);
        i = i + 1;
    }
    out
}

/// Reserved space of `N` 32-byte slots kept for future fields.
#[derive(Debug, Clone, Copy, PartialEq, Eq)]
pub struct StorageGap<const N: usize>(pub [[u8; 32]; N]);

impl<const N: usize> Default for StorageGap<N> {
    fn default() -> (r: Self)
        ensures
            forall|i: int| 0 <= i < N ==> #[trigger] r.0@[i]@ == Seq::<u8>::new(32, |j: int| 0u8),
    {
        let r = StorageGap([[0u8; 32]; N]);
        assert forall|i: int| 0 <= i < N implies #[trigger] r.0@[i]@ == Seq::<u8>::new(32, |j: int| 0u8) by {
            assert(r.0@[i]@ =~= Seq::<u8>::new(32, |j: int| 0u8));
        }
        r
    }
}

impl<const N: usize> StorageGap<N> {
    /// `self` holds the `N` slots stored at `off`.
    pub open spec fn is_layout_of(&self, b: Seq<u8>, off: int) -> bool {
        &&& 0 <= off
        &&& off + 32 * N <= b.len()
        &&& forall|i: int| 0 <= i < N ==> #[trigger] self.0@[i]@ == b.subrange(off + 32 * i, off + 32 * i + 32)
    }

    /// Reads the `N` slots stored at `off`.
    pub fn decode_at(data: &[u8], off: usize) -> (r: Self)
        requires
            off + 32 * N <= data@.len(),
        ensures
            r.is_layout_of(data@, off as int),
    {
        let mut slots = [[0u8; 32]; N];
        let mut i: usize = 0;
        while i < N
            invariant
                i <= N,
                off + 32 * N <= data.len(),
                slots@.len() == N,
                forall|j: int| 0 <= j < i ==> #[trigger] slots@[j]@ == data@.subrange(off + 32 * j, off + 32 * j + 32),
            decreases N - i,
        {
            slots[i] = read_array::<32>(data, off + 32 * i);
            i = i + 1;
        }
        StorageGap(slots)
    }
}

/// A 128-bit unsigned integer stored as two little-endian 64-bit limbs.
#[derive(Debug, Clone, Copy, Default, PartialEq, Eq)]
pub struct U128Le(pub [u64; 2]);

/// The value of a low and a high 64-bit limb.
pub open spec fn limbs_value(low: u64, high: u64) -> nat {
    low as nat + high as nat * 0x1_0000_0000_0000_0000
}

impl U128Le {
    pub fn to_u128(&self) -> (r: u128)
        ensures
            r as nat == limbs_value(self.0@[0], self.0@[1]),
    {
        let low = self.0[0];
        let high = self.0[1];
        let r = (low as u128) | ((high as u128) << 64u128);
        assert(r == low as u128 + high as u128 * 0x1_0000_0000_0000_0000u128) by (bit_vector)
            requires
                r == (low as u128) | ((high as u128) << 64u128),
        ;
        r
    }
}

impl AccountLayout for U128Le {
    open spec fn spec_layout_len() -> nat {
        16
    }

    open spec fn is_layout_of(&self, b: Seq<u8>, off: int) -> bool {
        &&& 0 <= off
        &&& off + 16 <= b.len()
        &&& self.0@[0] as nat == le_at(b, off, 8)
        &&& self.0@[1] as nat == le_at(b, off + 8, 8)
    }

    fn layout_len() -> (n: usize) {
        16
    }

    fn decode_at(data: &[u8], off: usize) -> (r: Self) {
        proof {
            assert(data@.len() == data.len());
        }
        U128Le([read_u64_le(data, off), read_u64_le(data, off + 8)])
    }
}

/// Fee shares charged to Solana validators, in basis points, and a fixed SOL amount.
#[derive(Debug, Clone, Copy, Default, PartialEq, Eq)]
pub struct SolanaValidatorFeeParameters {
    pub base_block_rewards_pct: ValidatorFee,
    pub priority_block_rewards_pct: ValidatorFee,
    pub inflation_rewards_pct: ValidatorFee,
    pub jito_tips_pct: ValidatorFee,
    pub fixed_sol_amount: u32,
    pub _storage_gap: [u32; 7],
}

impl SolanaValidatorFeeParameters {
    pub const LEN: usize = 40;
}

impl AccountLayout for SolanaValidatorFeeParameters {
    open spec fn spec_layout_len() -> nat {
        40
    }

    open spec fn is_layout_of(&self, b: Seq<u8>, off: int) -> bool {
        &&& 0 <= off
        &&& off + 40 <= b.len()
        &&& self.base_block_rewards_pct.0 as nat == le_at(b, off, 2)
        &&& self.priority_block_rewards_pct.0 as nat == le_at(b, off + 2, 2)
        &&& self.inflation_rewards_pct.0 as nat == le_at(b, off + 4, 2)
        &&& self.jito_tips_pct.0 as nat == le_at(b, off + 6, 2)
        &&& self.fixed_sol_amount as nat == le_at(b, off + 8, 4)
        &&& forall|i: int| 0 <= i < 7 ==> #[trigger] self._storage_gap@[i] as nat == le_at(b, off + 12 + 4 * i, 4)
    }

    fn layout_len() -> (n: usize) {
        40
    }

    fn decode_at(data: &[u8], off: usize) -> (r: Self) {
        proof {
            assert(data@.len() == data.len());
        }
        SolanaValidatorFeeParameters {
            base_block_rewards_pct: UnitShare16(read_u16_le(data, off)),
            priority_block_rewards_pct: UnitShare16(read_u16_le(data, off + 2)),
            inflation_rewards_pct: UnitShare16(read_u16_le(data, off + 4)),
            jito_tips_pct: UnitShare16(read_u16_le(data, off + 6)),
            fixed_sol_amount: read_u32_le(data, off + 8),
            _storage_gap: read_u32_words::<7>(data, off + 12),
        }
    }
}

/// Parameters of the community burn rate schedule.
#[derive(Debug, Clone, Copy, Default, PartialEq, Eq)]
pub struct CommunityBurnRateParameters {
    pub limit: BurnRate,
    pub dz_epochs_to_increasing: u32,
    pub dz_epochs_to_limit: u32,
    pub cached_slope_numerator: BurnRate,
    pub cached_slope_denominator: u32,
    pub cached_next_burn_rate: BurnRate,
}

impl CommunityBurnRateParameters {
    pub const LEN: usize = 24;
}

impl AccountLayout for CommunityBurnRateParameters {
    open spec fn spec_layout_len() -> nat {
        24
    }

    open spec fn is_layout_of(&self, b: Seq<u8>, off: int) -> bool {
        &&& 0 <= off
        &&& off + 24 <= b.len()
        &&& self.limit.0 as nat == le_at(b, off, 4)
        &&& self.dz_epochs_to_increasing as nat == le_at(b, off + 4, 4)
        &&& self.dz_epochs_to_limit as nat == le_at(b, off + 8, 4)
        &&& self.cached_slope_numerator.0 as nat == le_at(b, off + 12, 4)
        &&& self.cached_slope_denominator as nat == le_at(b, off + 16, 4)
        &&& self.cached_next_burn_rate.0 as nat == le_at(b, off + 20, 4)
    }

    fn layout_len() -> (n: usize) {
        24
    }

    fn decode_at(data: &[u8], off: usize) -> (r: Self) {
        proof {
            assert(data@.len() == data.len());
        }
        CommunityBurnRateParameters {
            limit: UnitShare32(read_u32_le(data, off)),
            dz_epochs_to_increasing: read_u32_le(data, off + 4),
            dz_epochs_to_limit: read_u32_le(data, off + 8),
            cached_slope_numerator: UnitShare32(read_u32_le(data, off + 12)),
            cached_slope_denominator: read_u32_le(data, off + 16),
            cached_next_burn_rate: UnitShare32(read_u32_le(data, off + 20)),
        }
    }
}

/// Parameters that govern each epoch's distribution.
#[derive(Debug, Clone, Copy, Default, PartialEq, Eq)]
pub struct DistributionParameters {
    pub calculation_grace_period_minutes: u16,
    pub initialization_grace_period_minutes: u16,
    pub minimum_epoch_duration_to_finalize_rewards: u8,
    pub _padding: [u8; 3],
    pub community_burn_rate_parameters: CommunityBurnRateParameters,
    pub solana_validator_fee_parameters: SolanaValidatorFeeParameters,
    pub _storage_gap: StorageGap<8>,
}

impl DistributionParameters {
    pub const LEN: usize = 328;
}

impl AccountLayout for DistributionParameters {
    open spec fn spec_layout_len() -> nat {
        328
    }

    open spec fn is_layout_of(&self, b: Seq<u8>, off: int) -> bool {
        &&& 0 <= off
        &&& off + 328 <= b.len()
        &&& self.calculation_grace_period_minutes as nat == le_at(b, off, 2)
        &&& self.initialization_grace_period_minutes as nat == le_at(b, off + 2, 2)
        &&& self.minimum_epoch_duration_to_finalize_rewards == b[off + 4]
        &&& self._padding@ == b.subrange(off + 5, off + 5 + 3)
        &&& self.community_burn_rate_parameters.is_layout_of(b, off + 8)
        &&& self.solana_validator_fee_parameters.is_layout_of(b, off + 32)
        &&& self._storage_gap.is_layout_of(b, off + 72)
    }

    fn layout_len() -> (n: usize) {
        328
    }

    fn decode_at(data: &[u8], off: usize) -> (r: Self) {
        proof {
            assert(data@.len() == data.len());
        }
        DistributionParameters {
            calculation_grace_period_minutes: read_u16_le(data, off),
            initialization_grace_period_minutes: read_u16_le(data, off + 2),
            minimum_epoch_duration_to_finalize_rewards: data[off + 4],
            _padding: read_array::<3>(data, off + 5),
            community_burn_rate_parameters: CommunityBurnRateParameters::decode_at(data, off + 8),
            solana_validator_fee_parameters: SolanaValidatorFeeParameters::decode_at(data, off + 32),
            _storage_gap: StorageGap::<8>::decode_at(data, off + 72),
        }
    }
}

/// Lamport amounts paid to relayers.
#[derive(Debug, Clone, Copy, Default, PartialEq, Eq)]
pub struct RelayParameters {
    pub placeholder_lamports: u32,
    pub distribute_rewards_lamports: u32,
    pub _storage_gap: StorageGap<1>,
}

impl RelayParameters {
    pub const LEN: usize = 40;
}

impl AccountLayout for RelayParameters {
    open spec fn spec_layout_len() -> nat {
        40
    }

    open spec fn is_layout_of(&self, b: Seq<u8>, off: int) -> bool {
        &&& 0 <= off
        &&& off + 40 <= b.len()
        &&& self.placeholder_lamports as nat == le_at(b, off, 4)
        &&& self.distribute_rewards_lamports as nat == le_at(b, off + 4, 4)
        &&& self._storage_gap.is_layout_of(b, off + 8)
    }

    fn layout_len() -> (n: usize) {
        40
    }

    fn decode_at(data: &[u8], off: usize) -> (r: Self) {
        proof {
            assert(data@.len() == data.len());
        }
        RelayParameters {
            placeholder_lamports: read_u32_le(data, off),
            distribute_rewards_lamports: read_u32_le(data, off + 4),
            _storage_gap: StorageGap::<1>::decode_at(data, off + 8),
        }
    }
}

/// The program's global configuration account (after its discriminator).
#[derive(Debug, Clone, Copy, Default, PartialEq, Eq)]
pub struct ProgramConfig {
    pub flags: Flags,
    pub next_completed_dz_epoch: DoubleZeroEpoch,
    pub bump_seed: u8,
    pub reserve_2z_bump_seed: u8,
    pub swap_authority_bump_seed: u8,
    pub swap_destination_2z_bump_seed: u8,
    pub withdraw_sol_authority_bump_seed: u8,
    pub _padding_0: [u8; 3],
    pub admin_key: Pubkey,
    pub debt_accountant_key: Pubkey,
    pub rewards_accountant_key: Pubkey,
    pub contributor_manager_key: Pubkey,
    pub placeholder_key: Pubkey,
    pub sol_2z_swap_program_id: Pubkey,
    pub distribution_parameters: DistributionParameters,
    pub relay_parameters: RelayParameters,
    pub last_initialized_distribution_timestamp: u32,
    pub _padding_1: [u8; 4],
    pub debt_write_off_feature_activation_epoch: DoubleZeroEpoch,
}

impl ProgramConfig {
    pub const LEN: usize = 600;
}

impl AccountLayout for ProgramConfig {
    open spec fn spec_layout_len() -> nat {
        600
    }

    open spec fn is_layout_of(&self, b: Seq<u8>, off: int) -> bool {
        &&& 0 <= off
        &&& off + 600 <= b.len()
        &&& self.flags as nat == le_at(b, off, 8)
        &&& self.next_completed_dz_epoch.0 as nat == le_at(b, off + 8, 8)
        &&& self.bump_seed == b[off + 16]
        &&& self.reserve_2z_bump_seed == b[off + 17]
        &&& self.swap_authority_bump_seed == b[off + 18]
        &&& self.swap_destination_2z_bump_seed == b[off + 19]
        &&& self.withdraw_sol_authority_bump_seed == b[off + 20]
        &&& self._padding_0@ == b.subrange(off + 21, off + 21 + 3)
        &&& self.admin_key.0@ == b.subrange(off + 24, off + 24 + 32)
        &&& self.debt_accountant_key.0@ == b.subrange(off + 56, off + 56 + 32)
        &&& self.rewards_accountant_key.0@ == b.subrange(off + 88, off + 88 + 32)
        &&& self.contributor_manager_key.0@ == b.subrange(off + 120, off + 120 + 32)
        &&& self.placeholder_key.0@ == b.subrange(off + 152, off + 152 + 32)
        &&& self.sol_2z_swap_program_id.0@ == b.subrange(off + 184, off + 184 + 32)
        &&& self.distribution_parameters.is_layout_of(b, off + 216)
        &&& self.relay_parameters.is_layout_of(b, off + 544)
        &&& self.last_initialized_distribution_timestamp as nat == le_at(b, off + 584, 4)
        &&& self._padding_1@ == b.subrange(off + 588, off + 588 + 4)
        &&& self.debt_write_off_feature_activation_epoch.0 as nat == le_at(b, off + 592, 8)
    }

    fn layout_len() -> (n: usize) {
        600
    }

    fn decode_at(data: &[u8], off: usize) -> (r: Self) {
        proof {
            assert(data@.len() == data.len());
        }
        ProgramConfig {
            flags: read_u64_le(data, off),
            next_completed_dz_epoch: DoubleZeroEpoch(read_u64_le(data, off + 8)),
            bump_seed: data[off + 16],
            reserve_2z_bump_seed: data[off + 17],
            swap_authority_bump_seed: data[off + 18],
            swap_destination_2z_bump_seed: data[off + 19],
            withdraw_sol_authority_bump_seed: data[off + 20],
            _padding_0: read_array::<3>(data, off + 21),
            admin_key: Pubkey(read_array::<32>(data, off + 24)),
            debt_accountant_key: Pubkey(read_array::<32>(data, off + 56)),
            rewards_accountant_key: Pubkey(read_array::<32>(data, off + 88)),
            contributor_manager_key: Pubkey(read_array::<32>(data, off + 120)),
            placeholder_key: Pubkey(read_array::<32>(data, off + 152)),
            sol_2z_swap_program_id: Pubkey(read_array::<32>(data, off + 184)),
            distribution_parameters: DistributionParameters::decode_at(data, off + 216),
            relay_parameters: RelayParameters::decode_at(data, off + 544),
            last_initialized_distribution_timestamp: read_u32_le(data, off + 584),
            _padding_1: read_array::<4>(data, off + 588),
            debt_write_off_feature_activation_epoch: DoubleZeroEpoch(read_u64_le(data, off + 592)),
        }
    }
}

/// The per-epoch distribution account (after its discriminator).
#[derive(Debug, Clone, Copy, Default, PartialEq, Eq)]
pub struct Distribution {
    pub dz_epoch: DoubleZeroEpoch,
    pub flags: Flags,
    pub community_burn_rate: BurnRate,
    pub bump_seed: u8,
    pub token_2z_pda_bump_seed: u8,
    pub _padding_0: [u8; 2],
    pub solana_validator_fee_parameters: SolanaValidatorFeeParameters,
    pub solana_validator_debt_merkle_root: [u8; 32],
    pub total_solana_validators: u32,
    pub solana_validator_payments_count: u32,
    pub total_solana_validator_debt: u64,
    pub collected_solana_validator_payments: u64,
    pub rewards_merkle_root: [u8; 32],
    pub total_contributors: u32,
    pub distributed_rewards_count: u32,
    pub collected_prepaid_2z_payments: u64,
    pub collected_2z_converted_from_sol: u64,
    pub uncollectible_sol_debt: u64,
    pub processed_solana_validator_debt_start_index: u32,
    pub processed_solana_validator_debt_end_index: u32,
    pub processed_rewards_start_index: u32,
    pub processed_rewards_end_index: u32,
    pub distribute_rewards_relay_lamports: u32,
    pub calculation_allowed_timestamp: u32,
    pub distributed_2z_amount: u64,
    pub burned_2z_amount: u64,
    pub processed_solana_validator_debt_write_off_start_index: u32,
    pub processed_solana_validator_debt_write_off_end_index: u32,
    pub solana_validator_write_off_count: u32,
    pub _padding_1: [u8; 20],
    pub _storage_gap: StorageGap<6>,
}

impl Distribution {
    pub const LEN: usize = 448;
}

impl AccountLayout for Distribution {
    open spec fn spec_layout_len() -> nat {
        448
    }

    open spec fn is_layout_of(&self, b: Seq<u8>, off: int) -> bool {
        &&& 0 <= off
        &&& off + 448 <= b.len()
        &&& self.dz_epoch.0 as nat == le_at(b, off, 8)
        &&& self.flags as nat == le_at(b, off + 8, 8)
        &&& self.community_burn_rate.0 as nat == le_at(b, off + 16, 4)
        &&& self.bump_seed == b[off + 20]
        &&& self.token_2z_pda_bump_seed == b[off + 21]
        &&& self._padding_0@ == b.subrange(off + 22, off + 22 + 2)
        &&& self.solana_validator_fee_parameters.is_layout_of(b, off + 24)
        &&& self.solana_validator_debt_merkle_root@ == b.subrange(off + 64, off + 64 + 32)
        &&& self.total_solana_validators as nat == le_at(b, off + 96, 4)
        &&& self.solana_validator_payments_count as nat == le_at(b, off + 100, 4)
        &&& self.total_solana_validator_debt as nat == le_at(b, off + 104, 8)
        &&& self.collected_solana_validator_payments as nat == le_at(b, off + 112, 8)
        &&& self.rewards_merkle_root@ == b.subrange(off + 120, off + 120 + 32)
        &&& self.total_contributors as nat == le_at(b, off + 152, 4)
        &&& self.distributed_rewards_count as nat == le_at(b, off + 156, 4)
        &&& self.collected_prepaid_2z_payments as nat == le_at(b, off + 160, 8)
        &&& self.collected_2z_converted_from_sol as nat == le_at(b, off + 168, 8)
        &&& self.uncollectible_sol_debt as nat == le_at(b, off + 176, 8)
        &&& self.processed_solana_validator_debt_start_index as nat == le_at(b, off + 184, 4)
        &&& self.processed_solana_validator_debt_end_index as nat == le_at(b, off + 188, 4)
        &&& self.processed_rewards_start_index as nat == le_at(b, off + 192, 4)
        &&& self.processed_rewards_end_index as nat == le_at(b, off + 196, 4)
        &&& self.distribute_rewards_relay_lamports as nat == le_at(b, off + 200, 4)
        &&& self.calculation_allowed_timestamp as nat == le_at(b, off + 204, 4)
        &&& self.distributed_2z_amount as nat == le_at(b, off + 208, 8)
        &&& self.burned_2z_amount as nat == le_at(b, off + 216, 8)
        &&& self.processed_solana_validator_debt_write_off_start_index as nat == le_at(b, off + 224, 4)
        &&& self.processed_solana_validator_debt_write_off_end_index as nat == le_at(b, off + 228, 4)
        &&& self.solana_validator_write_off_count as nat == le_at(b, off + 232, 4)
        &&& self._padding_1@ == b.subrange(off + 236, off + 236 + 20)
        &&& self._storage_gap.is_layout_of(b, off + 256)
    }

    fn layout_len() -> (n: usize) {
        448
    }

    fn decode_at(data: &[u8], off: usize) -> (r: Self) {
        proof {
            assert(data@.len() == data.len());
        }
        Distribution {
            dz_epoch: DoubleZeroEpoch(read_u64_le(data, off)),
            flags: read_u64_le(data, off + 8),
            community_burn_rate: UnitShare32(read_u32_le(data, off + 16)),
            bump_seed: data[off + 20],
            token_2z_pda_bump_seed: data[off + 21],
            _padding_0: read_array::<2>(data, off + 22),
            solana_validator_fee_parameters: SolanaValidatorFeeParameters::decode_at(data, off + 24),
            solana_validator_debt_merkle_root: read_array::<32>(data, off + 64),
            total_solana_validators: read_u32_le(data, off + 96),
            solana_validator_payments_count: read_u32_le(data, off + 100),
            total_solana_validator_debt: read_u64_le(data, off + 104),
            collected_solana_validator_payments: read_u64_le(data, off + 112),
            rewards_merkle_root: read_array::<32>(data, off + 120),
            total_contributors: read_u32_le(data, off + 152),
            distributed_rewards_count: read_u32_le(data, off + 156),
            collected_prepaid_2z_payments: read_u64_le(data, off + 160),
            collected_2z_converted_from_sol: read_u64_le(data, off + 168),
            uncollectible_sol_debt: read_u64_le(data, off + 176),
            processed_solana_validator_debt_start_index: read_u32_le(data, off + 184),
            processed_solana_validator_debt_end_index: read_u32_le(data, off + 188),
            processed_rewards_start_index: read_u32_le(data, off + 192),
            processed_rewards_end_index: read_u32_le(data, off + 196),
            distribute_rewards_relay_lamports: read_u32_le(data, off + 200),
            calculation_allowed_timestamp: read_u32_le(data, off + 204),
            distributed_2z_amount: read_u64_le(data, off + 208),
            burned_2z_amount: read_u64_le(data, off + 216),
            processed_solana_validator_debt_write_off_start_index: read_u32_le(data, off + 224),
            processed_solana_validator_debt_write_off_end_index: read_u32_le(data, off + 228),
            solana_validator_write_off_count: read_u32_le(data, off + 232),
            _padding_1: read_array::<20>(data, off + 236),
            _storage_gap: StorageGap::<6>::decode_at(data, off + 256),
        }
    }
}

/// The program's journal account of balances (after its discriminator).
#[derive(Debug, Clone, Copy, Default, PartialEq, Eq)]
pub struct Journal {
    pub bump_seed: u8,
    pub token_2z_pda_bump_seed: u8,
    pub _padding: [u8; 6],
    pub total_sol_balance: u64,
    pub total_2z_balance: u64,
    pub swap_2z_destination_balance: u64,
    pub swapped_sol_amount: u64,
    pub next_dz_epoch_to_sweep_tokens: DoubleZeroEpoch,
    pub lifetime_swapped_2z_amount: U128Le,
}

impl Journal {
    pub const LEN: usize = 64;
}

impl AccountLayout for Journal {
    open spec fn spec_layout_len() -> nat {
        64
    }

    open spec fn is_layout_of(&self, b: Seq<u8>, off: int) -> bool {
        &&& 0 <= off
        &&& off + 64 <= b.len()
        &&& self.bump_seed == b[off]
        &&& self.token_2z_pda_bump_seed == b[off + 1]
        &&& self._padding@ == b.subrange(off + 2, off + 2 + 6)
        &&& self.total_sol_balance as nat == le_at(b, off + 8, 8)
        &&& self.total_2z_balance as nat == le_at(b, off + 16, 8)
        &&& self.swap_2z_destination_balance as nat == le_at(b, off + 24, 8)
        &&& self.swapped_sol_amount as nat == le_at(b, off + 32, 8)
        &&& self.next_dz_epoch_to_sweep_tokens.0 as nat == le_at(b, off + 40, 8)
        &&& self.lifetime_swapped_2z_amount.is_layout_of(b, off + 48)
    }

    fn layout_len() -> (n: usize) {
        64
    }

    fn decode_at(data: &[u8], off: usize) -> (r: Self) {
        proof {
            assert(data@.len() == data.len());
        }
        Journal {
            bump_seed: data[off],
            token_2z_pda_bump_seed: data[off + 1],
            _padding: read_array::<6>(data, off + 2),
            total_sol_balance: read_u64_le(data, off + 8),
            total_2z_balance: read_u64_le(data, off + 16),
            swap_2z_destination_balance: read_u64_le(data, off + 24),
            swapped_sol_amount: read_u64_le(data, off + 32),
            next_dz_epoch_to_sweep_tokens: DoubleZeroEpoch(read_u64_le(data, off + 40)),
            lifetime_swapped_2z_amount: U128Le::decode_at(data, off + 48),
        }
    }
}

impl DoubleZeroEpoch {
    pub fn value(&self) -> (r: u64)
        ensures
            r == self.0,
    {
        self.0
    }

    /// The epoch as an address seed: its eight little-endian bytes.
    pub fn as_seed(&self) -> (r: [u8; 8])
        ensures
            r@ == spec_le_bytes_u64(self.0),
            le_value(r@) == self.0 as nat,
    {
        u64_to_le_bytes(self.0)
    }

    /// The epoch `duration` epochs earlier, if there is one.
    pub fn checked_sub_duration(&self, duration: EpochDuration) -> (r: Option<Self>)
        ensures
            r == (if duration as u64 <= self.0 {
                Some(DoubleZeroEpoch((self.0 - duration) as u64))
            } else {
                None
            }),
    {
        let value = self.0.checked_sub(duration as u64)?;
        Some(Self(value))
    }
}

/// The mode of the community burn rate schedule.
pub open spec fn spec_burn_rate_mode(dz_epochs_to_increasing: u32, dz_epochs_to_limit: u32) -> Seq<char> {
    if dz_epochs_to_increasing != 0 {
        "Static"@
    } else if dz_epochs_to_limit != 0 {
        "Increasing"@
    } else {
        "Limit"@
    }
}

impl CommunityBurnRateParameters {
    /// The cached next burn rate, or `None` while none is cached (a zero rate).
    pub fn next_burn_rate_raw(&self) -> (r: Option<u64>)
        ensures
            r == (if self.cached_next_burn_rate.0 == 0 {
                None
            } else {
                Some(self.cached_next_burn_rate.0 as u64)
            }),
    {
        if self.cached_next_burn_rate.0 == 0 {
            None
        } else {
            Some(self.cached_next_burn_rate.0 as u64)
        }
    }

    pub fn mode(&self) -> (r: &'static str)
        ensures
            r@ == spec_burn_rate_mode(self.dz_epochs_to_increasing, self.dz_epochs_to_limit),
    {
        if self.dz_epochs_to_increasing != 0 {
            "Static"
        } else if self.dz_epochs_to_limit != 0 {
            "Increasing"
        } else {
            "Limit"
        }
    }
}

/// Bit `bit` of `flags` is set.
pub open spec fn flag_set(flags: Flags, bit: u64) -> bool {
    (flags >> bit) & 1 == 1
}

pub fn flag_is_set(flags: Flags, bit: u64) -> (r: bool)
    requires
        bit < 64,
    ensures
        r == flag_set(flags, bit),
{
    ((flags >> bit) & 1) == 1
}

/// The bytes of `s`, copied into a vector.
fn bytes_to_vec(s: &[u8]) -> (r: Vec<u8>)
    ensures
        r@ == s@,
{
    let mut out: Vec<u8> = Vec::new();
    let mut i: usize = 0;
    while i < s.len()
        invariant
            i <= s@.len(),
            out@ == s@.subrange(0, i as int),
        decreases s@.len() - i,
    {
        out.push(s[i]);
        i = i + 1;
        assert(out@ =~= s@.subrange(0, i as int));
    }
    assert(out@ =~= s@);
    out
}

/// A seed list of one seed.
fn single_seed(a: Vec<u8>) -> (r: Vec<Vec<u8>>)
    ensures
        r.deep_view() == seq![a@],
{
    let mut r: Vec<Vec<u8>> = Vec::new();
    r.push(a);
    assert(r.deep_view()[0] =~= a@);
    assert(r.deep_view() =~= seq![a@]);
    r
}

/// A seed list of two seeds.
fn two_seeds(a: Vec<u8>, b: Vec<u8>) -> (r: Vec<Vec<u8>>)
    ensures
        r.deep_view() == seq![a@, b@],
{
    let mut r: Vec<Vec<u8>> = Vec::new();
    r.push(a);
    r.push(b);
    assert(r.deep_view()[0] =~= a@);
    assert(r.deep_view()[1] =~= b@);
    assert(r.deep_view() =~= seq![a@, b@]);
    r
}

/// The seed prefix of the program configuration address: `b"program_config"`.
pub open spec fn spec_program_config_seed() -> Seq<u8> {
    seq![112u8, 114, 111, 103, 114, 97, 109, 95, 99, 111, 110, 102, 105, 103]
}

/// The seed prefix of distribution addresses: `b"distribution"`.
pub open spec fn spec_distribution_seed() -> Seq<u8> {
    seq![100u8, 105, 115, 116, 114, 105, 98, 117, 116, 105, 111, 110]
}

/// The seed prefix of the journal address: `b"journal"`.
pub open spec fn spec_journal_seed() -> Seq<u8> {
    seq![106u8, 111, 117, 114, 110, 97, 108]
}

/// The seeds of the distribution account of `dz_epoch`.
pub open spec fn spec_distribution_seeds(dz_epoch: u64) -> Seq<Seq<u8>> {
    seq![spec_distribution_seed(), spec_le_bytes_u64(dz_epoch)]
}

/// The outcome of a program-address search seen as plain values.
pub open spec fn address_outcome(r: Option<(Pubkey, u8)>) -> Option<(Seq<u8>, u8)> {
    match r {
        Some((k, bump)) => Some((k.0@, bump)),
        None => None,
    }
}

impl ProgramConfig {
    pub fn seed_prefix() -> (r: Vec<u8>)
        ensures
            r@ == spec_program_config_seed(),
    {
        let r = vec![112u8, 114, 111, 103, 114, 97, 109, 95, 99, 111, 110, 102, 105, 103];
        assert(r@ =~= spec_program_config_seed());
        r
    }

    /// The program configuration address and its bump seed; `None` in the
    /// event, which the search itself reports, that no bump seed gives an address.
    pub fn find_address() -> (r: Option<(Pubkey, u8)>)
        ensures
            address_outcome(r) == program_address(
                seq![spec_program_config_seed()],
                spec_revenue_distribution_program_id(),
            ),
    {
        let seeds = single_seed(Self::seed_prefix());
        try_find_program_address(&seeds, &revenue_distribution_program_id())
    }

    pub fn is_paused(&self) -> (r: bool)
        ensures
            r == flag_set(self.flags, 0),
    {
        flag_is_set(self.flags, 0)
    }

    pub fn is_migrated(&self) -> (r: bool)
        ensures
            r == flag_set(self.flags, 1),
    {
        flag_is_set(self.flags, 1)
    }
}

impl Distribution {
    pub fn seed_prefix() -> (r: Vec<u8>)
        ensures
            r@ == spec_distribution_seed(),
    {
        let r = vec![100u8, 105, 115, 116, 114, 105, 98, 117, 116, 105, 111, 110];
        assert(r@ =~= spec_distribution_seed());
        r
    }

    /// The address of the distribution account of `dz_epoch` and its bump
    /// seed; `None` in the event, which the search itself reports, that no
    /// bump seed gives an address.
    pub fn find_address(dz_epoch: DoubleZeroEpoch) -> (r: Option<(Pubkey, u8)>)
        ensures
            address_outcome(r) == program_address(
                spec_distribution_seeds(dz_epoch.0),
                spec_revenue_distribution_program_id(),
            ),
    {
        let seed = dz_epoch.as_seed();
        let seeds = two_seeds(Self::seed_prefix(), bytes_to_vec(&seed));
        try_find_program_address(&seeds, &revenue_distribution_program_id())
    }

    pub fn is_debt_calculation_finalized(&self) -> (r: bool)
        ensures
            r == flag_set(self.flags, 1),
    {
        flag_is_set(self.flags, 1)
    }

    pub fn is_rewards_calculation_finalized(&self) -> (r: bool)
        ensures
            r == flag_set(self.flags, 2),
    {
        flag_is_set(self.flags, 2)
    }

    pub fn has_swept_2z_tokens(&self) -> (r: bool)
        ensures
            r == flag_set(self.flags, 3),
    {
        flag_is_set(self.flags, 3)
    }
}

impl Journal {
    pub fn seed_prefix() -> (r: Vec<u8>)
        ensures
            r@ == spec_journal_seed(),
    {
        let r = vec![106u8, 111, 117, 114, 110, 97, 108];
        assert(r@ =~= spec_journal_seed());
        r
    }

    /// The journal address and its bump seed; `None` in the event, which the
    /// search itself reports, that no bump seed gives an address.
    pub fn find_address() -> (r: Option<(Pubkey, u8)>)
        ensures
            address_outcome(r) == program_address(
                seq![spec_journal_seed()],
                spec_revenue_distribution_program_id(),
            ),
    {
        let seeds = single_seed(Self::seed_prefix());
        try_find_program_address(&seeds, &revenue_distribution_program_id())
    }

    pub fn lifetime_swapped_2z_amount(&self) -> (r: u128)
        ensures
            r as nat == limbs_value(self.lifetime_swapped_2z_amount.0@[0], self.lifetime_swapped_2z_amount.0@[1]),
    {
        self.lifetime_swapped_2z_amount.to_u128()
    }
}

} // verus!
