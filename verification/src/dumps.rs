//! The records written for the program's accounts: each account's metadata
//! and its decoded fields, with keys as text and raw shares as integers
//! (the percentages written beside them are taken from these).

use vstd::prelude::*;

use crate::bindings::{flags_debug_text, hex_lower, pubkey_text, pubkey_to_string};
use crate::dz::{
    AccountLayout, CommunityBurnRateParameters, Distribution, ProgramConfig, Pubkey,
    SolanaValidatorFeeParameters, flag_set, spec_burn_rate_mode,
};
use crate::onchain::{RawAccount, burn_rate_to_raw, hash_to_hex, parse_account, validator_fee_raw};
use crate::text::decimal_digits;
use crate::zero_copy::{AccountDataError, DISCRIMINATOR_LEN, account_data_error};

verus! {

/// What is written of an account besides its fields.
#[derive(Debug, Clone, PartialEq, Eq)]
pub struct AccountMetadata {
    pub pubkey: String,
    pub owner: String,
    pub lamports: u64,
    pub executable: bool,
    pub rent_epoch: u64,
    pub data_len: usize,
}

/// An account as written: the slot it was read at, its metadata, how many
/// bytes follow its layout, and its fields.
#[derive(Debug, Clone, PartialEq, Eq)]
pub struct AccountDump<T> {
    pub context_slot: u64,
    pub account: AccountMetadata,
    pub remaining_data_len: usize,
    pub parsed: T,
}

/// Reads the account at `pubkey` as a `T` and assembles what is written of it.
pub fn dump_account<T: AccountLayout>(pubkey: &Pubkey, account: &RawAccount, expected_discriminator: [u8; 8]) -> (r: Result<
    AccountDump<T>,
    AccountDataError,
>)
    ensures
        match account_data_error(account.data@, expected_discriminator@, T::spec_layout_len()) {
            Some(e) => r == Err::<AccountDump<T>, AccountDataError>(e),
            None => r matches Ok(d) && {
                &&& d.context_slot == account.context_slot
                &&& d.account.pubkey@ == pubkey_text(pubkey.0@)
                &&& d.account.owner@ == pubkey_text(account.owner.0@)
                &&& d.account.lamports == account.lamports
                &&& d.account.executable == account.executable
                &&& d.account.rent_epoch == account.rent_epoch
                &&& d.account.data_len == account.data@.len()
                &&& d.parsed.is_layout_of(account.data@, DISCRIMINATOR_LEN as int)
                &&& d.remaining_data_len == account.data@.len() - DISCRIMINATOR_LEN - T::spec_layout_len()
            },
        },
{
    let (parsed, remaining) = parse_account::<T>(account.data.as_slice(), expected_discriminator)?;
    Ok(AccountDump {
        context_slot: account.context_slot,
        account: AccountMetadata {
            pubkey: pubkey_to_string(pubkey),
            owner: pubkey_to_string(&account.owner),
            lamports: account.lamports,
            executable: account.executable,
            rent_epoch: account.rent_epoch,
            data_len: account.data.len(),
        },
        remaining_data_len: remaining,
        parsed,
    })
}

/// The raw fee shares of a fee parameter block, in basis points.
#[derive(Debug, Clone, Copy, PartialEq, Eq, Structural)]
pub struct FeeParamsJson {
    pub base_block_rewards_pct_raw: u64,
    pub priority_block_rewards_pct_raw: u64,
    pub inflation_rewards_pct_raw: u64,
    pub jito_tips_pct_raw: u64,
    pub fixed_sol_amount: u32,
}

pub open spec fn spec_fee_params_json(params: SolanaValidatorFeeParameters) -> FeeParamsJson {
    FeeParamsJson {
        base_block_rewards_pct_raw: params.base_block_rewards_pct.0 as u64,
        priority_block_rewards_pct_raw: params.priority_block_rewards_pct.0 as u64,
        inflation_rewards_pct_raw: params.inflation_rewards_pct.0 as u64,
        jito_tips_pct_raw: params.jito_tips_pct.0 as u64,
        fixed_sol_amount: params.fixed_sol_amount,
    }
}

pub fn fee_params_to_json(params: &SolanaValidatorFeeParameters) -> (r: FeeParamsJson)
    ensures
        r == spec_fee_params_json(*params),
{
    FeeParamsJson {
        base_block_rewards_pct_raw: validator_fee_raw(params.base_block_rewards_pct),
        priority_block_rewards_pct_raw: validator_fee_raw(params.priority_block_rewards_pct),
        inflation_rewards_pct_raw: validator_fee_raw(params.inflation_rewards_pct),
        jito_tips_pct_raw: validator_fee_raw(params.jito_tips_pct),
        fixed_sol_amount: params.fixed_sol_amount,
    }
}

/// The burn rate schedule as written.
#[derive(Debug, Clone, PartialEq, Eq)]
pub struct BurnRateParamsJson {
    pub limit_raw: u64,
    pub dz_epochs_to_increasing: u32,
    pub dz_epochs_to_limit: u32,
    pub next_burn_rate_raw: Option<u64>,
    pub mode: String,
}

/// `j` is the schedule `p` as written.
pub open spec fn burn_rate_params_written(j: BurnRateParamsJson, p: CommunityBurnRateParameters) -> bool {
    &&& j.limit_raw == p.limit.0
    &&& j.dz_epochs_to_increasing == p.dz_epochs_to_increasing
    &&& j.dz_epochs_to_limit == p.dz_epochs_to_limit
    &&& j.next_burn_rate_raw == (if p.cached_next_burn_rate.0 == 0 {
        None
    } else {
        Some(p.cached_next_burn_rate.0 as u64)
    })
    &&& j.mode@ == spec_burn_rate_mode(p.dz_epochs_to_increasing, p.dz_epochs_to_limit)
}

fn burn_rate_params_to_json(p: &CommunityBurnRateParameters) -> (r: BurnRateParamsJson)
    ensures
        burn_rate_params_written(r, *p),
{
    BurnRateParamsJson {
        limit_raw: burn_rate_to_raw(p.limit),
        dz_epochs_to_increasing: p.dz_epochs_to_increasing,
        dz_epochs_to_limit: p.dz_epochs_to_limit,
        next_burn_rate_raw: p.next_burn_rate_raw(),
        mode: String::from_str(p.mode()),
    }
}

/// The distribution parameters as written.
#[derive(Debug, Clone, PartialEq, Eq)]
pub struct DistributionParamsJson {
    pub calculation_grace_period_minutes: u16,
    pub initialization_grace_period_minutes: u16,
    pub minimum_epoch_duration_to_finalize_rewards: u8,
    pub community_burn_rate_parameters: BurnRateParamsJson,
    pub solana_validator_fee_parameters: FeeParamsJson,
}

/// The program configuration as written.
#[derive(Debug, Clone, PartialEq, Eq)]
pub struct ProgramConfigJson {
    pub program_id: String,
    pub program_config_key: String,
    pub admin_key: String,
    pub debt_accountant_key: String,
    pub rewards_accountant_key: String,
    pub contributor_manager_key: String,
    pub sol_2z_swap_program_id: String,
    pub next_completed_dz_epoch: u64,
    pub is_paused: bool,
    pub is_migrated: bool,
    pub distribution_parameters: DistributionParamsJson,
    pub distribute_rewards_lamports: u32,
    pub last_initialized_distribution_timestamp: u32,
    pub debt_write_off_feature_activation_epoch: u64,
}

/// `j` is the configuration `c` of the program `program_id`, read at
/// `key`, as written.
pub open spec fn program_config_written(j: ProgramConfigJson, program_id: Seq<char>, key: Pubkey, c: ProgramConfig) -> bool {
    let d = c.distribution_parameters;
    &&& j.program_id@ == program_id
    &&& j.program_config_key@ == pubkey_text(key.0@)
    &&& j.admin_key@ == pubkey_text(c.admin_key.0@)
    &&& j.debt_accountant_key@ == pubkey_text(c.debt_accountant_key.0@)
    &&& j.rewards_accountant_key@ == pubkey_text(c.rewards_accountant_key.0@)
    &&& j.contributor_manager_key@ == pubkey_text(c.contributor_manager_key.0@)
    &&& j.sol_2z_swap_program_id@ == pubkey_text(c.sol_2z_swap_program_id.0@)
    &&& j.next_completed_dz_epoch == c.next_completed_dz_epoch.0
    &&& j.is_paused == flag_set(c.flags, 0)
    &&& j.is_migrated == flag_set(c.flags, 1)
    &&& j.distribution_parameters.calculation_grace_period_minutes == d.calculation_grace_period_minutes
    &&& j.distribution_parameters.initialization_grace_period_minutes == d.initialization_grace_period_minutes
    &&& j.distribution_parameters.minimum_epoch_duration_to_finalize_rewards
        == d.minimum_epoch_duration_to_finalize_rewards
    &&& burn_rate_params_written(j.distribution_parameters.community_burn_rate_parameters, d.community_burn_rate_parameters)
    &&& j.distribution_parameters.solana_validator_fee_parameters == spec_fee_params_json(
        d.solana_validator_fee_parameters,
    )
    &&& j.distribute_rewards_lamports == c.relay_parameters.distribute_rewards_lamports
    &&& j.last_initialized_distribution_timestamp == c.last_initialized_distribution_timestamp
    &&& j.debt_write_off_feature_activation_epoch == c.debt_write_off_feature_activation_epoch.0
}

/// Every field of a program configuration's dump carries the configuration
/// field of the same name: the keys as Solana writes them, the epochs as
/// numbers, the pause and migration flags from bits zero and one of the flag
/// word, the burn schedule with its mode, and the fee shares in basis points.
pub proof fn lemma_program_config_dump_fields(j: ProgramConfigJson, program_id: Seq<char>, key: Pubkey, c: ProgramConfig)
    requires
        program_config_written(j, program_id, key, c),
    ensures
        j.program_id@ == program_id,
        j.program_config_key@ == pubkey_text(key.0@),
        j.admin_key@ == pubkey_text(c.admin_key.0@),
        j.debt_accountant_key@ == pubkey_text(c.debt_accountant_key.0@),
        j.rewards_accountant_key@ == pubkey_text(c.rewards_accountant_key.0@),
        j.contributor_manager_key@ == pubkey_text(c.contributor_manager_key.0@),
        j.sol_2z_swap_program_id@ == pubkey_text(c.sol_2z_swap_program_id.0@),
        j.next_completed_dz_epoch == c.next_completed_dz_epoch.0,
        j.is_paused == ((c.flags >> 0u64) & 1 == 1),
        j.is_migrated == ((c.flags >> 1u64) & 1 == 1),
        j.distribution_parameters.calculation_grace_period_minutes
            == c.distribution_parameters.calculation_grace_period_minutes,
        j.distribution_parameters.initialization_grace_period_minutes
            == c.distribution_parameters.initialization_grace_period_minutes,
        j.distribution_parameters.minimum_epoch_duration_to_finalize_rewards
            == c.distribution_parameters.minimum_epoch_duration_to_finalize_rewards,
        j.distribution_parameters.community_burn_rate_parameters.limit_raw
            == c.distribution_parameters.community_burn_rate_parameters.limit.0 as u64,
        j.distribution_parameters.community_burn_rate_parameters.dz_epochs_to_increasing
            == c.distribution_parameters.community_burn_rate_parameters.dz_epochs_to_increasing,
        j.distribution_parameters.community_burn_rate_parameters.dz_epochs_to_limit
            == c.distribution_parameters.community_burn_rate_parameters.dz_epochs_to_limit,
        c.distribution_parameters.community_burn_rate_parameters.cached_next_burn_rate.0 == 0
            ==> j.distribution_parameters.community_burn_rate_parameters.next_burn_rate_raw is None,
        c.distribution_parameters.community_burn_rate_parameters.cached_next_burn_rate.0 != 0
            ==> j.distribution_parameters.community_burn_rate_parameters.next_burn_rate_raw == Some(
            c.distribution_parameters.community_burn_rate_parameters.cached_next_burn_rate.0 as u64,
        ),
        c.distribution_parameters.community_burn_rate_parameters.dz_epochs_to_increasing != 0
            ==> j.distribution_parameters.community_burn_rate_parameters.mode@ == "Static"@,
        c.distribution_parameters.community_burn_rate_parameters.dz_epochs_to_increasing == 0
            && c.distribution_parameters.community_burn_rate_parameters.dz_epochs_to_limit != 0
            ==> j.distribution_parameters.community_burn_rate_parameters.mode@ == "Increasing"@,
        c.distribution_parameters.community_burn_rate_parameters.dz_epochs_to_increasing == 0
            && c.distribution_parameters.community_burn_rate_parameters.dz_epochs_to_limit == 0
            ==> j.distribution_parameters.community_burn_rate_parameters.mode@ == "Limit"@,
        j.distribution_parameters.solana_validator_fee_parameters.base_block_rewards_pct_raw
            == c.distribution_parameters.solana_validator_fee_parameters.base_block_rewards_pct.0 as u64,
        j.distribution_parameters.solana_validator_fee_parameters.priority_block_rewards_pct_raw
            == c.distribution_parameters.solana_validator_fee_parameters.priority_block_rewards_pct.0 as u64,
        j.distribution_parameters.solana_validator_fee_parameters.inflation_rewards_pct_raw
            == c.distribution_parameters.solana_validator_fee_parameters.inflation_rewards_pct.0 as u64,
        j.distribution_parameters.solana_validator_fee_parameters.jito_tips_pct_raw
            == c.distribution_parameters.solana_validator_fee_parameters.jito_tips_pct.0 as u64,
        j.distribution_parameters.solana_validator_fee_parameters.fixed_sol_amount
            == c.distribution_parameters.solana_validator_fee_parameters.fixed_sol_amount,
        j.distribute_rewards_lamports == c.relay_parameters.distribute_rewards_lamports,
        j.last_initialized_distribution_timestamp == c.last_initialized_distribution_timestamp,
        j.debt_write_off_feature_activation_epoch == c.debt_write_off_feature_activation_epoch.0,
{
}

pub fn program_config_to_json(program_id: &str, program_config_key: &Pubkey, config: &ProgramConfig) -> (r:
    ProgramConfigJson)
    ensures
        program_config_written(r, program_id@, *program_config_key, *config),
{
    let d = &config.distribution_parameters;
    ProgramConfigJson {
        program_id: String::from_str(program_id),
        program_config_key: pubkey_to_string(program_config_key),
        admin_key: pubkey_to_string(&config.admin_key),
        debt_accountant_key: pubkey_to_string(&config.debt_accountant_key),
        rewards_accountant_key: pubkey_to_string(&config.rewards_accountant_key),
        contributor_manager_key: pubkey_to_string(&config.contributor_manager_key),
        sol_2z_swap_program_id: pubkey_to_string(&config.sol_2z_swap_program_id),
        next_completed_dz_epoch: config.next_completed_dz_epoch.value(),
        is_paused: config.is_paused(),
        is_migrated: config.is_migrated(),
        distribution_parameters: DistributionParamsJson {
            calculation_grace_period_minutes: d.calculation_grace_period_minutes,
            initialization_grace_period_minutes: d.initialization_grace_period_minutes,
            minimum_epoch_duration_to_finalize_rewards: d.minimum_epoch_duration_to_finalize_rewards,
            community_burn_rate_parameters: burn_rate_params_to_json(&d.community_burn_rate_parameters),
            solana_validator_fee_parameters: fee_params_to_json(&d.solana_validator_fee_parameters),
        },
        distribute_rewards_lamports: config.relay_parameters.distribute_rewards_lamports,
        last_initialized_distribution_timestamp: config.last_initialized_distribution_timestamp,
        debt_write_off_feature_activation_epoch: config.debt_write_off_feature_activation_epoch.value(),
    }
}

/// A distribution as written.
#[derive(Debug, Clone, PartialEq, Eq)]
pub struct DistributionJson {
    pub dz_epoch: u64,
    pub flags: String,
    pub is_debt_calculation_finalized: bool,
    pub is_rewards_calculation_finalized: bool,
    pub has_swept_2z_tokens: bool,
    pub community_burn_rate_raw: u64,
    pub solana_validator_fee_parameters: FeeParamsJson,
    pub solana_validator_debt_merkle_root: String,
    pub rewards_merkle_root: String,
    pub total_solana_validators: u32,
    pub solana_validator_payments_count: u32,
    pub total_solana_validator_debt: u64,
    pub collected_solana_validator_payments: u64,
    pub total_contributors: u32,
    pub distributed_rewards_count: u32,
    pub collected_prepaid_2z_payments: u64,
    pub collected_2z_converted_from_sol: u64,
    pub uncollectible_sol_debt: u64,
    pub processed_solana_validator_debt_start_index: u32,
    pub processed_solana_validator_debt_end_index: u32,
    pub processed_rewards_start_index: u32,
    pub processed_rewards_end_index: u32,
    pub distribute_rewards_relay_lamports: u32,
    pub calculation_allowed_timestamp: u32,
    pub distributed_2z_amount: u64,
    pub burned_2z_amount: u64,
    pub processed_solana_validator_debt_write_off_start_index: u32,
    pub processed_solana_validator_debt_write_off_end_index: u32,
    pub solana_validator_write_off_count: u32,
}

/// `j` is the distribution `d` as written.
pub open spec fn distribution_written(j: DistributionJson, d: Distribution) -> bool {
    &&& j.dz_epoch == d.dz_epoch.0
    &&& j.flags@ == decimal_digits(d.flags as nat)
    &&& j.is_debt_calculation_finalized == flag_set(d.flags, 1)
    &&& j.is_rewards_calculation_finalized == flag_set(d.flags, 2)
    &&& j.has_swept_2z_tokens == flag_set(d.flags, 3)
    &&& j.community_burn_rate_raw == d.community_burn_rate.0
    &&& j.solana_validator_fee_parameters == spec_fee_params_json(d.solana_validator_fee_parameters)
    &&& j.solana_validator_debt_merkle_root@ == hex_lower(d.solana_validator_debt_merkle_root@)
    &&& j.rewards_merkle_root@ == hex_lower(d.rewards_merkle_root@)
    &&& j.total_solana_validators == d.total_solana_validators
    &&& j.solana_validator_payments_count == d.solana_validator_payments_count
    &&& j.total_solana_validator_debt == d.total_solana_validator_debt
    &&& j.collected_solana_validator_payments == d.collected_solana_validator_payments
    &&& j.total_contributors == d.total_contributors
    &&& j.distributed_rewards_count == d.distributed_rewards_count
    &&& j.collected_prepaid_2z_payments == d.collected_prepaid_2z_payments
    &&& j.collected_2z_converted_from_sol == d.collected_2z_converted_from_sol
    &&& j.uncollectible_sol_debt == d.uncollectible_sol_debt
    &&& j.processed_solana_validator_debt_start_index == d.processed_solana_validator_debt_start_index
    &&& j.processed_solana_validator_debt_end_index == d.processed_solana_validator_debt_end_index
    &&& j.processed_rewards_start_index == d.processed_rewards_start_index
    &&& j.processed_rewards_end_index == d.processed_rewards_end_index
    &&& j.distribute_rewards_relay_lamports == d.distribute_rewards_relay_lamports
    &&& j.calculation_allowed_timestamp == d.calculation_allowed_timestamp
    &&& j.distributed_2z_amount == d.distributed_2z_amount
    &&& j.burned_2z_amount == d.burned_2z_amount
    &&& j.processed_solana_validator_debt_write_off_start_index
        == d.processed_solana_validator_debt_write_off_start_index
    &&& j.processed_solana_validator_debt_write_off_end_index == d.processed_solana_validator_debt_write_off_end_index
    &&& j.solana_validator_write_off_count == d.solana_validator_write_off_count
}

/// Every integer field of a distribution's dump carries the account field
/// of the same name, the flag word is written in decimal, its bits one to
/// three give the three state flags, and the roots are written in hex.
pub proof fn lemma_distribution_dump_fields(j: DistributionJson, d: Distribution)
    requires
        distribution_written(j, d),
    ensures
        j.dz_epoch == d.dz_epoch.0,
        j.flags@ == decimal_digits(d.flags as nat),
        j.is_debt_calculation_finalized == ((d.flags >> 1u64) & 1 == 1),
        j.is_rewards_calculation_finalized == ((d.flags >> 2u64) & 1 == 1),
        j.has_swept_2z_tokens == ((d.flags >> 3u64) & 1 == 1),
        j.community_burn_rate_raw == d.community_burn_rate.0 as u64,
        j.solana_validator_fee_parameters.base_block_rewards_pct_raw
            == d.solana_validator_fee_parameters.base_block_rewards_pct.0 as u64,
        j.solana_validator_fee_parameters.priority_block_rewards_pct_raw
            == d.solana_validator_fee_parameters.priority_block_rewards_pct.0 as u64,
        j.solana_validator_fee_parameters.inflation_rewards_pct_raw
            == d.solana_validator_fee_parameters.inflation_rewards_pct.0 as u64,
        j.solana_validator_fee_parameters.jito_tips_pct_raw == d.solana_validator_fee_parameters.jito_tips_pct.0 as u64,
        j.solana_validator_fee_parameters.fixed_sol_amount == d.solana_validator_fee_parameters.fixed_sol_amount,
        j.solana_validator_debt_merkle_root@ == hex_lower(d.solana_validator_debt_merkle_root@),
        j.rewards_merkle_root@ == hex_lower(d.rewards_merkle_root@),
        j.total_solana_validators == d.total_solana_validators,
        j.solana_validator_payments_count == d.solana_validator_payments_count,
        j.total_solana_validator_debt == d.total_solana_validator_debt,
        j.collected_solana_validator_payments == d.collected_solana_validator_payments,
        j.total_contributors == d.total_contributors,
        j.distributed_rewards_count == d.distributed_rewards_count,
        j.collected_prepaid_2z_payments == d.collected_prepaid_2z_payments,
        j.collected_2z_converted_from_sol == d.collected_2z_converted_from_sol,
        j.uncollectible_sol_debt == d.uncollectible_sol_debt,
        j.processed_solana_validator_debt_start_index == d.processed_solana_validator_debt_start_index,
        j.processed_solana_validator_debt_end_index == d.processed_solana_validator_debt_end_index,
        j.processed_rewards_start_index == d.processed_rewards_start_index,
        j.processed_rewards_end_index == d.processed_rewards_end_index,
        j.distribute_rewards_relay_lamports == d.distribute_rewards_relay_lamports,
        j.calculation_allowed_timestamp == d.calculation_allowed_timestamp,
        j.distributed_2z_amount == d.distributed_2z_amount,
        j.burned_2z_amount == d.burned_2z_amount,
        j.processed_solana_validator_debt_write_off_start_index
            == d.processed_solana_validator_debt_write_off_start_index,
        j.processed_solana_validator_debt_write_off_end_index == d.processed_solana_validator_debt_write_off_end_index,
        j.solana_validator_write_off_count == d.solana_validator_write_off_count,
{
}

pub fn distribution_to_json(distribution: &Distribution) -> (r: DistributionJson)
    ensures
        distribution_written(r, *distribution),
{
    let d = distribution;
    DistributionJson {
        dz_epoch: d.dz_epoch.value(),
        flags: flags_debug_text(d.flags),
        is_debt_calculation_finalized: d.is_debt_calculation_finalized(),
        is_rewards_calculation_finalized: d.is_rewards_calculation_finalized(),
        has_swept_2z_tokens: d.has_swept_2z_tokens(),
        community_burn_rate_raw: burn_rate_to_raw(d.community_burn_rate),
        solana_validator_fee_parameters: fee_params_to_json(&d.solana_validator_fee_parameters),
        solana_validator_debt_merkle_root: hash_to_hex(&d.solana_validator_debt_merkle_root),
        rewards_merkle_root: hash_to_hex(&d.rewards_merkle_root),
        total_solana_validators: d.total_solana_validators,
        solana_validator_payments_count: d.solana_validator_payments_count,
        total_solana_validator_debt: d.total_solana_validator_debt,
        collected_solana_validator_payments: d.collected_solana_validator_payments,
        total_contributors: d.total_contributors,
        distributed_rewards_count: d.distributed_rewards_count,
        collected_prepaid_2z_payments: d.collected_prepaid_2z_payments,
        collected_2z_converted_from_sol: d.collected_2z_converted_from_sol,
        uncollectible_sol_debt: d.uncollectible_sol_debt,
        processed_solana_validator_debt_start_index: d.processed_solana_validator_debt_start_index,
        processed_solana_validator_debt_end_index: d.processed_solana_validator_debt_end_index,
        processed_rewards_start_index: d.processed_rewards_start_index,
        processed_rewards_end_index: d.processed_rewards_end_index,
        distribute_rewards_relay_lamports: d.distribute_rewards_relay_lamports,
        calculation_allowed_timestamp: d.calculation_allowed_timestamp,
        distributed_2z_amount: d.distributed_2z_amount,
        burned_2z_amount: d.burned_2z_amount,
        processed_solana_validator_debt_write_off_start_index: d.processed_solana_validator_debt_write_off_start_index,
        processed_solana_validator_debt_write_off_end_index: d.processed_solana_validator_debt_write_off_end_index,
        solana_validator_write_off_count: d.solana_validator_write_off_count,
    }
}

} // verus!
