use fees_tooling::dz::{
    CommunityBurnRateParameters, Distribution, DoubleZeroEpoch, Journal, ProgramConfig, Pubkey, U128Le,
    UnitShare32, revenue_distribution_program_id,
};
use fees_tooling::onchain::{
    distribution_discriminator, journal_discriminator, parse_account, program_config_discriminator,
};
use fees_tooling::zero_copy::{AccountDataError, checked_from_bytes_with_discriminator, discriminator};

fn put_u64(buf: &mut [u8], off: usize, v: u64) {
    buf[off..off + 8].copy_from_slice(&v.to_le_bytes());
}

fn put_u32(buf: &mut [u8], off: usize, v: u32) {
    buf[off..off + 4].copy_from_slice(&v.to_le_bytes());
}

fn put_u16(buf: &mut [u8], off: usize, v: u16) {
    buf[off..off + 2].copy_from_slice(&v.to_le_bytes());
}

fn account_bytes(disc: [u8; 8], body_len: usize) -> Vec<u8> {
    let mut data = vec![0u8; 8 + body_len];
    data[..8].copy_from_slice(&disc);
    data
}

#[test]
fn discriminators_are_sha256_prefixes() {
    assert_eq!(program_config_discriminator(), [207, 180, 133, 236, 48, 39, 241, 27]);
    assert_eq!(journal_discriminator(), [249, 124, 83, 20, 162, 62, 67, 9]);
    assert_eq!(distribution_discriminator(), [135, 158, 143, 216, 29, 34, 192, 37]);
    assert_eq!(discriminator(b"dz::account::journal"), journal_discriminator());
}

#[test]
fn program_id_matches_its_base58_text() {
    let decoded = bs58::decode("dzrevZC94tBLwuHw1dyynZxaXTWyp7yocsinyEVPtt4").into_vec().unwrap();
    assert_eq!(revenue_distribution_program_id().0.to_vec(), decoded);
}

#[test]
fn epoch_value_seed_and_subtraction() {
    let e = DoubleZeroEpoch(0x0102_0304_0506_0708);
    assert_eq!(e.value(), 0x0102_0304_0506_0708);
    assert_eq!(e.as_seed(), [8, 7, 6, 5, 4, 3, 2, 1]);
    assert_eq!(u64::from_le_bytes(DoubleZeroEpoch(77).as_seed()), 77);
    assert_eq!(DoubleZeroEpoch(10).checked_sub_duration(3), Some(DoubleZeroEpoch(7)));
    assert_eq!(DoubleZeroEpoch(10).checked_sub_duration(10), Some(DoubleZeroEpoch(0)));
    assert_eq!(DoubleZeroEpoch(10).checked_sub_duration(11), None);
}

#[test]
fn burn_rate_mode_and_next_rate() {
    let mut p = CommunityBurnRateParameters::default();
    assert_eq!(p.mode(), "Limit");
    assert_eq!(p.next_burn_rate_raw(), None);
    p.dz_epochs_to_limit = 5;
    assert_eq!(p.mode(), "Increasing");
    p.dz_epochs_to_increasing = 2;
    assert_eq!(p.mode(), "Static");
    p.cached_next_burn_rate = UnitShare32(250_000_000);
    assert_eq!(p.next_burn_rate_raw(), Some(250_000_000));
    assert_eq!(UnitShare32::MAX, 1_000_000_000);
}

#[test]
fn u128_from_two_limbs() {
    assert_eq!(U128Le([5, 0]).to_u128(), 5);
    assert_eq!(U128Le([0, 1]).to_u128(), 1u128 << 64);
    assert_eq!(U128Le([u64::MAX, u64::MAX]).to_u128(), u128::MAX);
    assert_eq!(U128Le([3, 2]).to_u128(), (2u128 << 64) | 3);
}

#[test]
fn distribution_fields_decode_little_endian() {
    let mut data = account_bytes(distribution_discriminator(), Distribution::LEN + 5);
    let b = 8;
    put_u64(&mut data, b, 42);
    put_u64(&mut data, b + 8, 0b1110);
    put_u32(&mut data, b + 16, 123_456_789);
    put_u16(&mut data, b + 24, 1200);
    put_u16(&mut data, b + 26, 300);
    put_u16(&mut data, b + 28, 50);
    put_u16(&mut data, b + 30, 75);
    put_u32(&mut data, b + 32, 4242);
    data[b + 64..b + 96].copy_from_slice(&[0xab; 32]);
    put_u32(&mut data, b + 96, 900);
    put_u32(&mut data, b + 100, 800);
    put_u64(&mut data, b + 104, 5_000_000_000);
    put_u64(&mut data, b + 112, 4_000_000_000);
    data[b + 120..b + 152].copy_from_slice(&[0x01; 32]);
    put_u32(&mut data, b + 152, 17);
    put_u64(&mut data, b + 208, 777);
    put_u64(&mut data, b + 216, 111);
    put_u32(&mut data, b + 232, 3);

    let d: Distribution = checked_from_bytes_with_discriminator(&data, distribution_discriminator()).unwrap();
    assert_eq!(d.dz_epoch.value(), 42);
    assert_eq!(d.flags, 0b1110);
    assert!(d.is_debt_calculation_finalized());
    assert!(d.is_rewards_calculation_finalized());
    assert!(d.has_swept_2z_tokens());
    assert_eq!(d.community_burn_rate.0, 123_456_789);
    assert_eq!(d.solana_validator_fee_parameters.base_block_rewards_pct.0, 1200);
    assert_eq!(d.solana_validator_fee_parameters.priority_block_rewards_pct.0, 300);
    assert_eq!(d.solana_validator_fee_parameters.inflation_rewards_pct.0, 50);
    assert_eq!(d.solana_validator_fee_parameters.jito_tips_pct.0, 75);
    assert_eq!(d.solana_validator_fee_parameters.fixed_sol_amount, 4242);
    assert_eq!(d.solana_validator_debt_merkle_root, [0xab; 32]);
    assert_eq!(d.total_solana_validators, 900);
    assert_eq!(d.solana_validator_payments_count, 800);
    assert_eq!(d.total_solana_validator_debt, 5_000_000_000);
    assert_eq!(d.collected_solana_validator_payments, 4_000_000_000);
    assert_eq!(d.rewards_merkle_root, [0x01; 32]);
    assert_eq!(d.total_contributors, 17);
    assert_eq!(d.distributed_2z_amount, 777);
    assert_eq!(d.burned_2z_amount, 111);
    assert_eq!(d.solana_validator_write_off_count, 3);

    let (again, remaining) = parse_account::<Distribution>(&data, distribution_discriminator()).unwrap();
    assert_eq!(again, d);
    assert_eq!(remaining, 5);
}

#[test]
fn flags_below_bit_one_leave_distribution_unfinalized() {
    let mut data = account_bytes(distribution_discriminator(), Distribution::LEN);
    put_u64(&mut data, 16, 0b0001);
    let d: Distribution = checked_from_bytes_with_discriminator(&data, distribution_discriminator()).unwrap();
    assert!(!d.is_debt_calculation_finalized());
    assert!(!d.is_rewards_calculation_finalized());
    assert!(!d.has_swept_2z_tokens());
}

#[test]
fn account_data_errors() {
    let short: Result<Distribution, _> = checked_from_bytes_with_discriminator(&[1, 2, 3], distribution_discriminator());
    assert_eq!(short, Err(AccountDataError::TooShortForDiscriminator));
    let wrong = account_bytes(journal_discriminator(), Distribution::LEN);
    let mismatch: Result<Distribution, _> = checked_from_bytes_with_discriminator(&wrong, distribution_discriminator());
    assert_eq!(mismatch, Err(AccountDataError::DiscriminatorMismatch));
    let truncated = account_bytes(distribution_discriminator(), Distribution::LEN - 1);
    let too_short: Result<Distribution, _> =
        checked_from_bytes_with_discriminator(&truncated, distribution_discriminator());
    assert_eq!(too_short, Err(AccountDataError::TooShortForStruct));
    assert_eq!(AccountDataError::DiscriminatorMismatch.message(), "discriminator mismatch");
    assert_eq!(AccountDataError::TooShortForStruct.message(), "account data too short for struct");
}

#[test]
fn journal_decodes_and_joins_its_u128() {
    let mut data = account_bytes(journal_discriminator(), Journal::LEN);
    data[8] = 254;
    data[9] = 253;
    put_u64(&mut data, 16, 1_000);
    put_u64(&mut data, 24, 2_000);
    put_u64(&mut data, 32, 3_000);
    put_u64(&mut data, 40, 4_000);
    put_u64(&mut data, 48, 99);
    put_u64(&mut data, 56, 7);
    put_u64(&mut data, 64, 1);
    let (j, remaining) = parse_account::<Journal>(&data, journal_discriminator()).unwrap();
    assert_eq!(remaining, 0);
    assert_eq!(j.bump_seed, 254);
    assert_eq!(j.token_2z_pda_bump_seed, 253);
    assert_eq!(j.total_sol_balance, 1_000);
    assert_eq!(j.total_2z_balance, 2_000);
    assert_eq!(j.swap_2z_destination_balance, 3_000);
    assert_eq!(j.swapped_sol_amount, 4_000);
    assert_eq!(j.next_dz_epoch_to_sweep_tokens, DoubleZeroEpoch(99));
    assert_eq!(j.lifetime_swapped_2z_amount(), (1u128 << 64) | 7);
}

#[test]
fn program_config_decodes_keys_parameters_and_flags() {
    let mut data = account_bytes(program_config_discriminator(), ProgramConfig::LEN);
    let b = 8;
    put_u64(&mut data, b, 0b10);
    put_u64(&mut data, b + 8, 120);
    data[b + 24..b + 56].copy_from_slice(&[7u8; 32]);
    data[b + 184..b + 216].copy_from_slice(&[9u8; 32]);
    put_u16(&mut data, b + 216, 30);
    put_u16(&mut data, b + 218, 45);
    data[b + 220] = 6;
    put_u32(&mut data, b + 224, 500_000_000);
    put_u32(&mut data, b + 228, 0);
    put_u32(&mut data, b + 232, 12);
    put_u32(&mut data, b + 244, 400_000_000);
    put_u16(&mut data, b + 248, 2500);
    put_u32(&mut data, b + 256, 10);
    put_u32(&mut data, b + 548, 5000);
    put_u32(&mut data, b + 584, 1_700_000_000);
    put_u64(&mut data, b + 592, 88);
    let c: ProgramConfig = checked_from_bytes_with_discriminator(&data, program_config_discriminator()).unwrap();
    assert!(!c.is_paused());
    assert!(c.is_migrated());
    assert_eq!(c.next_completed_dz_epoch.value(), 120);
    assert_eq!(c.admin_key, Pubkey([7u8; 32]));
    assert_eq!(c.sol_2z_swap_program_id, Pubkey([9u8; 32]));
    let dp = c.distribution_parameters;
    assert_eq!(dp.calculation_grace_period_minutes, 30);
    assert_eq!(dp.initialization_grace_period_minutes, 45);
    assert_eq!(dp.minimum_epoch_duration_to_finalize_rewards, 6);
    assert_eq!(dp.community_burn_rate_parameters.limit.0, 500_000_000);
    assert_eq!(dp.community_burn_rate_parameters.dz_epochs_to_limit, 12);
    assert_eq!(dp.community_burn_rate_parameters.mode(), "Increasing");
    assert_eq!(dp.community_burn_rate_parameters.next_burn_rate_raw(), Some(400_000_000));
    assert_eq!(dp.solana_validator_fee_parameters.base_block_rewards_pct.0, 2500);
    assert_eq!(dp.solana_validator_fee_parameters.fixed_sol_amount, 10);
    assert_eq!(c.relay_parameters.distribute_rewards_lamports, 5000);
    assert_eq!(c.last_initialized_distribution_timestamp, 1_700_000_000);
    assert_eq!(c.debt_write_off_feature_activation_epoch.value(), 88);
}

#[test]
fn addresses_match_solana_derivation() {
    let program = solana_program::pubkey::Pubkey::new_from_array(revenue_distribution_program_id().0);
    let (config_key, config_bump) =
        solana_program::pubkey::Pubkey::find_program_address(&[b"program_config"], &program);
    assert_eq!(ProgramConfig::find_address(), Some((Pubkey(config_key.to_bytes()), config_bump)));
    let (journal_key, journal_bump) = solana_program::pubkey::Pubkey::find_program_address(&[b"journal"], &program);
    assert_eq!(Journal::find_address(), Some((Pubkey(journal_key.to_bytes()), journal_bump)));
    let epoch = DoubleZeroEpoch(77);
    let (dist_key, dist_bump) =
        solana_program::pubkey::Pubkey::find_program_address(&[b"distribution", &77u64.to_le_bytes()], &program);
    assert_eq!(Distribution::find_address(epoch), Some((Pubkey(dist_key.to_bytes()), dist_bump)));
    assert_ne!(Distribution::find_address(DoubleZeroEpoch(78)), Distribution::find_address(epoch));
}
