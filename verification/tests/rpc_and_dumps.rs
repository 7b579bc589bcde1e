use base64::Engine;
use fees_tooling::dumps::{distribution_to_json, dump_account, fee_params_to_json, program_config_to_json};
use fees_tooling::dz::{
    Distribution, DoubleZeroEpoch, Journal, ProgramConfig, Pubkey, SolanaValidatorFeeParameters, UnitShare16,
};
use fees_tooling::onchain::{
    AccountValue, ProgramAccount, RawAccount, RpcContext, RpcError, RpcFetchError, RpcResponse, RpcResult,
    build_distributions_index, distribution_discriminator, distribution_filter_bytes, hash_to_hex,
    journal_discriminator, journal_to_json, raw_account_from_response,
};
use fees_tooling::zero_copy::AccountDataError;

fn b64(bytes: &[u8]) -> String {
    base64::engine::general_purpose::STANDARD.encode(bytes)
}

fn distribution_bytes(epoch: u64, flags: u64, debt: u64, extra: usize) -> Vec<u8> {
    let mut data = vec![0u8; 8 + Distribution::LEN + extra];
    data[..8].copy_from_slice(&distribution_discriminator());
    data[8..16].copy_from_slice(&epoch.to_le_bytes());
    data[16..24].copy_from_slice(&flags.to_le_bytes());
    data[112..120].copy_from_slice(&debt.to_le_bytes());
    data[160..164].copy_from_slice(&6u32.to_le_bytes());
    data
}

fn account(pubkey: &str, data: String, encoding: &str) -> ProgramAccount {
    ProgramAccount {
        pubkey: pubkey.to_string(),
        account: AccountValue {
            lamports: 1,
            owner: "11111111111111111111111111111111".to_string(),
            executable: false,
            rent_epoch: 0,
            data: (data, encoding.to_string()),
        },
    }
}

#[test]
fn index_lists_distributions_by_epoch() {
    let accounts = vec![
        account("k9", b64(&distribution_bytes(9, 0b1110, 500, 0)), "base64"),
        account("kj", b64(&vec![0u8; 64]), "base64"),
        account("k3", b64(&distribution_bytes(3, 0, 100, 4)), "base64"),
        account("kz", "ignored".to_string(), "base58"),
        account("k3b", b64(&distribution_bytes(3, 0b0010, 200, 0)), "base64"),
    ];
    let index = build_distributions_index(55, &accounts).unwrap();
    assert_eq!(index.context_slot, 55);
    assert_eq!(index.total_accounts, 3);
    let keys: Vec<&str> = index.entries.iter().map(|e| e.pubkey.as_str()).collect();
    assert_eq!(keys, vec!["k3", "k3b", "k9"]);
    assert_eq!(index.entries[0].remaining_data_len, 4);
    assert_eq!(index.entries[0].total_solana_validator_debt, 100);
    assert!(index.entries[1].is_debt_calculation_finalized);
    assert!(!index.entries[1].is_rewards_calculation_finalized);
    assert!(index.entries[2].has_swept_2z_tokens);
    assert_eq!(index.entries[2].total_contributors, 6);
}

#[test]
fn index_stops_on_bad_base64() {
    let accounts = vec![
        account("k1", b64(&distribution_bytes(1, 0, 0, 0)), "base64"),
        account("bad", "@@not base64@@".to_string(), "base64"),
    ];
    assert_eq!(build_distributions_index(0, &accounts), Err(RpcFetchError::Base64Decode));
}

fn response(value: Option<AccountValue>) -> RpcResponse<AccountValue> {
    RpcResponse { result: Some(RpcResult { context: RpcContext { slot: 321 }, value }), error: None }
}

fn value(data: String, encoding: &str, owner: &str) -> AccountValue {
    AccountValue {
        lamports: 10,
        owner: owner.to_string(),
        executable: true,
        rent_epoch: 2,
        data: (data, encoding.to_string()),
    }
}

#[test]
fn account_read_from_rpc_answer() {
    let owner = "dzrevZC94tBLwuHw1dyynZxaXTWyp7yocsinyEVPtt4";
    let raw = raw_account_from_response(response(Some(value(b64(&[1, 2, 3]), "base64", owner)))).unwrap();
    assert_eq!(raw.context_slot, 321);
    assert_eq!(raw.data, vec![1, 2, 3]);
    assert_eq!(raw.lamports, 10);
    assert!(raw.executable);
    assert_eq!(raw.rent_epoch, 2);
    assert_eq!(raw.owner, fees_tooling::dz::revenue_distribution_program_id());
}

#[test]
fn account_read_errors() {
    let owner = "11111111111111111111111111111111";
    let err = RpcResponse::<AccountValue> {
        result: None,
        error: Some(RpcError { code: -32602, message: "bad".to_string() }),
    };
    assert_eq!(
        raw_account_from_response(err),
        Err(RpcFetchError::Rpc { code: -32602, message: "bad".to_string() })
    );
    let missing = RpcResponse::<AccountValue> { result: None, error: None };
    assert_eq!(raw_account_from_response(missing), Err(RpcFetchError::MissingResult));
    assert_eq!(raw_account_from_response(response(None)), Err(RpcFetchError::AccountNotFound));
    assert_eq!(
        raw_account_from_response(response(Some(value(b64(&[1]), "base58", owner)))),
        Err(RpcFetchError::UnexpectedEncoding { encoding: "base58".to_string() })
    );
    assert_eq!(
        raw_account_from_response(response(Some(value("!!".to_string(), "base64", owner)))),
        Err(RpcFetchError::Base64Decode)
    );
    assert_eq!(
        raw_account_from_response(response(Some(value(b64(&[1]), "base64", "not-a-key")))),
        Err(RpcFetchError::InvalidOwner)
    );
}

#[test]
fn filter_bytes_and_hex() {
    assert_eq!(distribution_filter_bytes(), bs58::encode(distribution_discriminator()).into_string());
    let mut hash = [0u8; 32];
    hash[0] = 0xab;
    hash[31] = 0x0f;
    let text = hash_to_hex(&hash);
    assert_eq!(text.len(), 64);
    assert!(text.starts_with("ab00"));
    assert!(text.ends_with("000f"));
}

#[test]
fn journal_record() {
    let mut data = vec![0u8; 8 + Journal::LEN];
    data[..8].copy_from_slice(&journal_discriminator());
    data[16..24].copy_from_slice(&5u64.to_le_bytes());
    data[48..56].copy_from_slice(&31u64.to_le_bytes());
    data[56..64].copy_from_slice(&1u64.to_le_bytes());
    data[64..72].copy_from_slice(&2u64.to_le_bytes());
    let raw = RawAccount {
        context_slot: 9,
        owner: Pubkey([3u8; 32]),
        lamports: 4,
        executable: false,
        rent_epoch: 1,
        data: data.clone(),
    };
    let key = Pubkey([8u8; 32]);
    let dump = dump_account::<Journal>(&key, &raw, journal_discriminator()).unwrap();
    assert_eq!(dump.context_slot, 9);
    assert_eq!(dump.account.pubkey, solana_program::pubkey::Pubkey::new_from_array([8u8; 32]).to_string());
    assert_eq!(dump.account.owner, solana_program::pubkey::Pubkey::new_from_array([3u8; 32]).to_string());
    assert_eq!(dump.account.data_len, 8 + Journal::LEN);
    assert_eq!(dump.remaining_data_len, 0);
    let json = journal_to_json(&dump.parsed);
    assert_eq!(json.total_sol_balance, 5);
    assert_eq!(json.next_dz_epoch_to_sweep_tokens, 31);
    assert_eq!(json.lifetime_swapped_2z_amount, (2u128 << 64) | 1);
    let wrong = dump_account::<Journal>(&key, &raw, distribution_discriminator());
    assert_eq!(wrong.unwrap_err(), AccountDataError::DiscriminatorMismatch);
}

#[test]
fn distribution_record() {
    let mut d = Distribution::default();
    d.dz_epoch = DoubleZeroEpoch(12);
    d.flags = 0b1010;
    d.community_burn_rate.0 = 42;
    d.rewards_merkle_root = [0x11; 32];
    d.total_solana_validator_debt = 77;
    let j = distribution_to_json(&d);
    assert_eq!(j.dz_epoch, 12);
    assert_eq!(j.flags, "10");
    assert!(j.is_debt_calculation_finalized);
    assert!(!j.is_rewards_calculation_finalized);
    assert!(j.has_swept_2z_tokens);
    assert_eq!(j.community_burn_rate_raw, 42);
    assert_eq!(j.rewards_merkle_root, "11".repeat(32));
    assert_eq!(j.solana_validator_debt_merkle_root, "00".repeat(32));
    assert_eq!(j.total_solana_validator_debt, 77);
    assert_eq!(distribution_to_json(&Distribution::default()).flags, "0");
}

#[test]
fn fee_and_program_config_records() {
    let mut fees = SolanaValidatorFeeParameters::default();
    fees.base_block_rewards_pct = UnitShare16(1500);
    fees.jito_tips_pct = UnitShare16(9999);
    fees.fixed_sol_amount = 3;
    let fj = fee_params_to_json(&fees);
    assert_eq!(fj.base_block_rewards_pct_raw, 1500);
    assert_eq!(fj.priority_block_rewards_pct_raw, 0);
    assert_eq!(fj.jito_tips_pct_raw, 9999);
    assert_eq!(fj.fixed_sol_amount, 3);

    let mut c = ProgramConfig::default();
    c.flags = 1;
    c.admin_key = Pubkey([5u8; 32]);
    c.next_completed_dz_epoch = DoubleZeroEpoch(40);
    c.distribution_parameters.community_burn_rate_parameters.dz_epochs_to_increasing = 3;
    c.distribution_parameters.solana_validator_fee_parameters = fees;
    c.relay_parameters.distribute_rewards_lamports = 700;
    let key = Pubkey([6u8; 32]);
    let j = program_config_to_json("prog", &key, &c);
    assert_eq!(j.program_id, "prog");
    assert_eq!(j.program_config_key, solana_program::pubkey::Pubkey::new_from_array([6u8; 32]).to_string());
    assert_eq!(j.admin_key, solana_program::pubkey::Pubkey::new_from_array([5u8; 32]).to_string());
    assert!(j.is_paused);
    assert!(!j.is_migrated);
    assert_eq!(j.next_completed_dz_epoch, 40);
    assert_eq!(j.distribution_parameters.community_burn_rate_parameters.mode, "Static");
    assert_eq!(j.distribution_parameters.community_burn_rate_parameters.next_burn_rate_raw, None);
    assert_eq!(j.distribution_parameters.solana_validator_fee_parameters, fj);
    assert_eq!(j.distribute_rewards_lamports, 700);
}

#[test]
fn key_text_is_base58() {
    let program = fees_tooling::dz::revenue_distribution_program_id();
    assert_eq!(program.to_text(), "dzrevZC94tBLwuHw1dyynZxaXTWyp7yocsinyEVPtt4");
    assert_eq!(Pubkey([0u8; 32]).to_text(), "11111111111111111111111111111111");
}
