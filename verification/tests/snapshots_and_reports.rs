use fees_tooling::report::{
    DistributionFileError, DistributionSummary, FeesCsvError, FeesTotals, ReconciliationSummary, debt_minus_fees,
    distribution_file_name_matches, epoch_report, epoch_report_markdown, onchain_distribution_file, pick_distribution_file, publishable,
    report_distribution_file, summarize_fees,
};
use fees_tooling::snapshot::{
    bucket_list_url, latest_snapshot_epoch, parse_keys, parse_snapshot_epoch, retry_delay_secs, snapshot_filename,
    snapshot_out_dir, snapshot_url,
};

#[test]
fn keys_are_read_between_key_tags() {
    let xml = "<ListBucketResult><Contents><Key>mn-epoch-3-snapshot.json</Key></Contents>\
               <Contents><Key>other.txt</Key></Contents><Key>unterminated";
    assert_eq!(parse_keys(xml), vec!["mn-epoch-3-snapshot.json".to_string(), "other.txt".to_string()]);
    assert_eq!(parse_keys("no keys here"), Vec::<String>::new());
    assert_eq!(parse_keys("<Key></Key>"), vec!["".to_string()]);
}

#[test]
fn snapshot_epochs_from_keys() {
    assert_eq!(parse_snapshot_epoch("mn-epoch-77-snapshot.json"), Some(77));
    assert_eq!(parse_snapshot_epoch("mn-epoch-x-snapshot.json"), None);
    assert_eq!(parse_snapshot_epoch("mn-epoch-77-snapshot.txt"), None);
    assert_eq!(parse_snapshot_epoch("epoch-77-snapshot.json"), None);
    assert_eq!(parse_snapshot_epoch("mn-epoch--snapshot.json"), None);
}

#[test]
fn latest_epoch_is_the_largest_listed() {
    let xml = "<Key>mn-epoch-5-snapshot.json</Key><Key>mn-epoch-12-snapshot.json</Key>\
               <Key>readme</Key><Key>mn-epoch-9-snapshot.json</Key>";
    assert_eq!(latest_snapshot_epoch(xml), Some(12));
    assert_eq!(latest_snapshot_epoch("<Key>readme</Key>"), None);
}

#[test]
fn snapshot_names_and_addresses() {
    assert_eq!(snapshot_filename(77), "mn-epoch-77-snapshot.json");
    assert_eq!(parse_snapshot_epoch(&snapshot_filename(123456)), Some(123456));
    assert_eq!(snapshot_url("https://bucket//", 4), "https://bucket/mn-epoch-4-snapshot.json");
    assert_eq!(bucket_list_url("https://bucket/"), "https://bucket/?list-type=2");
    assert_eq!(snapshot_out_dir(8), "out/epoch_8/snapshot");
}

#[test]
fn retry_delays_grow_and_stop() {
    assert_eq!(retry_delay_secs(1, 3), Some(2));
    assert_eq!(retry_delay_secs(2, 3), Some(4));
    assert_eq!(retry_delay_secs(3, 3), None);
}

#[test]
fn fees_csv_totals() {
    let csv = "validator,epoch,dz_fee_lamports\nA,1,100\n\nB,1, \"250\" \r\nC,2,7\n";
    assert_eq!(summarize_fees(csv), Ok(FeesTotals { rows: 3, total_dz_fee_lamports: 357 }));
    assert_eq!(summarize_fees(""), Err(FeesCsvError::MissingHeader));
    assert_eq!(summarize_fees("h\nonly,two\n"), Err(FeesCsvError::InvalidLine { line: "only,two".to_string() }));
    assert_eq!(summarize_fees("h\na,b,c\n"), Err(FeesCsvError::InvalidLamports));
    let huge = format!("h\na,b,{}\nc,d,5\n", u64::MAX);
    assert_eq!(summarize_fees(&huge), Ok(FeesTotals { rows: 2, total_dz_fee_lamports: u64::MAX }));
}

#[test]
fn publishable_needs_all_three_flags() {
    assert!(publishable(true, true, true));
    assert!(!publishable(true, true, false));
    assert!(!publishable(false, true, true));
    assert_eq!(debt_minus_fees(100, 250), -150);
    assert_eq!(debt_minus_fees(u64::MAX, 0), u64::MAX as i128);
}

#[test]
fn distribution_file_choice() {
    assert!(distribution_file_name_matches("distribution_77.json"));
    assert!(!distribution_file_name_matches("distribution.json"));
    let names = vec!["summary.json".to_string(), "distribution_7.json".to_string()];
    assert_eq!(pick_distribution_file(&names), Ok(1));
    let none = vec!["summary.json".to_string()];
    assert_eq!(pick_distribution_file(&none), Err(DistributionFileError::NoneFound));
    let two = vec!["distribution_1.json".to_string(), "distribution_2.json".to_string()];
    assert_eq!(pick_distribution_file(&two), Err(DistributionFileError::Multiple));
}

fn summary() -> DistributionSummary {
    DistributionSummary {
        dz_epoch: 77,
        is_debt_calculation_finalized: true,
        is_rewards_calculation_finalized: true,
        has_swept_2z_tokens: false,
        total_solana_validator_debt: 1_000,
        collected_solana_validator_payments: 900,
        collected_prepaid_2z_payments: 1,
        collected_2z_converted_from_sol: 2,
        uncollectible_sol_debt: 3,
        total_solana_validators: 10,
        total_contributors: 4,
        distributed_2z_amount: 500,
        burned_2z_amount: 50,
        rewards_merkle_root: "aa".to_string(),
        solana_validator_debt_merkle_root: "bb".to_string(),
    }
}

#[test]
fn report_reconciles_with_fees() {
    let fees = FeesTotals { rows: 2, total_dz_fee_lamports: 1_200 };
    let r = epoch_report(summary(), Some(fees));
    assert_eq!(r.dz_epoch, 77);
    assert!(!r.publishable);
    assert!(r.flags.debt_finalized && r.flags.rewards_finalized && !r.flags.has_swept_2z_tokens);
    assert_eq!(r.totals.total_solana_validator_debt_lamports, 1_000);
    assert_eq!(r.totals.total_contributors, 4);
    assert_eq!(r.merkle_roots.rewards_merkle_root, "aa");
    assert_eq!(r.fees_summary, Some(fees));
    assert_eq!(
        r.reconciliation,
        Some(ReconciliationSummary { fees_total_lamports: 1_200, onchain_debt_lamports: 1_000, difference_lamports: -200 })
    );
    let without = epoch_report(summary(), None);
    assert_eq!(without.reconciliation, None);
    assert_eq!(without.fees_summary, None);
}

#[test]
fn report_reads_an_epoch_folders_onchain_dump() {
    let epoch_folder = vec!["onchain".to_string(), "summary.json".to_string()];
    assert_eq!(report_distribution_file(true, &epoch_folder), Ok("onchain/distribution.json".to_string()));
    assert_eq!(report_distribution_file(false, &epoch_folder), Err(DistributionFileError::NoneFound));
    let flat = vec!["distribution_9.json".to_string(), "notes.txt".to_string()];
    assert_eq!(report_distribution_file(false, &flat), Ok("distribution_9.json".to_string()));
    assert_eq!(report_distribution_file(true, &flat), Ok("onchain/distribution.json".to_string()));
    let two = vec!["distribution_1.json".to_string(), "distribution_2.json".to_string()];
    assert_eq!(report_distribution_file(false, &two), Err(DistributionFileError::Multiple));
}

#[test]
fn enrichment_prefers_the_direct_dump() {
    let names = vec!["distribution_3.json".to_string()];
    assert_eq!(onchain_distribution_file(true, &names), Ok("distribution.json".to_string()));
    assert_eq!(onchain_distribution_file(false, &names), Ok("distribution_3.json".to_string()));
    assert_eq!(onchain_distribution_file(false, &vec![]), Err(DistributionFileError::NoneFound));
}

#[test]
fn snapshot_keys_read_only_in_their_shape() {
    assert_eq!(parse_snapshot_epoch("mn-epoch-0042-snapshot.json"), Some(42));
    assert_eq!(parse_snapshot_epoch("mn-epoch-4-2-snapshot.json"), None);
    assert_eq!(parse_snapshot_epoch("xmn-epoch-42-snapshot.json"), None);
    assert_eq!(parse_snapshot_epoch("mn-epoch-42-snapshot.jsonx"), None);
}

#[test]
fn markdown_report_lines() {
    let fees = FeesTotals { rows: 2, total_dz_fee_lamports: 1_200 };
    let r = epoch_report(summary(), Some(fees));
    let md = epoch_report_markdown(&r, "0.000001000", Some(("0.000001200", "fees.csv")), Some("-0.000000200"));
    let expected = "# DZ Epoch 77 Report\n\n## Flags\n- Debt finalized: true\n- Rewards finalized: true\n\
- 2Z swept: false\n- Publishable: false\n\n## Totals\n- Total SOL debt: 1000 lamports (0.000001000 SOL)\n\
- Distributed 2Z: 500\n- Burned 2Z: 50\n- Total validators: 10\n- Total contributors: 4\n\n## Merkle Roots\n\
- Rewards: `aa`\n- Debt: `bb`\n\n## Reconciliation\n\
- Fees CSV total: 1200 lamports (0.000001200 SOL) from `fees.csv`\n\
- Debt minus fees: -200 lamports (-0.000000200 SOL)\n";
    assert_eq!(md, expected);

    let mut all = summary();
    all.has_swept_2z_tokens = true;
    let plain = epoch_report_markdown(&epoch_report(all, None), "0.000001000", None, None);
    assert!(plain.contains("- Publishable: true\n"));
    assert!(plain.contains("## Reconciliation\n- Fees CSV total: (not provided)\n- Debt minus fees: (not computed)\n"));
}
