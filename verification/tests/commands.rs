use fees_tooling::cli::{
    Args, ArgsError, ArgsOutcome, ReportArgs, SnapshotArgs, default_out_dir, parse_args, parse_report_args,
    parse_snapshot_args,
};
use fees_tooling::enrich::{EnrichConfig, run_from_args};
use fees_tooling::onchain::rpc_url_for_key;
use fees_tooling::snapshot::DEFAULT_SNAPSHOT_BUCKET;

fn args(items: &[&str]) -> Vec<String> {
    items.iter().map(|s| s.to_string()).collect()
}

#[test]
fn main_args_flag_and_positional_epoch() {
    assert_eq!(
        parse_args(&args(&["--dz-epoch", "77", "--index", "--out-dir", "o"])),
        Ok(ArgsOutcome::Parsed(Args {
            dz_epoch: Some(77),
            index_distributions: true,
            out_dir: Some("o".to_string()),
            snapshot_bucket: None,
        }))
    );
    assert_eq!(
        parse_args(&args(&["12", "--snapshot-bucket", "https://b"])),
        Ok(ArgsOutcome::Parsed(Args {
            dz_epoch: Some(12),
            index_distributions: false,
            out_dir: None,
            snapshot_bucket: Some("https://b".to_string()),
        }))
    );
}

#[test]
fn main_args_errors() {
    assert_eq!(
        parse_args(&args(&["--dz-epoch"])),
        Err(ArgsError::MissingValue { flag: "--dz-epoch".to_string() })
    );
    assert_eq!(
        parse_args(&args(&["--dz-epoch", "x"])),
        Err(ArgsError::InvalidNumber { what: "invalid dz epoch".to_string() })
    );
    assert_eq!(
        parse_args(&args(&["1", "2"])),
        Err(ArgsError::UnexpectedArgument { arg: "2".to_string() })
    );
    assert_eq!(
        parse_args(&args(&["--index"])),
        Err(ArgsError::Missing {
            message: "missing dz epoch (use --dz-epoch <n> or pass it as a positional)".to_string()
        })
    );
    assert_eq!(parse_args(&args(&["--index", "-h"])), Ok(ArgsOutcome::Help));
    assert_eq!(parse_args(&args(&["--dz-epoch", "+5"])), Ok(ArgsOutcome::Parsed(Args {
        dz_epoch: Some(5),
        index_distributions: false,
        out_dir: None,
        snapshot_bucket: None,
    })));
}

#[test]
fn report_args_positional_and_flags() {
    assert_eq!(
        parse_report_args(&args(&["out/epoch_7", "--fees-csv", "fees.csv"])),
        Ok(ArgsOutcome::Parsed(ReportArgs {
            input_dir: "out/epoch_7".to_string(),
            fees_csv: Some("fees.csv".to_string()),
            out_dir: None,
        }))
    );
    assert_eq!(
        parse_report_args(&args(&["--out-dir", "r"])),
        Err(ArgsError::Missing { message: "missing input directory".to_string() })
    );
    assert_eq!(
        parse_report_args(&args(&["a", "b"])),
        Err(ArgsError::UnexpectedArgument { arg: "b".to_string() })
    );
}

#[test]
fn snapshot_args_epoch_or_latest() {
    assert_eq!(
        parse_snapshot_args(&args(&["--epoch", "9"])),
        Ok(ArgsOutcome::Parsed(SnapshotArgs {
            epoch: Some(9),
            latest: false,
            out_dir: None,
            bucket: DEFAULT_SNAPSHOT_BUCKET.to_string(),
        }))
    );
    assert_eq!(
        parse_snapshot_args(&args(&["--latest", "--bucket", "https://x/"])),
        Ok(ArgsOutcome::Parsed(SnapshotArgs {
            epoch: None,
            latest: true,
            out_dir: None,
            bucket: "https://x/".to_string(),
        }))
    );
    assert_eq!(parse_snapshot_args(&args(&[])), Err(ArgsError::EpochOrLatestRequired));
    assert_eq!(parse_snapshot_args(&args(&["--epoch", "1", "--latest"])), Err(ArgsError::EpochAndLatest));
    assert_eq!(
        parse_snapshot_args(&args(&["--epoch", "-1"])),
        Err(ArgsError::InvalidNumber { what: "invalid epoch".to_string() })
    );
}

#[test]
fn enrich_args_give_the_run_config() {
    assert_eq!(
        run_from_args(&args(&["--snapshot", "s", "--onchain-dir", "o"])),
        Ok(ArgsOutcome::Parsed(EnrichConfig {
            snapshot_path: "s".to_string(),
            onchain_dir: "o".to_string(),
            out_dir: None,
        }))
    );
    assert_eq!(
        run_from_args(&args(&["--onchain-dir", "o"])),
        Err(ArgsError::Missing { message: "missing --snapshot".to_string() })
    );
    assert_eq!(
        run_from_args(&args(&["--snapshot", "s"])),
        Err(ArgsError::Missing { message: "missing --onchain-dir".to_string() })
    );
    assert_eq!(run_from_args(&args(&["--help"])), Ok(ArgsOutcome::Help));
    assert_eq!(
        run_from_args(&args(&["--bogus"])),
        Err(ArgsError::UnexpectedArgument { arg: "--bogus".to_string() })
    );
}

#[test]
fn default_paths_and_rpc_url() {
    assert_eq!(default_out_dir(77), "out/epoch_77");
    assert_eq!(default_out_dir(0), "out/epoch_0");
    assert_eq!(rpc_url_for_key("k3y"), "https://mainnet.helius-rpc.com/?api-key=k3y");
}

#[test]
fn enrich_args_keep_the_last_value_of_each_flag() {
    assert_eq!(
        run_from_args(&args(&[
            "--snapshot", "s1", "--out-dir", "o1", "--onchain-dir", "c1", "--snapshot", "s2", "--out-dir", "o2",
        ])),
        Ok(ArgsOutcome::Parsed(EnrichConfig {
            snapshot_path: "s2".to_string(),
            onchain_dir: "c1".to_string(),
            out_dir: Some("o2".to_string()),
        }))
    );
}
