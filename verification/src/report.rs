//! The epoch report: whether an epoch is publishable, how its debt compares
//! with a fees CSV, and which distribution file an epoch folder holds.

use vstd::prelude::*;
use vstd::string::StringExecFns;

use crate::text::{
    bool_text, bool_to_text, chars_of, copy_range, decimal_digits, find, find_from, i128_to_decimal, signed_decimal,
    text_concat, u64_to_decimal, has_prefix, has_suffix, lemma_find_from, matches_at, parse_u64,
    spec_parse_u64, string_from_chars, trim_char, trim_char_range, trim_ws, trim_ws_range,
};

verus! {

/// An epoch can be published once its debt and rewards are finalized and
/// its 2Z tokens swept.
pub open spec fn spec_publishable(debt_finalized: bool, rewards_finalized: bool, swept: bool) -> bool {
    debt_finalized && rewards_finalized && swept
}

pub fn publishable(debt_finalized: bool, rewards_finalized: bool, swept: bool) -> (r: bool)
    ensures
        r == spec_publishable(debt_finalized, rewards_finalized, swept),
        r ==> debt_finalized && rewards_finalized && swept,
        debt_finalized && rewards_finalized && swept ==> r,
{
    debt_finalized && rewards_finalized && swept
}

/// The on-chain debt minus the fees total, in lamports.
pub fn debt_minus_fees(onchain_debt_lamports: u64, fees_total_lamports: u64) -> (r: i128)
    ensures
        r == onchain_debt_lamports - fees_total_lamports,
{
    onchain_debt_lamports as i128 - fees_total_lamports as i128
}

/// The fields of a distribution dump that a report reads.
#[derive(Debug, Clone, PartialEq, Eq)]
pub struct DistributionSummary {
    pub dz_epoch: u64,
    pub is_debt_calculation_finalized: bool,
    pub is_rewards_calculation_finalized: bool,
    pub has_swept_2z_tokens: bool,
    pub total_solana_validator_debt: u64,
    pub collected_solana_validator_payments: u64,
    pub collected_prepaid_2z_payments: u64,
    pub collected_2z_converted_from_sol: u64,
    pub uncollectible_sol_debt: u64,
    pub total_solana_validators: u32,
    pub total_contributors: u32,
    pub distributed_2z_amount: u64,
    pub burned_2z_amount: u64,
    pub rewards_merkle_root: String,
    pub solana_validator_debt_merkle_root: String,
}

/// The state flags of a report.
#[derive(Debug, Clone, Copy, PartialEq, Eq, Structural)]
pub struct FlagsSummary {
    pub debt_finalized: bool,
    pub rewards_finalized: bool,
    pub has_swept_2z_tokens: bool,
}

/// The totals of a report, in lamports and token units.
#[derive(Debug, Clone, Copy, PartialEq, Eq, Structural)]
pub struct TotalsSummary {
    pub total_solana_validator_debt_lamports: u64,
    pub collected_solana_validator_payments: u64,
    pub collected_prepaid_2z_payments: u64,
    pub collected_2z_converted_from_sol: u64,
    pub uncollectible_sol_debt: u64,
    pub distributed_2z_amount: u64,
    pub burned_2z_amount: u64,
    pub total_solana_validators: u32,
    pub total_contributors: u32,
}

/// The merkle roots of a report.
#[derive(Debug, Clone, PartialEq, Eq)]
pub struct MerkleRootsSummary {
    pub rewards_merkle_root: String,
    pub solana_validator_debt_merkle_root: String,
}

/// How the on-chain debt compares with the fees total.
#[derive(Debug, Clone, Copy, PartialEq, Eq, Structural)]
pub struct ReconciliationSummary {
    pub fees_total_lamports: u64,
    pub onchain_debt_lamports: u64,
    pub difference_lamports: i128,
}

/// An epoch's report.
#[derive(Debug, Clone, PartialEq, Eq)]
pub struct EpochReport {
    pub dz_epoch: u64,
    pub publishable: bool,
    pub flags: FlagsSummary,
    pub totals: TotalsSummary,
    pub merkle_roots: MerkleRootsSummary,
    pub fees_summary: Option<FeesTotals>,
    pub reconciliation: Option<ReconciliationSummary>,
}

/// `r` reports the distribution `d`, with the fees totals `fees` where a
/// fees CSV was given.
pub open spec fn reports(r: EpochReport, d: DistributionSummary, fees: Option<FeesTotals>) -> bool {
    &&& r.dz_epoch == d.dz_epoch
    &&& r.publishable == spec_publishable(
        d.is_debt_calculation_finalized,
        d.is_rewards_calculation_finalized,
        d.has_swept_2z_tokens,
    )
    &&& r.flags == FlagsSummary {
        debt_finalized: d.is_debt_calculation_finalized,
        rewards_finalized: d.is_rewards_calculation_finalized,
        has_swept_2z_tokens: d.has_swept_2z_tokens,
    }
    &&& r.totals == TotalsSummary {
        total_solana_validator_debt_lamports: d.total_solana_validator_debt,
        collected_solana_validator_payments: d.collected_solana_validator_payments,
        collected_prepaid_2z_payments: d.collected_prepaid_2z_payments,
        collected_2z_converted_from_sol: d.collected_2z_converted_from_sol,
        uncollectible_sol_debt: d.uncollectible_sol_debt,
        distributed_2z_amount: d.distributed_2z_amount,
        burned_2z_amount: d.burned_2z_amount,
        total_solana_validators: d.total_solana_validators,
        total_contributors: d.total_contributors,
    }
    &&& r.merkle_roots.rewards_merkle_root@ == d.rewards_merkle_root@
    &&& r.merkle_roots.solana_validator_debt_merkle_root@ == d.solana_validator_debt_merkle_root@
    &&& r.fees_summary == fees
    &&& r.reconciliation == match fees {
        Some(f) => Some(
            ReconciliationSummary {
                fees_total_lamports: f.total_dz_fee_lamports,
                onchain_debt_lamports: d.total_solana_validator_debt,
                difference_lamports: (d.total_solana_validator_debt - f.total_dz_fee_lamports) as i128,
            },
        ),
        None => None,
    }
}

/// A report marks its epoch publishable exactly when the distribution's
/// debt and rewards are finalized and its 2Z tokens swept, the three flags
/// that the report also lists.
pub proof fn lemma_report_publishable(r: EpochReport, d: DistributionSummary, fees: Option<FeesTotals>)
    requires
        reports(r, d, fees),
    ensures
        r.publishable ==> d.is_debt_calculation_finalized,
        r.publishable ==> d.is_rewards_calculation_finalized,
        r.publishable ==> d.has_swept_2z_tokens,
        d.is_debt_calculation_finalized && d.is_rewards_calculation_finalized && d.has_swept_2z_tokens
            ==> r.publishable,
        r.publishable == (r.flags.debt_finalized && r.flags.rewards_finalized && r.flags.has_swept_2z_tokens),
{
}

/// A report carries the distribution's epoch, flags, totals and roots under
/// the same names, the fees totals it was given, and, with them, the
/// on-chain debt minus the fees total.
pub proof fn lemma_report_fields(r: EpochReport, d: DistributionSummary, fees: Option<FeesTotals>)
    requires
        reports(r, d, fees),
    ensures
        r.dz_epoch == d.dz_epoch,
        r.flags.debt_finalized == d.is_debt_calculation_finalized,
        r.flags.rewards_finalized == d.is_rewards_calculation_finalized,
        r.flags.has_swept_2z_tokens == d.has_swept_2z_tokens,
        r.totals.total_solana_validator_debt_lamports == d.total_solana_validator_debt,
        r.totals.collected_solana_validator_payments == d.collected_solana_validator_payments,
        r.totals.collected_prepaid_2z_payments == d.collected_prepaid_2z_payments,
        r.totals.collected_2z_converted_from_sol == d.collected_2z_converted_from_sol,
        r.totals.uncollectible_sol_debt == d.uncollectible_sol_debt,
        r.totals.distributed_2z_amount == d.distributed_2z_amount,
        r.totals.burned_2z_amount == d.burned_2z_amount,
        r.totals.total_solana_validators == d.total_solana_validators,
        r.totals.total_contributors == d.total_contributors,
        r.merkle_roots.rewards_merkle_root@ == d.rewards_merkle_root@,
        r.merkle_roots.solana_validator_debt_merkle_root@ == d.solana_validator_debt_merkle_root@,
        r.fees_summary == fees,
        fees is None <==> r.reconciliation is None,
        fees matches Some(f) ==> r.reconciliation matches Some(rec) && rec.fees_total_lamports
            == f.total_dz_fee_lamports && rec.onchain_debt_lamports == d.total_solana_validator_debt
            && rec.difference_lamports + f.total_dz_fee_lamports == d.total_solana_validator_debt,
{
}

/// The report of a distribution, reconciled with a fees CSV's totals where
/// one was given.
pub fn epoch_report(d: DistributionSummary, fees: Option<FeesTotals>) -> (r: EpochReport)
    ensures
        reports(r, d, fees),
{
    let reconciliation = match fees {
        Some(f) => Some(
            ReconciliationSummary {
                fees_total_lamports: f.total_dz_fee_lamports,
                onchain_debt_lamports: d.total_solana_validator_debt,
                difference_lamports: debt_minus_fees(d.total_solana_validator_debt, f.total_dz_fee_lamports),
            },
        ),
        None => None,
    };
    EpochReport {
        dz_epoch: d.dz_epoch,
        publishable: publishable(
            d.is_debt_calculation_finalized,
            d.is_rewards_calculation_finalized,
            d.has_swept_2z_tokens,
        ),
        flags: FlagsSummary {
            debt_finalized: d.is_debt_calculation_finalized,
            rewards_finalized: d.is_rewards_calculation_finalized,
            has_swept_2z_tokens: d.has_swept_2z_tokens,
        },
        totals: TotalsSummary {
            total_solana_validator_debt_lamports: d.total_solana_validator_debt,
            collected_solana_validator_payments: d.collected_solana_validator_payments,
            collected_prepaid_2z_payments: d.collected_prepaid_2z_payments,
            collected_2z_converted_from_sol: d.collected_2z_converted_from_sol,
            uncollectible_sol_debt: d.uncollectible_sol_debt,
            distributed_2z_amount: d.distributed_2z_amount,
            burned_2z_amount: d.burned_2z_amount,
            total_solana_validators: d.total_solana_validators,
            total_contributors: d.total_contributors,
        },
        merkle_roots: MerkleRootsSummary {
            rewards_merkle_root: d.rewards_merkle_root,
            solana_validator_debt_merkle_root: d.solana_validator_debt_merkle_root,
        },
        fees_summary: fees,
        reconciliation,
    }
}

/// The report's line on the fees CSV; `fees` is the total in SOL, as text,
/// and the CSV's path.
pub open spec fn fees_line(report: EpochReport, fees: Option<(&str, &str)>) -> Seq<char> {
    match (report.fees_summary, fees) {
        (Some(f), Some((sol, source))) => "- Fees CSV total: "@ + decimal_digits(f.total_dz_fee_lamports as nat)
            + " lamports ("@ + sol@ + " SOL) from `"@ + source@ + "`"@,
        _ => "- Fees CSV total: (not provided)"@,
    }
}

/// The report's line on the debt minus the fees; `difference_sol` is the
/// difference in SOL, as text.
pub open spec fn reconciliation_line(report: EpochReport, difference_sol: Option<&str>) -> Seq<char> {
    match (report.reconciliation, difference_sol) {
        (Some(rec), Some(sol)) => "- Debt minus fees: "@ + signed_decimal(rec.difference_lamports as int)
            + " lamports ("@ + sol@ + " SOL)"@,
        _ => "- Debt minus fees: (not computed)"@,
    }
}

/// The markdown text of a report; `debt_sol` is the on-chain debt in SOL,
/// as text.
pub open spec fn report_markdown(
    report: EpochReport,
    debt_sol: Seq<char>,
    fees: Option<(&str, &str)>,
    difference_sol: Option<&str>,
) -> Seq<char> {
    "# DZ Epoch "@ + decimal_digits(report.dz_epoch as nat) + " Report\n\n## Flags\n- Debt finalized: "@
        + bool_text(report.flags.debt_finalized) + "\n- Rewards finalized: "@ + bool_text(
        report.flags.rewards_finalized,
    ) + "\n- 2Z swept: "@ + bool_text(report.flags.has_swept_2z_tokens) + "\n- Publishable: "@ + bool_text(
        report.publishable,
    ) + "\n\n## Totals\n- Total SOL debt: "@ + decimal_digits(report.totals.total_solana_validator_debt_lamports as nat)
        + " lamports ("@ + debt_sol + " SOL)\n- Distributed 2Z: "@ + decimal_digits(
        report.totals.distributed_2z_amount as nat,
    ) + "\n- Burned 2Z: "@ + decimal_digits(report.totals.burned_2z_amount as nat) + "\n- Total validators: "@
        + decimal_digits(report.totals.total_solana_validators as nat) + "\n- Total contributors: "@
        + decimal_digits(report.totals.total_contributors as nat) + "\n\n## Merkle Roots\n- Rewards: `"@
        + report.merkle_roots.rewards_merkle_root@ + "`\n- Debt: `"@
        + report.merkle_roots.solana_validator_debt_merkle_root@ + "`\n\n## Reconciliation\n"@ + fees_line(
        report,
        fees,
    ) + "\n"@ + reconciliation_line(report, difference_sol) + "\n"@
}

fn report_fees_line(report: &EpochReport, fees: Option<(&str, &str)>) -> (r: String)
    ensures
        r@ == fees_line(*report, fees),
{
    match (report.fees_summary, fees) {
        (Some(f), Some((sol, source))) => {
            let s = text_concat("- Fees CSV total: ", u64_to_decimal(f.total_dz_fee_lamports).as_str());
            let s = text_concat(s.as_str(), " lamports (");
            let s = text_concat(s.as_str(), sol);
            let s = text_concat(s.as_str(), " SOL) from `");
            let s = text_concat(s.as_str(), source);
            text_concat(s.as_str(), "`")
        },
        _ => String::from_str("- Fees CSV total: (not provided)"),
    }
}

fn report_reconciliation_line(report: &EpochReport, difference_sol: Option<&str>) -> (r: String)
    ensures
        r@ == reconciliation_line(*report, difference_sol),
{
    match (report.reconciliation, difference_sol) {
        (Some(rec), Some(sol)) => {
            let s = text_concat("- Debt minus fees: ", i128_to_decimal(rec.difference_lamports).as_str());
            let s = text_concat(s.as_str(), " lamports (");
            let s = text_concat(s.as_str(), sol);
            text_concat(s.as_str(), " SOL)")
        },
        _ => String::from_str("- Debt minus fees: (not computed)"),
    }
}

/// The markdown text of a report: its flags, whether it is publishable, its
/// totals, its merkle roots and its reconciliation. The SOL amounts come as
/// text: the on-chain debt, and the fees total with the CSV's path and the
/// difference, where the report has them.
pub fn epoch_report_markdown(
    report: &EpochReport,
    debt_sol: &str,
    fees: Option<(&str, &str)>,
    difference_sol: Option<&str>,
) -> (r: String)
    requires
        (fees is Some) == (report.fees_summary is Some),
        (difference_sol is Some) == (report.reconciliation is Some),
    ensures
        r@ == report_markdown(*report, debt_sol@, fees, difference_sol),
{
    let t = &report.totals;
    let s = text_concat("# DZ Epoch ", u64_to_decimal(report.dz_epoch).as_str());
    let s = text_concat(s.as_str(), " Report\n\n## Flags\n- Debt finalized: ");
    let s = text_concat(s.as_str(), bool_to_text(report.flags.debt_finalized).as_str());
    let s = text_concat(s.as_str(), "\n- Rewards finalized: ");
    let s = text_concat(s.as_str(), bool_to_text(report.flags.rewards_finalized).as_str());
    let s = text_concat(s.as_str(), "\n- 2Z swept: ");
    let s = text_concat(s.as_str(), bool_to_text(report.flags.has_swept_2z_tokens).as_str());
    let s = text_concat(s.as_str(), "\n- Publishable: ");
    let s = text_concat(s.as_str(), bool_to_text(report.publishable).as_str());
    let s = text_concat(s.as_str(), "\n\n## Totals\n- Total SOL debt: ");
    let s = text_concat(s.as_str(), u64_to_decimal(t.total_solana_validator_debt_lamports).as_str());
    let s = text_concat(s.as_str(), " lamports (");
    let s = text_concat(s.as_str(), debt_sol);
    let s = text_concat(s.as_str(), " SOL)\n- Distributed 2Z: ");
    let s = text_concat(s.as_str(), u64_to_decimal(t.distributed_2z_amount).as_str());
    let s = text_concat(s.as_str(), "\n- Burned 2Z: ");
    let s = text_concat(s.as_str(), u64_to_decimal(t.burned_2z_amount).as_str());
    let s = text_concat(s.as_str(), "\n- Total validators: ");
    let s = text_concat(s.as_str(), u64_to_decimal(t.total_solana_validators as u64).as_str());
    let s = text_concat(s.as_str(), "\n- Total contributors: ");
    let s = text_concat(s.as_str(), u64_to_decimal(t.total_contributors as u64).as_str());
    let s = text_concat(s.as_str(), "\n\n## Merkle Roots\n- Rewards: `");
    let s = text_concat(s.as_str(), report.merkle_roots.rewards_merkle_root.as_str());
    let s = text_concat(s.as_str(), "`\n- Debt: `");
    let s = text_concat(s.as_str(), report.merkle_roots.solana_validator_debt_merkle_root.as_str());
    let s = text_concat(s.as_str(), "`\n\n## Reconciliation\n");
    let s = text_concat(s.as_str(), report_fees_line(report, fees).as_str());
    let s = text_concat(s.as_str(), "\n");
    let s = text_concat(s.as_str(), report_reconciliation_line(report, difference_sol).as_str());
    text_concat(s.as_str(), "\n")
}

/// A line feed.
pub open spec fn newline() -> Seq<char> {
    seq!['\n']
}

/// `line` without one trailing carriage return.
pub open spec fn strip_cr(line: Seq<char>) -> Seq<char> {
    if line.len() > 0 && line.last() == '\r' {
        line.drop_last()
    } else {
        line
    }
}

/// The lines of `s` from `pos` on, as `str::lines` yields them: split after
/// each `\n`, with the `\n` and a `\r` before it removed, and no line after
/// a final `\n`.
pub open spec fn lines_from(s: Seq<char>, pos: int) -> Seq<Seq<char>>
    decreases s.len() - pos,
{
    if pos < 0 || pos >= s.len() {
        Seq::empty()
    } else {
        match find_from(s, newline(), pos) {
            Some(i) => {
                proof {
                    lemma_find_from(s, newline(), pos);
                }
                seq![strip_cr(s.subrange(pos, i))] + lines_from(s, i + 1)
            },
            None => seq![s.subrange(pos, s.len() as int)],
        }
    }
}

/// `,`
pub open spec fn comma() -> Seq<char> {
    seq![',']
}

/// The third comma-separated field of `line`, if it has three.
pub open spec fn third_field(line: Seq<char>) -> Option<Seq<char>> {
    match find_from(line, comma(), 0) {
        None => None,
        Some(c1) => match find_from(line, comma(), c1 + 1) {
            None => None,
            Some(c2) => match find_from(line, comma(), c2 + 1) {
                None => Some(line.subrange(c2 + 1, line.len() as int)),
                Some(c3) => Some(line.subrange(c2 + 1, c3)),
            },
        },
    }
}

proof fn lemma_comma_at(s: Seq<char>, i: int)
    ensures
        matches_at(s, comma(), i) <==> (0 <= i < s.len() && s[i] == ','),
{
    if 0 <= i < s.len() && s[i] == ',' {
        assert(s.subrange(i, i + 1) =~= comma());
    }
    if matches_at(s, comma(), i) {
        assert(s.subrange(i, i + 1)[0] == s[i]);
    }
}

proof fn lemma_next_comma(s: Seq<char>, start: int, c: int)
    requires
        0 <= start <= c < s.len(),
        s[c] == ',',
        forall|k: int| start <= k < c ==> s[k] != ',',
    ensures
        find_from(s, comma(), start) == Some(c),
{
    lemma_find_from(s, comma(), start);
    lemma_comma_at(s, c);
    match find_from(s, comma(), start) {
        Some(i) => {
            lemma_comma_at(s, i);
            if i > c {
                assert(!matches_at(s, comma(), c));
            }
        },
        None => {
            assert(!matches_at(s, comma(), c));
        },
    }
}

proof fn lemma_no_comma(s: Seq<char>, start: int)
    requires
        0 <= start,
        forall|k: int| start <= k < s.len() ==> s[k] != ',',
    ensures
        find_from(s, comma(), start) is None,
{
    lemma_find_from(s, comma(), start);
    if let Some(i) = find_from(s, comma(), start) {
        lemma_comma_at(s, i);
    }
}

/// The third field of a line is the text strictly between its second and
/// third commas, or everything after its second comma where it has no third.
pub proof fn lemma_third_field_between_commas(line: Seq<char>, c1: int, c2: int)
    requires
        0 <= c1 < c2 < line.len(),
        line[c1] == ',',
        line[c2] == ',',
        forall|k: int| 0 <= k < c2 && k != c1 ==> line[k] != ',',
    ensures
        (forall|k: int| c2 < k < line.len() ==> line[k] != ',') ==> third_field(line) == Some(
            line.subrange(c2 + 1, line.len() as int),
        ),
        forall|c3: int|
            c2 < c3 < line.len() && #[trigger] line[c3] == ',' && (forall|k: int| c2 < k < c3 ==> line[k] != ',')
                ==> third_field(line) == Some(line.subrange(c2 + 1, c3)),
{
    lemma_next_comma(line, 0, c1);
    lemma_next_comma(line, c1 + 1, c2);
    if forall|k: int| c2 < k < line.len() ==> line[k] != ',' {
        lemma_no_comma(line, c2 + 1);
    }
    assert forall|c3: int|
        c2 < c3 < line.len() && #[trigger] line[c3] == ',' && (forall|k: int| c2 < k < c3 ==> line[k] != ',')
            implies third_field(line) == Some(line.subrange(c2 + 1, c3)) by {
        lemma_next_comma(line, c2 + 1, c3);
    }
}

/// A line with fewer than two commas has no third field.
pub proof fn lemma_third_field_needs_two_commas(line: Seq<char>)
    requires
        forall|i: int, j: int| 0 <= i < j < line.len() ==> !(#[trigger] line[i] == ',' && #[trigger] line[j] == ','),
    ensures
        third_field(line) is None,
{
    lemma_find_from(line, comma(), 0);
    if let Some(c1) = find_from(line, comma(), 0) {
        lemma_comma_at(line, c1);
        assert forall|k: int| c1 + 1 <= k < line.len() implies line[k] != ',' by {
            assert(!(line[c1] == ',' && line[k] == ','));
        }
        lemma_no_comma(line, c1 + 1);
    }
}

/// A line's third field does not change when further fields are appended
/// to the line.
pub proof fn lemma_third_field_ignores_later_fields(line: Seq<char>, rest: Seq<char>)
    requires
        third_field(line) is Some,
    ensures
        third_field(line + seq![','] + rest) == third_field(line),
{
    let ext = line + seq![','] + rest;
    lemma_find_from(line, comma(), 0);
    let c1 = find_from(line, comma(), 0)->0;
    lemma_comma_at(line, c1);
    lemma_find_from(line, comma(), c1 + 1);
    let c2 = find_from(line, comma(), c1 + 1)->0;
    lemma_comma_at(line, c2);
    assert forall|k: int| 0 <= k < c2 && k != c1 implies line[k] != ',' by {
        lemma_comma_at(line, k);
    }
    assert forall|k: int| 0 <= k < c2 && k != c1 implies ext[k] != ',' by {
        assert(ext[k] == line[k]);
    }
    assert(ext[c1] == ',' && ext[c2] == ',');
    lemma_third_field_between_commas(line, c1, c2);
    lemma_third_field_between_commas(ext, c1, c2);
    lemma_find_from(line, comma(), c2 + 1);
    match find_from(line, comma(), c2 + 1) {
        Some(c3) => {
            lemma_comma_at(line, c3);
            assert forall|k: int| c2 < k < c3 implies line[k] != ',' by {
                lemma_comma_at(line, k);
            }
            assert forall|k: int| c2 < k < c3 implies ext[k] != ',' by {
                assert(ext[k] == line[k]);
            }
            assert(ext[c3] == ',');
            assert(ext.subrange(c2 + 1, c3) =~= line.subrange(c2 + 1, c3));
        },
        None => {
            let c3 = line.len() as int;
            assert forall|k: int| c2 < k < line.len() implies line[k] != ',' by {
                lemma_comma_at(line, k);
            }
            assert forall|k: int| c2 < k < c3 implies ext[k] != ',' by {
                assert(ext[k] == line[k]);
            }
            assert(ext[c3] == ',');
            assert(ext.subrange(c2 + 1, c3) =~= line.subrange(c2 + 1, line.len() as int));
        },
    }
}

/// What a data line of the fees CSV contributes.
#[derive(Debug, Clone, Copy, PartialEq, Eq, Structural)]
pub enum RowVerdict {
    /// A blank line.
    Skip,
    /// A line of fewer than three fields.
    Invalid,
    /// A line whose third field is not a lamport amount.
    BadLamports,
    /// A row of this many lamports.
    Value(u64),
}

/// The contribution of one data line: its third field, trimmed of white
/// space and then of double quotes, is the amount in lamports.
pub open spec fn row_verdict(line: Seq<char>) -> RowVerdict {
    if trim_ws(line).len() == 0 {
        RowVerdict::Skip
    } else {
        match third_field(line) {
            None => RowVerdict::Invalid,
            Some(f) => match spec_parse_u64(trim_char(trim_ws(f), '"')) {
                None => RowVerdict::BadLamports,
                Some(v) => RowVerdict::Value(v),
            },
        }
    }
}

pub open spec fn is_bad_row(v: RowVerdict) -> bool {
    v is Invalid || v is BadLamports
}

/// The position of the first bad data line.
pub open spec fn first_bad_row(ls: Seq<Seq<char>>) -> Option<int>
    decreases ls.len(),
{
    if ls.len() == 0 {
        None
    } else {
        match first_bad_row(ls.drop_last()) {
            Some(i) => Some(i),
            None => if is_bad_row(row_verdict(ls.last())) {
                Some(ls.len() - 1)
            } else {
                None
            },
        }
    }
}

/// The number of rows with an amount.
pub open spec fn count_rows(ls: Seq<Seq<char>>) -> nat
    decreases ls.len(),
{
    if ls.len() == 0 {
        0
    } else {
        count_rows(ls.drop_last()) + if row_verdict(ls.last()) is Value {
            1nat
        } else {
            0nat
        }
    }
}

/// The sum of the amounts, saturating at `u64::MAX` as it is added up.
pub open spec fn sum_rows(ls: Seq<Seq<char>>) -> u64
    decreases ls.len(),
{
    if ls.len() == 0 {
        0
    } else {
        match row_verdict(ls.last()) {
            RowVerdict::Value(v) => sum_rows(ls.drop_last()).saturating_add(v),
            _ => sum_rows(ls.drop_last()),
        }
    }
}

/// The row count and lamport total of a fees CSV.
#[derive(Debug, Clone, Copy, PartialEq, Eq)]
pub struct FeesTotals {
    pub rows: usize,
    pub total_dz_fee_lamports: u64,
}

/// Why a fees CSV could not be summarized.
#[derive(Debug, Clone, PartialEq, Eq)]
pub enum FeesCsvError {
    MissingHeader,
    InvalidLine { line: String },
    InvalidLamports,
}

/// The outcome of summarizing the text `content` of a fees CSV.
pub open spec fn fees_outcome(content: Seq<char>, r: Result<FeesTotals, FeesCsvError>) -> bool {
    let ls = lines_from(content, 0);
    if ls.len() == 0 {
        r == Err::<FeesTotals, FeesCsvError>(FeesCsvError::MissingHeader)
    } else {
        let body = ls.drop_first();
        match first_bad_row(body) {
            Some(i) => if row_verdict(body[i]) is Invalid {
                r matches Err(FeesCsvError::InvalidLine { line }) && line@ == body[i]
            } else {
                r == Err::<FeesTotals, FeesCsvError>(FeesCsvError::InvalidLamports)
            },
            None => r matches Ok(t) && t.rows == count_rows(body) && t.total_dz_fee_lamports == sum_rows(body),
        }
    }
}

fn comma_chars() -> (r: Vec<char>)
    ensures
        r@ == comma(),
{
    let r = vec![','];
    assert(r@ =~= comma());
    r
}

fn newline_chars() -> (r: Vec<char>)
    ensures
        r@ == newline(),
{
    let r = vec!['\n'];
    assert(r@ =~= newline());
    r
}

/// The contribution of one data line.
pub fn row_verdict_of(line: &Vec<char>) -> (r: RowVerdict)
    ensures
        r == row_verdict(line@),
{
    let n = line.len();
    let (a, b) = trim_ws_range(line, 0, n);
    assert(line@.subrange(0, n as int) =~= line@);
    if a == b {
        return RowVerdict::Skip;
    }
    let comma = comma_chars();
    let c1 = match find(line, &comma, 0) {
        Some(c) => c,
        None => return RowVerdict::Invalid,
    };
    proof {
        lemma_find_from(line@, comma@, 0);
    }
    let c2 = match find(line, &comma, c1 + 1) {
        Some(c) => c,
        None => return RowVerdict::Invalid,
    };
    proof {
        lemma_find_from(line@, comma@, c1 + 1);
        lemma_find_from(line@, comma@, c2 + 1);
    }
    let end = match find(line, &comma, c2 + 1) {
        Some(c3) => c3,
        None => n,
    };
    let (fa, fb) = trim_ws_range(line, c2 + 1, end);
    let (qa, qb) = trim_char_range(line, fa, fb, '"');
    proof {
        assert(line@.subrange(fa as int, fb as int) == trim_ws(line@.subrange(c2 + 1, end as int)));
        assert(third_field(line@) == Some(line@.subrange(c2 + 1, end as int)));
    }
    match parse_u64(line, qa, qb) {
        Some(v) => RowVerdict::Value(v),
        None => RowVerdict::BadLamports,
    }
}

/// Summarizes a fees CSV: a header line, then one row per line whose third
/// field is an amount of lamports; blank lines are skipped.
pub fn summarize_fees(content: &str) -> (r: Result<FeesTotals, FeesCsvError>)
    ensures
        fees_outcome(content@, r),
{
    let s = chars_of(content);
    let nl = newline_chars();
    let n = s.len();
    let mut pos: usize = 0;
    let ghost mut seen: Seq<Seq<char>> = Seq::empty();
    let mut rows: usize = 0;
    let mut total: u64 = 0;
    proof {
        assert(seen + lines_from(s@, 0) =~= lines_from(s@, 0));
    }
    while pos < n
        invariant
            n == s@.len(),
            s@ == content@,
            nl@ == newline(),
            pos <= n,
            seen + lines_from(s@, pos as int) == lines_from(s@, 0),
            seen.len() > 0 ==> first_bad_row(seen.drop_first()) is None,
            seen.len() > 0 ==> rows == count_rows(seen.drop_first()) && total == sum_rows(seen.drop_first()),
            seen.len() == 0 ==> pos == 0 && rows == 0 && total == 0,
            rows <= pos,
        decreases n - pos,
    {
        proof {
            lemma_find_from(s@, nl@, pos as int);
        }
        let (line_end, next) = match find(&s, &nl, pos) {
            Some(i) => {
                if i > pos && s[i - 1] == '\r' {
                    (i - 1, i + 1)
                } else {
                    (i, i + 1)
                }
            },
            None => (n, n),
        };
        let line = copy_range(&s, pos, line_end);
        proof {
            let rest = lines_from(s@, next as int);
            match find_from(s@, newline(), pos as int) {
                Some(i) => {
                    assert(line@ == strip_cr(s@.subrange(pos as int, i)));
                    assert(lines_from(s@, pos as int) == seq![line@] + rest);
                },
                None => {
                    assert(rest =~= Seq::<Seq<char>>::empty());
                    assert(lines_from(s@, pos as int) =~= seq![line@] + rest);
                },
            }
            assert(seen + lines_from(s@, pos as int) =~= seen.push(line@) + rest);
        }
        if pos > 0 {
            let ghost body = seen.drop_first();
            let ghost body2 = seen.push(line@).drop_first();
            proof {
                assert(body2 =~= body.push(line@));
                assert(body2.drop_last() =~= body);
            }
            match row_verdict_of(&line) {
                RowVerdict::Skip => {},
                RowVerdict::Invalid => {
                    let text = string_from_chars(&line, 0, line.len());
                    proof {
                        assert(line@.subrange(0, line@.len() as int) =~= line@);
                        assert(first_bad_row(body2) == Some(body2.len() - 1));
                        assert(lines_from(s@, 0).drop_first() =~= body2 + lines_from(s@, next as int));
                        lemma_first_bad_row_prefix(body2, lines_from(s@, next as int));
                    }
                    return Err(FeesCsvError::InvalidLine { line: text });
                },
                RowVerdict::BadLamports => {
                    proof {
                        assert(first_bad_row(body2) == Some(body2.len() - 1));
                        assert(lines_from(s@, 0).drop_first() =~= body2 + lines_from(s@, next as int));
                        lemma_first_bad_row_prefix(body2, lines_from(s@, next as int));
                    }
                    return Err(FeesCsvError::InvalidLamports);
                },
                RowVerdict::Value(v) => {
                    total = total.saturating_add(v);
                    rows = rows + 1;
                },
            }
        }
        proof {
            if seen.len() == 0 {
                assert(seen.push(line@).drop_first() =~= Seq::<Seq<char>>::empty());
            }
            seen = seen.push(line@);
        }
        pos = next;
    }
    proof {
        assert(lines_from(s@, pos as int) =~= Seq::<Seq<char>>::empty());
        assert(seen =~= lines_from(s@, 0));
    }
    if pos == 0 {
        return Err(FeesCsvError::MissingHeader);
    }
    Ok(FeesTotals { rows, total_dz_fee_lamports: total })
}

/// A first bad line stays the first bad line whatever lines follow it.
proof fn lemma_first_bad_row_prefix(a: Seq<Seq<char>>, b: Seq<Seq<char>>)
    requires
        first_bad_row(a) is Some,
    ensures
        first_bad_row(a + b) == first_bad_row(a),
    decreases b.len(),
{
    if b.len() == 0 {
        assert(a + b =~= a);
    } else {
        lemma_first_bad_row_prefix(a, b.drop_last());
        assert((a + b).drop_last() =~= a + b.drop_last());
    }
}

/// `distribution_`
pub open spec fn distribution_file_prefix() -> Seq<char> {
    seq!['d', 'i', 's', 't', 'r', 'i', 'b', 'u', 't', 'i', 'o', 'n', '_']
}

/// `.json`
pub open spec fn json_suffix() -> Seq<char> {
    seq!['.', 'j', 's', 'o', 'n']
}

/// A file name of the form `distribution_*.json`.
pub open spec fn is_distribution_file_name(name: Seq<char>) -> bool {
    has_prefix(name, distribution_file_prefix()) && has_suffix(name, json_suffix())
}

pub fn distribution_file_name_matches(name: &str) -> (r: bool)
    ensures
        r == is_distribution_file_name(name@),
{
    let s = chars_of(name);
    let prefix = vec!['d', 'i', 's', 't', 'r', 'i', 'b', 'u', 't', 'i', 'o', 'n', '_'];
    let suffix = vec!['.', 'j', 's', 'o', 'n'];
    assert(prefix@ =~= distribution_file_prefix());
    assert(suffix@ =~= json_suffix());
    crate::text::starts_with(&s, &prefix) && crate::text::ends_with(&s, &suffix)
}

/// Why a folder gave no single distribution file.
#[derive(Debug, Clone, Copy, PartialEq, Eq, Structural)]
pub enum DistributionFileError {
    NoneFound,
    Multiple,
}

/// The positions of the names of the form `distribution_*.json`.
pub open spec fn distribution_file_positions(names: Seq<Seq<char>>) -> Seq<int>
    decreases names.len(),
{
    if names.len() == 0 {
        Seq::empty()
    } else {
        let p = distribution_file_positions(names.drop_last());
        if is_distribution_file_name(names.last()) {
            p.push(names.len() - 1)
        } else {
            p
        }
    }
}

/// The one name of the form `distribution_*.json` among the names of a
/// folder's entries, or why there is not exactly one.
pub fn pick_distribution_file(names: &Vec<String>) -> (r: Result<usize, DistributionFileError>)
    ensures
        ({
            let p = distribution_file_positions(crate::snapshot::texts(names@));
            &&& p.len() == 0 ==> r == Err::<usize, DistributionFileError>(DistributionFileError::NoneFound)
            &&& p.len() == 1 ==> r == Ok::<usize, DistributionFileError>(p[0] as usize)
            &&& p.len() > 1 ==> r == Err::<usize, DistributionFileError>(DistributionFileError::Multiple)
        }),
        r matches Ok(i) ==> i < names@.len(),
        forall|k: int| 0 <= k < distribution_file_positions(crate::snapshot::texts(names@)).len()
            ==> 0 <= #[trigger] distribution_file_positions(crate::snapshot::texts(names@))[k] < names@.len(),
{
    let ghost all = crate::snapshot::texts(names@);
    let mut found: Option<usize> = None;
    let mut count: usize = 0;
    let mut i: usize = 0;
    while i < names.len()
        invariant
            i <= names@.len(),
            all == crate::snapshot::texts(names@),
            count == distribution_file_positions(all.subrange(0, i as int)).len() || (count == 2
                && distribution_file_positions(all.subrange(0, i as int)).len() >= 2),
            count <= 2,
            count == 0 <==> found is None,
            count >= 1 ==> found == Some(distribution_file_positions(all.subrange(0, i as int))[0] as usize),
            forall|k: int| 0 <= k < distribution_file_positions(all.subrange(0, i as int)).len()
                ==> 0 <= #[trigger] distribution_file_positions(all.subrange(0, i as int))[k] < i,
        decreases names@.len() - i,
    {
        let ghost prefix = all.subrange(0, i as int);
        let ghost next = all.subrange(0, i + 1);
        proof {
            assert(next.drop_last() =~= prefix);
            assert(next.last() == names@[i as int]@);
        }
        if distribution_file_name_matches(names[i].as_str()) {
            if count == 0 {
                found = Some(i);
            }
            if count < 2 {
                count = count + 1;
            }
            proof {
                let pn = distribution_file_positions(next);
                assert(pn == distribution_file_positions(prefix).push(i as int));
                assert forall|k: int| 0 <= k < pn.len() implies 0 <= #[trigger] pn[k] < i + 1 by {
                    if k < pn.len() - 1 {
                        assert(pn[k] == distribution_file_positions(prefix)[k]);
                    }
                }
                if distribution_file_positions(prefix).len() > 0 {
                    assert(pn[0] == distribution_file_positions(prefix)[0]);
                }
            }
        }
        i = i + 1;
    }
    proof {
        assert(all.subrange(0, names@.len() as int) =~= all);
    }
    match found {
        None => Err(DistributionFileError::NoneFound),
        Some(k) => if count == 1 {
            Ok(k)
        } else {
            Err(DistributionFileError::Multiple)
        },
    }
}

/// The outcome of looking for a distribution dump in a folder: the path
/// `preferred`, relative to the folder, where that file exists; otherwise the
/// one `distribution_*.json` among the folder's entries `names`.
pub open spec fn distribution_file_choice(
    preferred: Seq<char>,
    preferred_exists: bool,
    names: Seq<Seq<char>>,
    r: Result<String, DistributionFileError>,
) -> bool {
    if preferred_exists {
        r matches Ok(p) && p@ == preferred
    } else {
        let ps = distribution_file_positions(names);
        &&& ps.len() == 0 ==> r == Err::<String, DistributionFileError>(DistributionFileError::NoneFound)
        &&& ps.len() == 1 ==> (r matches Ok(p) && p@ == names[ps[0]])
        &&& ps.len() > 1 ==> r == Err::<String, DistributionFileError>(DistributionFileError::Multiple)
    }
}

fn choose_distribution_file(preferred: &str, preferred_exists: bool, names: &Vec<String>) -> (r: Result<
    String,
    DistributionFileError,
>)
    ensures
        distribution_file_choice(preferred@, preferred_exists, crate::snapshot::texts(names@), r),
{
    if preferred_exists {
        return Ok(String::from_str(preferred));
    }
    match pick_distribution_file(names) {
        Ok(i) => {
            let ghost ps = distribution_file_positions(crate::snapshot::texts(names@));
            assert(ps.len() == 1);
            assert(0 <= ps[0] < names@.len());
            assert(names@.len() == names.len());
            assert(ps[0] == i as int);
            assert(crate::snapshot::texts(names@)[i as int] == names@[i as int]@);
            Ok(names[i].clone())
        },
        Err(e) => Err(e),
    }
}

/// Where an epoch folder written by the main command keeps its distribution
/// dump, relative to the folder.
pub open spec fn epoch_folder_distribution_path() -> Seq<char> {
    "onchain/distribution.json"@
}

/// The distribution dump that a report reads from its input folder, as a
/// path relative to that folder: `onchain/distribution.json`, where the folder
/// holds it (`onchain_dump_exists`), as an epoch folder written by the main
/// command does; otherwise the one `distribution_*.json` among the folder's
/// own entries `names`, or why there is not exactly one.
pub fn report_distribution_file(onchain_dump_exists: bool, names: &Vec<String>) -> (r: Result<
    String,
    DistributionFileError,
>)
    ensures
        distribution_file_choice(epoch_folder_distribution_path(), onchain_dump_exists, crate::snapshot::texts(names@), r),
{
    choose_distribution_file("onchain/distribution.json", onchain_dump_exists, names)
}

/// `distribution.json`
pub open spec fn onchain_folder_distribution_path() -> Seq<char> {
    "distribution.json"@
}

/// The distribution dump that an enrichment reads from an on-chain folder,
/// as a path relative to that folder: `distribution.json`, where the folder
/// holds it (`direct_dump_exists`); otherwise the one `distribution_*.json`
/// among the folder's entries `names`, or why there is not exactly one.
pub fn onchain_distribution_file(direct_dump_exists: bool, names: &Vec<String>) -> (r: Result<
    String,
    DistributionFileError,
>)
    ensures
        distribution_file_choice(onchain_folder_distribution_path(), direct_dump_exists, crate::snapshot::texts(names@), r),
{
    choose_distribution_file("distribution.json", direct_dump_exists, names)
}

} // verus!
