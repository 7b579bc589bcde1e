//! Command-line arguments of the tool's commands.

use vstd::prelude::*;

use crate::snapshot::{DEFAULT_SNAPSHOT_BUCKET, texts};
use crate::text::{
    chars_of, decimal_digits, parse_u64, spec_parse_u64, str_eq, string_from_literal, text_concat, u64_to_decimal,
};

verus! {

/// Why a command line was refused.
#[derive(Debug, Clone, PartialEq, Eq)]
pub enum ArgsError {
    /// A flag that takes a value came last.
    MissingValue { flag: String },
    /// A number could not be read; `what` names it.
    InvalidNumber { what: String },
    UnexpectedArgument { arg: String },
    /// A required argument was not given; `message` says which.
    Missing { message: String },
    /// Neither `--epoch` nor `--latest` was given.
    EpochOrLatestRequired,
    /// Both `--epoch` and `--latest` were given.
    EpochAndLatest,
}

/// An [`ArgsError`] with its texts as character sequences.
pub enum ArgsErrorView {
    MissingValue(Seq<char>),
    InvalidNumber(Seq<char>),
    UnexpectedArgument(Seq<char>),
    Missing(Seq<char>),
    EpochOrLatestRequired,
    EpochAndLatest,
}

impl View for ArgsError {
    type V = ArgsErrorView;

    open spec fn view(&self) -> ArgsErrorView {
        match self {
            ArgsError::MissingValue { flag } => ArgsErrorView::MissingValue(flag@),
            ArgsError::InvalidNumber { what } => ArgsErrorView::InvalidNumber(what@),
            ArgsError::UnexpectedArgument { arg } => ArgsErrorView::UnexpectedArgument(arg@),
            ArgsError::Missing { message } => ArgsErrorView::Missing(message@),
            ArgsError::EpochOrLatestRequired => ArgsErrorView::EpochOrLatestRequired,
            ArgsError::EpochAndLatest => ArgsErrorView::EpochAndLatest,
        }
    }
}

/// A parsed command line, or a request for the usage text.
#[derive(Debug, Clone, PartialEq, Eq)]
pub enum ArgsOutcome<T> {
    Help,
    Parsed(T),
}

/// What a command line parses to, with texts as character sequences.
pub enum ArgsParse<T> {
    Help,
    Failed(ArgsErrorView),
    Done(T),
}

/// `r` is the exec form of the parse `p`.
pub open spec fn parse_matches<T: View>(p: ArgsParse<T::V>, r: Result<ArgsOutcome<T>, ArgsError>) -> bool {
    match p {
        ArgsParse::Help => r matches Ok(ArgsOutcome::Help),
        ArgsParse::Failed(e) => r matches Err(err) && err@ == e,
        ArgsParse::Done(v) => r matches Ok(ArgsOutcome::Parsed(a)) && a@ == v,
    }
}

pub open spec fn is_help_flag(a: Seq<char>) -> bool {
    a == "-h"@ || a == "--help"@
}

fn help_flag(a: &String) -> (r: bool)
    ensures
        r == is_help_flag(a@),
{
    str_eq(a.as_str(), "-h") || str_eq(a.as_str(), "--help")
}

fn missing_value(flag: &str) -> (r: ArgsError)
    ensures
        r@ == ArgsErrorView::MissingValue(flag@),
{
    ArgsError::MissingValue { flag: string_from_literal(flag) }
}

/// Reads `a` as `str::parse::<u64>` does.
fn parse_number(a: &String) -> (r: Option<u64>)
    ensures
        r == spec_parse_u64(a@),
{
    let c = chars_of(a.as_str());
    let r = parse_u64(&c, 0, c.len());
    assert(c@.subrange(0, c@.len() as int) =~= c@);
    r
}

// ---------------------------------------------------------------- main

/// The arguments of the main command.
#[derive(Debug, Clone, PartialEq, Eq)]
pub struct Args {
    pub dz_epoch: Option<u64>,
    pub index_distributions: bool,
    pub out_dir: Option<String>,
    pub snapshot_bucket: Option<String>,
}

pub struct ArgsView {
    pub dz_epoch: Option<u64>,
    pub index_distributions: bool,
    pub out_dir: Option<Seq<char>>,
    pub snapshot_bucket: Option<Seq<char>>,
}

pub open spec fn opt_text(o: Option<String>) -> Option<Seq<char>> {
    match o {
        Some(s) => Some(s@),
        None => None,
    }
}

impl View for Args {
    type V = ArgsView;

    open spec fn view(&self) -> ArgsView {
        ArgsView {
            dz_epoch: self.dz_epoch,
            index_distributions: self.index_distributions,
            out_dir: opt_text(self.out_dir),
            snapshot_bucket: opt_text(self.snapshot_bucket),
        }
    }
}

pub open spec fn missing_dz_epoch_message() -> Seq<char> {
    "missing dz epoch (use --dz-epoch <n> or pass it as a positional)"@
}

/// The main command's arguments from position `i` on, given what was read
/// before it: flags `--dz-epoch <n>`, `--out-dir <path>`, `--index`,
/// `--snapshot-bucket <url>`, a help flag, or the epoch as the one positional.
pub open spec fn main_args_from(args: Seq<Seq<char>>, i: int, st: ArgsView) -> ArgsParse<ArgsView>
    decreases args.len() - i,
{
    if i < 0 || i >= args.len() {
        if st.dz_epoch is None {
            ArgsParse::Failed(ArgsErrorView::Missing(missing_dz_epoch_message()))
        } else {
            ArgsParse::Done(st)
        }
    } else {
        let a = args[i];
        if a == "--dz-epoch"@ {
            if i + 1 >= args.len() {
                ArgsParse::Failed(ArgsErrorView::MissingValue("--dz-epoch"@))
            } else {
                match spec_parse_u64(args[i + 1]) {
                    None => ArgsParse::Failed(ArgsErrorView::InvalidNumber("invalid dz epoch"@)),
                    Some(v) => main_args_from(args, i + 2, ArgsView { dz_epoch: Some(v), ..st }),
                }
            }
        } else if a == "--out-dir"@ {
            if i + 1 >= args.len() {
                ArgsParse::Failed(ArgsErrorView::MissingValue("--out-dir"@))
            } else {
                main_args_from(args, i + 2, ArgsView { out_dir: Some(args[i + 1]), ..st })
            }
        } else if a == "--index"@ {
            main_args_from(args, i + 1, ArgsView { index_distributions: true, ..st })
        } else if a == "--snapshot-bucket"@ {
            if i + 1 >= args.len() {
                ArgsParse::Failed(ArgsErrorView::MissingValue("--snapshot-bucket"@))
            } else {
                main_args_from(args, i + 2, ArgsView { snapshot_bucket: Some(args[i + 1]), ..st })
            }
        } else if is_help_flag(a) {
            ArgsParse::Help
        } else if st.dz_epoch is None {
            match spec_parse_u64(a) {
                None => ArgsParse::Failed(ArgsErrorView::InvalidNumber("invalid dz epoch"@)),
                Some(v) => main_args_from(args, i + 1, ArgsView { dz_epoch: Some(v), ..st }),
            }
        } else {
            ArgsParse::Failed(ArgsErrorView::UnexpectedArgument(a))
        }
    }
}

pub open spec fn main_args_initial() -> ArgsView {
    ArgsView { dz_epoch: None, index_distributions: false, out_dir: None, snapshot_bucket: None }
}

/// Parses the main command's arguments.
pub fn parse_args(args: &Vec<String>) -> (r: Result<ArgsOutcome<Args>, ArgsError>)
    ensures
        parse_matches::<Args>(main_args_from(texts(args@), 0, main_args_initial()), r),
{
    let ghost ts = texts(args@);
    let mut st = Args { dz_epoch: None, index_distributions: false, out_dir: None, snapshot_bucket: None };
    let mut i: usize = 0;
    let n = args.len();
    proof {
        assert(st@ == main_args_initial());
    }
    while i < n
        invariant
            n == args@.len(),
            ts == texts(args@),
            i <= n,
            main_args_from(ts, i as int, st@) == main_args_from(ts, 0, main_args_initial()),
        decreases n - i,
    {
        let a = &args[i];
        assert(ts[i as int] == a@);
        if str_eq(a.as_str(), "--dz-epoch") {
            if i + 1 >= n {
                return Err(missing_value("--dz-epoch"));
            }
            assert(ts[i + 1] == args@[i + 1]@);
            match parse_number(&args[i + 1]) {
                None => {
                    return Err(ArgsError::InvalidNumber { what: string_from_literal("invalid dz epoch") });
                },
                Some(v) => {
                    st.dz_epoch = Some(v);
                },
            }
            i = i + 2;
        } else if str_eq(a.as_str(), "--out-dir") {
            if i + 1 >= n {
                return Err(missing_value("--out-dir"));
            }
            assert(ts[i + 1] == args@[i + 1]@);
            st.out_dir = Some(args[i + 1].clone());
            i = i + 2;
        } else if str_eq(a.as_str(), "--index") {
            st.index_distributions = true;
            i = i + 1;
        } else if str_eq(a.as_str(), "--snapshot-bucket") {
            if i + 1 >= n {
                return Err(missing_value("--snapshot-bucket"));
            }
            assert(ts[i + 1] == args@[i + 1]@);
            st.snapshot_bucket = Some(args[i + 1].clone());
            i = i + 2;
        } else if help_flag(a) {
            return Ok(ArgsOutcome::Help);
        } else if st.dz_epoch.is_none() {
            match parse_number(a) {
                None => {
                    return Err(ArgsError::InvalidNumber { what: string_from_literal("invalid dz epoch") });
                },
                Some(v) => {
                    st.dz_epoch = Some(v);
                },
            }
            i = i + 1;
        } else {
            return Err(ArgsError::UnexpectedArgument { arg: a.clone() });
        }
    }
    if st.dz_epoch.is_none() {
        return Err(ArgsError::Missing {
            message: string_from_literal("missing dz epoch (use --dz-epoch <n> or pass it as a positional)"),
        });
    }
    Ok(ArgsOutcome::Parsed(st))
}

/// The folder an epoch's outputs go to when none is given: `out/epoch_<n>`.
pub fn default_out_dir(dz_epoch: u64) -> (r: String)
    ensures
        r@ == "out/epoch_"@ + decimal_digits(dz_epoch as nat),
{
    let digits = u64_to_decimal(dz_epoch);
    text_concat("out/epoch_", digits.as_str())
}

// ---------------------------------------------------------------- enrich

/// The enrich command's arguments.
#[derive(Debug, Clone, PartialEq, Eq)]
pub struct EnrichArgs {
    pub snapshot_path: String,
    pub onchain_dir: String,
    pub out_dir: Option<String>,
}

/// The paths that the enrich command reads and writes.
pub struct EnrichPaths {
    pub snapshot_path: Seq<char>,
    pub onchain_dir: Seq<char>,
    pub out_dir: Option<Seq<char>>,
}

impl View for EnrichArgs {
    type V = EnrichPaths;

    open spec fn view(&self) -> EnrichPaths {
        EnrichPaths { snapshot_path: self.snapshot_path@, onchain_dir: self.onchain_dir@, out_dir: opt_text(self.out_dir) }
    }
}

/// The enrich command's flags read so far.
pub struct EnrichArgsView {
    pub snapshot_path: Option<Seq<char>>,
    pub onchain_dir: Option<Seq<char>>,
    pub out_dir: Option<Seq<char>>,
}

/// The enrich command's arguments from position `i` on: `--snapshot <path>`,
/// `--onchain-dir <path>`, `--out-dir <path>` or a help flag; the first two
/// are required.
pub open spec fn enrich_args_from(args: Seq<Seq<char>>, i: int, st: EnrichArgsView) -> ArgsParse<EnrichPaths>
    decreases args.len() - i,
{
    if i < 0 || i >= args.len() {
        match st.snapshot_path {
            None => ArgsParse::Failed(ArgsErrorView::Missing("missing --snapshot"@)),
            Some(snapshot_path) => match st.onchain_dir {
                None => ArgsParse::Failed(ArgsErrorView::Missing("missing --onchain-dir"@)),
                Some(onchain_dir) => ArgsParse::Done(EnrichPaths { snapshot_path, onchain_dir, out_dir: st.out_dir }),
            },
        }
    } else {
        let a = args[i];
        if a == "--snapshot"@ {
            if i + 1 >= args.len() {
                ArgsParse::Failed(ArgsErrorView::MissingValue("--snapshot"@))
            } else {
                enrich_args_from(args, i + 2, EnrichArgsView { snapshot_path: Some(args[i + 1]), ..st })
            }
        } else if a == "--onchain-dir"@ {
            if i + 1 >= args.len() {
                ArgsParse::Failed(ArgsErrorView::MissingValue("--onchain-dir"@))
            } else {
                enrich_args_from(args, i + 2, EnrichArgsView { onchain_dir: Some(args[i + 1]), ..st })
            }
        } else if a == "--out-dir"@ {
            if i + 1 >= args.len() {
                ArgsParse::Failed(ArgsErrorView::MissingValue("--out-dir"@))
            } else {
                enrich_args_from(args, i + 2, EnrichArgsView { out_dir: Some(args[i + 1]), ..st })
            }
        } else if is_help_flag(a) {
            ArgsParse::Help
        } else {
            ArgsParse::Failed(ArgsErrorView::UnexpectedArgument(a))
        }
    }
}

/// Parses the enrich command's arguments.
pub fn parse_enrich_args(args: &Vec<String>) -> (r: Result<ArgsOutcome<EnrichArgs>, ArgsError>)
    ensures
        parse_matches::<EnrichArgs>(
            enrich_args_from(texts(args@), 0, EnrichArgsView { snapshot_path: None, onchain_dir: None, out_dir: None }),
            r,
        ),
{
    let ghost ts = texts(args@);
    let mut snapshot_path: Option<String> = None;
    let mut onchain_dir: Option<String> = None;
    let mut out_dir: Option<String> = None;
    let mut i: usize = 0;
    let n = args.len();
    while i < n
        invariant
            n == args@.len(),
            ts == texts(args@),
            i <= n,
            enrich_args_from(ts, i as int, EnrichArgsView {
                snapshot_path: opt_text(snapshot_path),
                onchain_dir: opt_text(onchain_dir),
                out_dir: opt_text(out_dir),
            }) == enrich_args_from(ts, 0, EnrichArgsView { snapshot_path: None, onchain_dir: None, out_dir: None }),
        decreases n - i,
    {
        let a = &args[i];
        assert(ts[i as int] == a@);
        if str_eq(a.as_str(), "--snapshot") {
            if i + 1 >= n {
                return Err(missing_value("--snapshot"));
            }
            assert(ts[i + 1] == args@[i + 1]@);
            snapshot_path = Some(args[i + 1].clone());
            i = i + 2;
        } else if str_eq(a.as_str(), "--onchain-dir") {
            if i + 1 >= n {
                return Err(missing_value("--onchain-dir"));
            }
            assert(ts[i + 1] == args@[i + 1]@);
            onchain_dir = Some(args[i + 1].clone());
            i = i + 2;
        } else if str_eq(a.as_str(), "--out-dir") {
            if i + 1 >= n {
                return Err(missing_value("--out-dir"));
            }
            assert(ts[i + 1] == args@[i + 1]@);
            out_dir = Some(args[i + 1].clone());
            i = i + 2;
        } else if help_flag(a) {
            return Ok(ArgsOutcome::Help);
        } else {
            return Err(ArgsError::UnexpectedArgument { arg: a.clone() });
        }
    }
    let snapshot_path = match snapshot_path {
        Some(p) => p,
        None => {
            return Err(ArgsError::Missing { message: string_from_literal("missing --snapshot") });
        },
    };
    let onchain_dir = match onchain_dir {
        Some(p) => p,
        None => {
            return Err(ArgsError::Missing { message: string_from_literal("missing --onchain-dir") });
        },
    };
    Ok(ArgsOutcome::Parsed(EnrichArgs { snapshot_path, onchain_dir, out_dir }))
}

/// A flag of the enrich command that takes a value.
pub open spec fn is_enrich_flag(a: Seq<char>) -> bool {
    a == "--snapshot"@ || a == "--onchain-dir"@ || a == "--out-dir"@
}

/// `args` from position `i` on is a list of flag-value pairs over the
/// enrich command's flags.
pub open spec fn enrich_flag_pairs(args: Seq<Seq<char>>, i: int) -> bool
    decreases args.len() - i,
{
    if i < 0 || i > args.len() {
        false
    } else if i == args.len() {
        true
    } else {
        i + 1 < args.len() && is_enrich_flag(args[i]) && enrich_flag_pairs(args, i + 2)
    }
}

/// The value of the last pair for `flag` among the pairs of `args` from
/// position `i` on.
pub open spec fn last_flag_value(args: Seq<Seq<char>>, i: int, flag: Seq<char>) -> Option<Seq<char>>
    decreases args.len() - i,
{
    if i < 0 || i + 1 >= args.len() {
        None
    } else {
        match last_flag_value(args, i + 2, flag) {
            Some(v) => Some(v),
            None => if args[i] == flag {
                Some(args[i + 1])
            } else {
                None
            },
        }
    }
}

/// `later` where it holds a value, else `earlier`.
pub open spec fn later_value(later: Option<Seq<char>>, earlier: Option<Seq<char>>) -> Option<Seq<char>> {
    if later is Some {
        later
    } else {
        earlier
    }
}

proof fn lemma_enrich_pairs_from(args: Seq<Seq<char>>, i: int, st: EnrichArgsView)
    requires
        0 <= i <= args.len(),
        enrich_flag_pairs(args, i),
    ensures
        enrich_args_from(args, i, st) == enrich_args_from(
            args,
            args.len() as int,
            EnrichArgsView {
                snapshot_path: later_value(last_flag_value(args, i, "--snapshot"@), st.snapshot_path),
                onchain_dir: later_value(last_flag_value(args, i, "--onchain-dir"@), st.onchain_dir),
                out_dir: later_value(last_flag_value(args, i, "--out-dir"@), st.out_dir),
            },
        ),
    decreases args.len() - i,
{
    reveal_strlit("--snapshot");
    reveal_strlit("--onchain-dir");
    reveal_strlit("--out-dir");
    reveal_strlit("-h");
    reveal_strlit("--help");
    if i < args.len() {
        let a = args[i];
        let v = args[i + 1];
        let next = if a == "--snapshot"@ {
            EnrichArgsView { snapshot_path: Some(v), ..st }
        } else if a == "--onchain-dir"@ {
            EnrichArgsView { onchain_dir: Some(v), ..st }
        } else {
            EnrichArgsView { out_dir: Some(v), ..st }
        };
        assert("--snapshot"@[2] != "--onchain-dir"@[2]);
        assert("--snapshot"@[2] != "--out-dir"@[2]);
        assert("--onchain-dir"@[3] != "--out-dir"@[3]);
        assert(enrich_args_from(args, i, st) == enrich_args_from(args, i + 2, next));
        lemma_enrich_pairs_from(args, i + 2, next);
        assert(later_value(last_flag_value(args, i, "--snapshot"@), st.snapshot_path) == later_value(
            last_flag_value(args, i + 2, "--snapshot"@),
            next.snapshot_path,
        ));
        assert(later_value(last_flag_value(args, i, "--onchain-dir"@), st.onchain_dir) == later_value(
            last_flag_value(args, i + 2, "--onchain-dir"@),
            next.onchain_dir,
        ));
        assert(later_value(last_flag_value(args, i, "--out-dir"@), st.out_dir) == later_value(
            last_flag_value(args, i + 2, "--out-dir"@),
            next.out_dir,
        ));
    } else {
        assert(last_flag_value(args, i, "--snapshot"@) is None);
        assert(last_flag_value(args, i, "--onchain-dir"@) is None);
        assert(last_flag_value(args, i, "--out-dir"@) is None);
    }
}

/// Given as flag-value pairs in which `--snapshot` and `--onchain-dir` each
/// occur, the enrich command's arguments configure a run with the last value
/// given to each flag, and no output folder where `--out-dir` is not given.
pub proof fn lemma_enrich_args_last_value_wins(args: Seq<Seq<char>>)
    requires
        enrich_flag_pairs(args, 0),
        last_flag_value(args, 0, "--snapshot"@) is Some,
        last_flag_value(args, 0, "--onchain-dir"@) is Some,
    ensures
        enrich_args_from(args, 0, EnrichArgsView { snapshot_path: None, onchain_dir: None, out_dir: None })
            == ArgsParse::Done(
            EnrichPaths {
                snapshot_path: last_flag_value(args, 0, "--snapshot"@)->0,
                onchain_dir: last_flag_value(args, 0, "--onchain-dir"@)->0,
                out_dir: last_flag_value(args, 0, "--out-dir"@),
            },
        ),
{
    lemma_enrich_pairs_from(args, 0, EnrichArgsView { snapshot_path: None, onchain_dir: None, out_dir: None });
}

// ---------------------------------------------------------------- report

/// The report command's arguments.
#[derive(Debug, Clone, PartialEq, Eq)]
pub struct ReportArgs {
    pub input_dir: String,
    pub fees_csv: Option<String>,
    pub out_dir: Option<String>,
}

pub struct ReportArgsView {
    pub input_dir: Seq<char>,
    pub fees_csv: Option<Seq<char>>,
    pub out_dir: Option<Seq<char>>,
}

impl View for ReportArgs {
    type V = ReportArgsView;

    open spec fn view(&self) -> ReportArgsView {
        ReportArgsView { input_dir: self.input_dir@, fees_csv: opt_text(self.fees_csv), out_dir: opt_text(self.out_dir) }
    }
}

/// The report command's flags read so far.
pub struct ReportState {
    pub input_dir: Option<Seq<char>>,
    pub fees_csv: Option<Seq<char>>,
    pub out_dir: Option<Seq<char>>,
}

/// The report command's arguments from position `i` on: `--input-dir <path>`,
/// `--fees-csv <path>`, `--out-dir <path>`, a help flag, or the input folder
/// as the one positional; the input folder is required.
pub open spec fn report_args_from(args: Seq<Seq<char>>, i: int, st: ReportState) -> ArgsParse<ReportArgsView>
    decreases args.len() - i,
{
    if i < 0 || i >= args.len() {
        match st.input_dir {
            None => ArgsParse::Failed(ArgsErrorView::Missing("missing input directory"@)),
            Some(input_dir) => ArgsParse::Done(ReportArgsView { input_dir, fees_csv: st.fees_csv, out_dir: st.out_dir }),
        }
    } else {
        let a = args[i];
        if a == "--input-dir"@ {
            if i + 1 >= args.len() {
                ArgsParse::Failed(ArgsErrorView::MissingValue("--input-dir"@))
            } else {
                report_args_from(args, i + 2, ReportState { input_dir: Some(args[i + 1]), ..st })
            }
        } else if a == "--fees-csv"@ {
            if i + 1 >= args.len() {
                ArgsParse::Failed(ArgsErrorView::MissingValue("--fees-csv"@))
            } else {
                report_args_from(args, i + 2, ReportState { fees_csv: Some(args[i + 1]), ..st })
            }
        } else if a == "--out-dir"@ {
            if i + 1 >= args.len() {
                ArgsParse::Failed(ArgsErrorView::MissingValue("--out-dir"@))
            } else {
                report_args_from(args, i + 2, ReportState { out_dir: Some(args[i + 1]), ..st })
            }
        } else if is_help_flag(a) {
            ArgsParse::Help
        } else if st.input_dir is None {
            report_args_from(args, i + 1, ReportState { input_dir: Some(a), ..st })
        } else {
            ArgsParse::Failed(ArgsErrorView::UnexpectedArgument(a))
        }
    }
}

/// Parses the report command's arguments.
pub fn parse_report_args(args: &Vec<String>) -> (r: Result<ArgsOutcome<ReportArgs>, ArgsError>)
    ensures
        parse_matches::<ReportArgs>(
            report_args_from(texts(args@), 0, ReportState { input_dir: None, fees_csv: None, out_dir: None }),
            r,
        ),
{
    let ghost ts = texts(args@);
    let mut input_dir: Option<String> = None;
    let mut fees_csv: Option<String> = None;
    let mut out_dir: Option<String> = None;
    let mut i: usize = 0;
    let n = args.len();
    while i < n
        invariant
            n == args@.len(),
            ts == texts(args@),
            i <= n,
            report_args_from(ts, i as int, ReportState {
                input_dir: opt_text(input_dir),
                fees_csv: opt_text(fees_csv),
                out_dir: opt_text(out_dir),
            }) == report_args_from(ts, 0, ReportState { input_dir: None, fees_csv: None, out_dir: None }),
        decreases n - i,
    {
        let a = &args[i];
        assert(ts[i as int] == a@);
        if str_eq(a.as_str(), "--input-dir") {
            if i + 1 >= n {
                return Err(missing_value("--input-dir"));
            }
            assert(ts[i + 1] == args@[i + 1]@);
            input_dir = Some(args[i + 1].clone());
            i = i + 2;
        } else if str_eq(a.as_str(), "--fees-csv") {
            if i + 1 >= n {
                return Err(missing_value("--fees-csv"));
            }
            assert(ts[i + 1] == args@[i + 1]@);
            fees_csv = Some(args[i + 1].clone());
            i = i + 2;
        } else if str_eq(a.as_str(), "--out-dir") {
            if i + 1 >= n {
                return Err(missing_value("--out-dir"));
            }
            assert(ts[i + 1] == args@[i + 1]@);
            out_dir = Some(args[i + 1].clone());
            i = i + 2;
        } else if help_flag(a) {
            return Ok(ArgsOutcome::Help);
        } else if input_dir.is_none() {
            input_dir = Some(a.clone());
            i = i + 1;
        } else {
            return Err(ArgsError::UnexpectedArgument { arg: a.clone() });
        }
    }
    let input_dir = match input_dir {
        Some(p) => p,
        None => {
            return Err(ArgsError::Missing { message: string_from_literal("missing input directory") });
        },
    };
    Ok(ArgsOutcome::Parsed(ReportArgs { input_dir, fees_csv, out_dir }))
}

// ---------------------------------------------------------------- snapshot

/// The snapshot command's arguments.
#[derive(Debug, Clone, PartialEq, Eq)]
pub struct SnapshotArgs {
    pub epoch: Option<u64>,
    pub latest: bool,
    pub out_dir: Option<String>,
    pub bucket: String,
}

pub struct SnapshotArgsView {
    pub epoch: Option<u64>,
    pub latest: bool,
    pub out_dir: Option<Seq<char>>,
    pub bucket: Seq<char>,
}

impl View for SnapshotArgs {
    type V = SnapshotArgsView;

    open spec fn view(&self) -> SnapshotArgsView {
        SnapshotArgsView { epoch: self.epoch, latest: self.latest, out_dir: opt_text(self.out_dir), bucket: self.bucket@ }
    }
}

/// The snapshot command's arguments from position `i` on: `--epoch <n>`,
/// `--latest`, `--out-dir <path>`, `--bucket <url>` or a help flag; exactly
/// one of `--epoch` and `--latest` is required.
pub open spec fn snapshot_args_from(args: Seq<Seq<char>>, i: int, st: SnapshotArgsView) -> ArgsParse<SnapshotArgsView>
    decreases args.len() - i,
{
    if i < 0 || i >= args.len() {
        if st.epoch is None && !st.latest {
            ArgsParse::Failed(ArgsErrorView::EpochOrLatestRequired)
        } else if st.epoch is Some && st.latest {
            ArgsParse::Failed(ArgsErrorView::EpochAndLatest)
        } else {
            ArgsParse::Done(st)
        }
    } else {
        let a = args[i];
        if a == "--epoch"@ {
            if i + 1 >= args.len() {
                ArgsParse::Failed(ArgsErrorView::MissingValue("--epoch"@))
            } else {
                match spec_parse_u64(args[i + 1]) {
                    None => ArgsParse::Failed(ArgsErrorView::InvalidNumber("invalid epoch"@)),
                    Some(v) => snapshot_args_from(args, i + 2, SnapshotArgsView { epoch: Some(v), ..st }),
                }
            }
        } else if a == "--latest"@ {
            snapshot_args_from(args, i + 1, SnapshotArgsView { latest: true, ..st })
        } else if a == "--out-dir"@ {
            if i + 1 >= args.len() {
                ArgsParse::Failed(ArgsErrorView::MissingValue("--out-dir"@))
            } else {
                snapshot_args_from(args, i + 2, SnapshotArgsView { out_dir: Some(args[i + 1]), ..st })
            }
        } else if a == "--bucket"@ {
            if i + 1 >= args.len() {
                ArgsParse::Failed(ArgsErrorView::MissingValue("--bucket"@))
            } else {
                snapshot_args_from(args, i + 2, SnapshotArgsView { bucket: args[i + 1], ..st })
            }
        } else if is_help_flag(a) {
            ArgsParse::Help
        } else {
            ArgsParse::Failed(ArgsErrorView::UnexpectedArgument(a))
        }
    }
}

pub open spec fn snapshot_args_initial() -> SnapshotArgsView {
    SnapshotArgsView { epoch: None, latest: false, out_dir: None, bucket: DEFAULT_SNAPSHOT_BUCKET@ }
}

/// A flag of the snapshot command that takes a value.
pub open spec fn is_snapshot_value_flag(a: Seq<char>) -> bool {
    a == "--epoch"@ || a == "--out-dir"@ || a == "--bucket"@
}

/// The argument after the last `flag` among the snapshot command's
/// arguments from position `i` on, where each flag that takes a value is
/// read together with the argument after it.
pub open spec fn snapshot_flag_value(args: Seq<Seq<char>>, i: int, flag: Seq<char>) -> Option<Seq<char>>
    decreases args.len() + 1 - i,
{
    if i < 0 || i >= args.len() {
        None
    } else {
        let later = if is_snapshot_value_flag(args[i]) {
            snapshot_flag_value(args, i + 2, flag)
        } else {
            snapshot_flag_value(args, i + 1, flag)
        };
        match later {
            Some(v) => Some(v),
            None => if args[i] == flag && i + 1 < args.len() {
                Some(args[i + 1])
            } else {
                None
            },
        }
    }
}

proof fn lemma_snapshot_values_from(args: Seq<Seq<char>>, i: int, st: SnapshotArgsView)
    requires
        0 <= i,
    ensures
        snapshot_args_from(args, i, st) matches ArgsParse::Done(v) ==> {
            &&& v.out_dir == later_value(snapshot_flag_value(args, i, "--out-dir"@), st.out_dir)
            &&& v.bucket == (match snapshot_flag_value(args, i, "--bucket"@) {
                Some(b) => b,
                None => st.bucket,
            })
            &&& v.epoch == (match snapshot_flag_value(args, i, "--epoch"@) {
                Some(t) => spec_parse_u64(t),
                None => st.epoch,
            })
        },
    decreases args.len() - i,
{
    reveal_strlit("--epoch");
    reveal_strlit("--latest");
    reveal_strlit("--out-dir");
    reveal_strlit("--bucket");
    assert("--epoch"@[2] != "--latest"@[2]);
    assert("--epoch"@[2] != "--out-dir"@[2]);
    assert("--epoch"@[2] != "--bucket"@[2]);
    assert("--latest"@[2] != "--out-dir"@[2]);
    assert("--latest"@[2] != "--bucket"@[2]);
    assert("--out-dir"@[2] != "--bucket"@[2]);
    if i < args.len() {
        let a = args[i];
        if a == "--epoch"@ {
            if i + 1 < args.len() {
                if let Some(v) = spec_parse_u64(args[i + 1]) {
                    lemma_snapshot_values_from(args, i + 2, SnapshotArgsView { epoch: Some(v), ..st });
                }
            }
        } else if a == "--latest"@ {
            lemma_snapshot_values_from(args, i + 1, SnapshotArgsView { latest: true, ..st });
        } else if a == "--out-dir"@ {
            if i + 1 < args.len() {
                lemma_snapshot_values_from(args, i + 2, SnapshotArgsView { out_dir: Some(args[i + 1]), ..st });
            }
        } else if a == "--bucket"@ {
            if i + 1 < args.len() {
                lemma_snapshot_values_from(args, i + 2, SnapshotArgsView { bucket: args[i + 1], ..st });
            }
        }
    }
}

/// Where the snapshot command's arguments parse, the output folder is the
/// argument after the last `--out-dir` (none where it is not given), the
/// bucket the argument after the last `--bucket` (else the default bucket),
/// and the epoch the number after the last `--epoch`.
pub proof fn lemma_snapshot_args_last_values(args: Seq<Seq<char>>)
    ensures
        snapshot_args_from(args, 0, snapshot_args_initial()) matches ArgsParse::Done(v) ==> {
            &&& v.out_dir == snapshot_flag_value(args, 0, "--out-dir"@)
            &&& v.bucket == (match snapshot_flag_value(args, 0, "--bucket"@) {
                Some(b) => b,
                None => DEFAULT_SNAPSHOT_BUCKET@,
            })
            &&& v.epoch == (match snapshot_flag_value(args, 0, "--epoch"@) {
                Some(t) => spec_parse_u64(t),
                None => None,
            })
        },
{
    lemma_snapshot_values_from(args, 0, snapshot_args_initial());
}

/// Parses the snapshot command's arguments.
pub fn parse_snapshot_args(args: &Vec<String>) -> (r: Result<ArgsOutcome<SnapshotArgs>, ArgsError>)
    ensures
        parse_matches::<SnapshotArgs>(snapshot_args_from(texts(args@), 0, snapshot_args_initial()), r),
{
    let ghost ts = texts(args@);
    let mut st = SnapshotArgs { epoch: None, latest: false, out_dir: None, bucket: string_from_literal(DEFAULT_SNAPSHOT_BUCKET) };
    let mut i: usize = 0;
    let n = args.len();
    while i < n
        invariant
            n == args@.len(),
            ts == texts(args@),
            i <= n,
            snapshot_args_from(ts, i as int, st@) == snapshot_args_from(ts, 0, snapshot_args_initial()),
        decreases n - i,
    {
        let a = &args[i];
        assert(ts[i as int] == a@);
        if str_eq(a.as_str(), "--epoch") {
            if i + 1 >= n {
                return Err(missing_value("--epoch"));
            }
            assert(ts[i + 1] == args@[i + 1]@);
            match parse_number(&args[i + 1]) {
                None => {
                    return Err(ArgsError::InvalidNumber { what: string_from_literal("invalid epoch") });
                },
                Some(v) => {
                    st.epoch = Some(v);
                },
            }
            i = i + 2;
        } else if str_eq(a.as_str(), "--latest") {
            st.latest = true;
            i = i + 1;
        } else if str_eq(a.as_str(), "--out-dir") {
            if i + 1 >= n {
                return Err(missing_value("--out-dir"));
            }
            assert(ts[i + 1] == args@[i + 1]@);
            st.out_dir = Some(args[i + 1].clone());
            i = i + 2;
        } else if str_eq(a.as_str(), "--bucket") {
            if i + 1 >= n {
                return Err(missing_value("--bucket"));
            }
            assert(ts[i + 1] == args@[i + 1]@);
            st.bucket = args[i + 1].clone();
            i = i + 2;
        } else if help_flag(a) {
            return Ok(ArgsOutcome::Help);
        } else {
            return Err(ArgsError::UnexpectedArgument { arg: a.clone() });
        }
    }
    if st.epoch.is_none() && !st.latest {
        return Err(ArgsError::EpochOrLatestRequired);
    }
    if st.epoch.is_some() && st.latest {
        return Err(ArgsError::EpochAndLatest);
    }
    Ok(ArgsOutcome::Parsed(st))
}

} // verus!
