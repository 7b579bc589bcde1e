//! Reading the program's accounts out of RPC responses, and the records
//! written for them.

use vstd::prelude::*;
use vstd::string::StringExecFns;
use vstd::utf8::encode_utf8;

use crate::bindings::{
    base58_encode, base58_encoded, base64_standard_decode, base64_standard_decoded, hex_encode,
    hex_lower, parsed_pubkey, pubkey_from_str,
};
use crate::le_bytes::le_at;
use crate::text::text_concat;
use crate::dz::{AccountLayout, BurnRate, Distribution, Journal, Pubkey, ValidatorFee, flag_set, limbs_value};
use crate::zero_copy::{
    AccountDataError, DISCRIMINATOR_LEN, account_data_error, checked_from_bytes_with_discriminator,
    discriminator, spec_discriminator,
};

verus! {

/// The discriminator of program configuration accounts.
pub open spec fn spec_program_config_discriminator() -> Seq<u8> {
    spec_discriminator(encode_utf8("dz::account::program_config"@))
}

/// The discriminator of journal accounts.
pub open spec fn spec_journal_discriminator() -> Seq<u8> {
    spec_discriminator(encode_utf8("dz::account::journal"@))
}

/// The discriminator of distribution accounts.
pub open spec fn spec_distribution_discriminator() -> Seq<u8> {
    spec_discriminator(encode_utf8("dz::account::distribution"@))
}

pub fn program_config_discriminator() -> (r: [u8; 8])
    ensures
        r@ == spec_program_config_discriminator(),
{
    discriminator("dz::account::program_config".as_bytes())
}

pub fn journal_discriminator() -> (r: [u8; 8])
    ensures
        r@ == spec_journal_discriminator(),
{
    discriminator("dz::account::journal".as_bytes())
}

pub fn distribution_discriminator() -> (r: [u8; 8])
    ensures
        r@ == spec_distribution_discriminator(),
{
    discriminator("dz::account::distribution".as_bytes())
}

/// Reads `data` as an account of type `T` and counts the bytes that follow
/// its layout.
pub fn parse_account<T: AccountLayout>(data: &[u8], expected_discriminator: [u8; 8]) -> (r: Result<
    (T, usize),
    AccountDataError,
>)
    ensures
        match account_data_error(data@, expected_discriminator@, T::spec_layout_len()) {
            Some(e) => r == Err::<(T, usize), AccountDataError>(e),
            None => r matches Ok((v, remaining)) && v.is_layout_of(data@, DISCRIMINATOR_LEN as int)
                && remaining == data@.len() - DISCRIMINATOR_LEN - T::spec_layout_len(),
        },
{
    let account = checked_from_bytes_with_discriminator::<T>(data, expected_discriminator)?;
    let remaining = data.len() - DISCRIMINATOR_LEN - T::layout_len();
    Ok((account, remaining))
}

pub fn validator_fee_raw(fee: ValidatorFee) -> (r: u64)
    ensures
        r == fee.0,
{
    fee.0 as u64
}

pub fn burn_rate_to_raw(rate: BurnRate) -> (r: u64)
    ensures
        r == rate.0,
{
    rate.0 as u64
}

pub fn hash_to_hex(hash: &[u8; 32]) -> (r: String)
    ensures
        r@ == hex_lower(hash@),
{
    hex_encode(hash.as_slice())
}

/// The journal fields written to `journal.json`.
#[derive(Debug, Clone, Copy, PartialEq, Eq)]
pub struct JournalJson {
    pub total_sol_balance: u64,
    pub total_2z_balance: u64,
    pub swap_2z_destination_balance: u64,
    pub swapped_sol_amount: u64,
    pub next_dz_epoch_to_sweep_tokens: u64,
    pub lifetime_swapped_2z_amount: u128,
}

pub fn journal_to_json(journal: &Journal) -> (r: JournalJson)
    ensures
        r.total_sol_balance == journal.total_sol_balance,
        r.total_2z_balance == journal.total_2z_balance,
        r.swap_2z_destination_balance == journal.swap_2z_destination_balance,
        r.swapped_sol_amount == journal.swapped_sol_amount,
        r.next_dz_epoch_to_sweep_tokens == journal.next_dz_epoch_to_sweep_tokens.0,
        r.lifetime_swapped_2z_amount as nat == limbs_value(
            journal.lifetime_swapped_2z_amount.0@[0],
            journal.lifetime_swapped_2z_amount.0@[1],
        ),
{
    JournalJson {
        total_sol_balance: journal.total_sol_balance,
        total_2z_balance: journal.total_2z_balance,
        swap_2z_destination_balance: journal.swap_2z_destination_balance,
        swapped_sol_amount: journal.swapped_sol_amount,
        next_dz_epoch_to_sweep_tokens: journal.next_dz_epoch_to_sweep_tokens.value(),
        lifetime_swapped_2z_amount: journal.lifetime_swapped_2z_amount(),
    }
}

/// The address of the mainnet RPC endpoint for an API key.
pub fn rpc_url_for_key(api_key: &str) -> (r: String)
    ensures
        r@ == "https://mainnet.helius-rpc.com/?api-key="@ + api_key@,
{
    text_concat("https://mainnet.helius-rpc.com/?api-key=", api_key)
}

/// The slot at which an RPC answer was computed.
#[derive(Debug, Clone, Copy, PartialEq, Eq)]
pub struct RpcContext {
    pub slot: u64,
}

/// An error object of a JSON-RPC answer.
#[derive(Debug, Clone, PartialEq, Eq)]
pub struct RpcError {
    pub code: i64,
    pub message: String,
}

/// The `result` member of a `getAccountInfo` answer.
#[derive(Debug, Clone, PartialEq, Eq)]
pub struct RpcResult<T> {
    pub context: RpcContext,
    pub value: Option<T>,
}

/// A JSON-RPC answer.
#[derive(Debug, Clone, PartialEq, Eq)]
pub struct RpcResponse<T> {
    pub result: Option<RpcResult<T>>,
    pub error: Option<RpcError>,
}

/// An account as the RPC node reports it; `data` is the encoded data and
/// the name of its encoding.
#[derive(Debug, PartialEq, Eq)]
pub struct AccountValue {
    pub lamports: u64,
    pub owner: String,
    pub executable: bool,
    pub rent_epoch: u64,
    pub data: (String, String),
}

/// An account of a `getProgramAccounts` answer.
#[derive(Debug, PartialEq, Eq)]
pub struct ProgramAccount {
    pub pubkey: String,
    pub account: AccountValue,
}

/// An account with its data decoded.
#[derive(Debug, Clone, PartialEq, Eq)]
pub struct RawAccount {
    pub context_slot: u64,
    pub owner: Pubkey,
    pub lamports: u64,
    pub executable: bool,
    pub rent_epoch: u64,
    pub data: Vec<u8>,
}

/// Why an RPC answer gave no account.
#[derive(Debug, Clone, PartialEq, Eq)]
pub enum RpcFetchError {
    Rpc { code: i64, message: String },
    MissingResult,
    AccountNotFound,
    UnexpectedEncoding { encoding: String },
    Base64Decode,
    InvalidOwner,
}

/// The bytes of an account's data, where its text decodes as base64.
pub open spec fn account_bytes(value: AccountValue) -> Option<Seq<u8>> {
    base64_standard_decoded(encode_utf8(value.data.0@))
}

/// The account's data is given in base64.
pub open spec fn is_base64_encoded(value: AccountValue) -> bool {
    value.data.1@ == "base64"@
}

/// The result an RPC answer carries, or the error it reports.
pub open spec fn envelope_outcome<T>(result: Option<T>, error: Option<RpcError>, r: Result<T, RpcFetchError>) -> bool {
    match error {
        Some(e) => r matches Err(RpcFetchError::Rpc { code, message }) && code == e.code && message@ == e.message@,
        None => match result {
            None => r == Err::<T, RpcFetchError>(RpcFetchError::MissingResult),
            Some(v) => r == Ok::<T, RpcFetchError>(v),
        },
    }
}

/// The result of a JSON-RPC answer: its error, if it reports one, else its
/// result, which must be present.
pub fn check_rpc_envelope<T>(result: Option<T>, error: Option<RpcError>) -> (r: Result<T, RpcFetchError>)
    ensures
        envelope_outcome(result, error, r),
{
    if let Some(err) = error {
        return Err(RpcFetchError::Rpc { code: err.code, message: err.message });
    }
    match result {
        Some(v) => Ok(v),
        None => Err(RpcFetchError::MissingResult),
    }
}

/// What reading an account out of a `getAccountInfo` answer gives.
pub open spec fn raw_account_outcome(response: RpcResponse<AccountValue>, r: Result<RawAccount, RpcFetchError>) -> bool {
    match response.error {
        Some(e) => r matches Err(RpcFetchError::Rpc { code, message }) && code == e.code && message@ == e.message@,
        None => match response.result {
            None => r == Err::<RawAccount, RpcFetchError>(RpcFetchError::MissingResult),
            Some(result) => match result.value {
                None => r == Err::<RawAccount, RpcFetchError>(RpcFetchError::AccountNotFound),
                Some(value) => if !is_base64_encoded(value) {
                    r matches Err(RpcFetchError::UnexpectedEncoding { encoding }) && encoding@ == value.data.1@
                } else if account_bytes(value) is None {
                    r == Err::<RawAccount, RpcFetchError>(RpcFetchError::Base64Decode)
                } else if parsed_pubkey(value.owner@) is None {
                    r == Err::<RawAccount, RpcFetchError>(RpcFetchError::InvalidOwner)
                } else {
                    r matches Ok(account) && account.context_slot == result.context.slot
                        && Some(account.owner.0@) == parsed_pubkey(value.owner@)
                        && account.lamports == value.lamports && account.executable == value.executable
                        && account.rent_epoch == value.rent_epoch
                        && Some(account.data@) == account_bytes(value)
                },
            },
        },
    }
}

/// Reads the account out of a `getAccountInfo` answer.
pub fn raw_account_from_response(response: RpcResponse<AccountValue>) -> (r: Result<RawAccount, RpcFetchError>)
    ensures
        raw_account_outcome(response, r),
{
    let result = check_rpc_envelope(response.result, response.error)?;
    let value = match result.value {
        Some(v) => v,
        None => return Err(RpcFetchError::AccountNotFound),
    };
    let (data_b64, encoding) = value.data;
    let base64_name = String::from_str("base64");
    if !(encoding == base64_name) {
        return Err(RpcFetchError::UnexpectedEncoding { encoding });
    }
    let data = match base64_standard_decode(data_b64.as_str().as_bytes()) {
        Ok(d) => d,
        Err(_) => return Err(RpcFetchError::Base64Decode),
    };
    let owner = match pubkey_from_str(value.owner.as_str()) {
        Ok(k) => k,
        Err(_) => return Err(RpcFetchError::InvalidOwner),
    };
    Ok(RawAccount {
        context_slot: result.context.slot,
        owner,
        lamports: value.lamports,
        executable: value.executable,
        rent_epoch: value.rent_epoch,
        data,
    })
}

/// The base58 text of the distribution discriminator, by which the RPC node
/// is asked for distribution accounts only.
pub fn distribution_filter_bytes() -> (r: String)
    ensures
        r@ == base58_encoded(spec_distribution_discriminator()),
{
    let d = distribution_discriminator();
    base58_encode(d.as_slice())
}

/// The summary of one distribution account in `distributions_index.json`.
#[derive(Debug, PartialEq, Eq)]
pub struct DistributionIndexEntry {
    pub dz_epoch: u64,
    pub pubkey: String,
    pub remaining_data_len: usize,
    pub is_debt_calculation_finalized: bool,
    pub is_rewards_calculation_finalized: bool,
    pub has_swept_2z_tokens: bool,
    pub total_solana_validator_debt: u64,
    pub collected_solana_validator_payments: u64,
    pub distributed_2z_amount: u64,
    pub burned_2z_amount: u64,
    pub total_solana_validators: u32,
    pub total_contributors: u32,
}

/// Every distribution account of the program, by epoch.
#[derive(Debug, PartialEq, Eq)]
pub struct DistributionsIndex {
    pub context_slot: u64,
    pub total_accounts: usize,
    pub entries: Vec<DistributionIndexEntry>,
}

/// `e` summarizes the distribution `d` of the account at `pubkey`, after
/// whose layout `remaining` bytes follow.
pub open spec fn entry_matches(e: DistributionIndexEntry, pubkey: Seq<char>, d: Distribution, remaining: int) -> bool {
    &&& e.dz_epoch == d.dz_epoch.0
    &&& e.pubkey@ == pubkey
    &&& e.remaining_data_len == remaining
    &&& e.is_debt_calculation_finalized == flag_set(d.flags, 1)
    &&& e.is_rewards_calculation_finalized == flag_set(d.flags, 2)
    &&& e.has_swept_2z_tokens == flag_set(d.flags, 3)
    &&& e.total_solana_validator_debt == d.total_solana_validator_debt
    &&& e.collected_solana_validator_payments == d.collected_solana_validator_payments
    &&& e.distributed_2z_amount == d.distributed_2z_amount
    &&& e.burned_2z_amount == d.burned_2z_amount
    &&& e.total_solana_validators == d.total_solana_validators
    &&& e.total_contributors == d.total_contributors
}

/// `e` summarizes the distribution account `a`.
pub open spec fn entry_describes(e: DistributionIndexEntry, a: ProgramAccount) -> bool {
    match account_bytes(a.account) {
        None => false,
        Some(b) => exists|d: Distribution|
            #[trigger] d.is_layout_of(b, DISCRIMINATOR_LEN as int)
                && entry_matches(e, a.pubkey@, d, b.len() - DISCRIMINATOR_LEN - Distribution::spec_layout_len()),
    }
}

/// Each field of an index entry is read from its account's bytes: the
/// epoch, debt, payments and 2Z amounts from the little-endian integers of
/// the distribution layout after the discriminator, the state flags from
/// bits one to three of its flag word, and the count of bytes past the layout.
pub proof fn lemma_index_entry_reads_account(e: DistributionIndexEntry, a: ProgramAccount)
    requires
        entry_describes(e, a),
    ensures
        account_bytes(a.account) matches Some(b) && {
            &&& e.pubkey@ == a.pubkey@
            &&& e.dz_epoch as nat == le_at(b, 8int, 8int)
            &&& e.is_debt_calculation_finalized == flag_set(le_at(b, 16int, 8int) as u64, 1)
            &&& e.is_rewards_calculation_finalized == flag_set(le_at(b, 16int, 8int) as u64, 2)
            &&& e.has_swept_2z_tokens == flag_set(le_at(b, 16int, 8int) as u64, 3)
            &&& e.total_solana_validators as nat == le_at(b, 104int, 4int)
            &&& e.total_solana_validator_debt as nat == le_at(b, 112int, 8int)
            &&& e.collected_solana_validator_payments as nat == le_at(b, 120int, 8int)
            &&& e.total_contributors as nat == le_at(b, 160int, 4int)
            &&& e.distributed_2z_amount as nat == le_at(b, 216int, 8int)
            &&& e.burned_2z_amount as nat == le_at(b, 224int, 8int)
            &&& e.remaining_data_len == b.len() - 8 - 448
        },
{
    let b = account_bytes(a.account)->0;
    let d = choose|d: Distribution|
        #[trigger] d.is_layout_of(b, DISCRIMINATOR_LEN as int)
            && entry_matches(e, a.pubkey@, d, b.len() - DISCRIMINATOR_LEN - Distribution::spec_layout_len());
    assert(d.flags as nat == le_at(b, 16int, 8int));
}

/// The account's base64 data does not decode.
pub open spec fn fails_to_decode(a: ProgramAccount) -> bool {
    is_base64_encoded(a.account) && account_bytes(a.account) is None
}

/// The account is given in base64 and its data reads as a distribution.
pub open spec fn is_index_candidate(a: ProgramAccount) -> bool {
    &&& is_base64_encoded(a.account)
    &&& match account_bytes(a.account) {
        Some(b) => account_data_error(b, spec_distribution_discriminator(), Distribution::spec_layout_len()) is None,
        None => false,
    }
}

/// The positions of the accounts that the index lists, in order.
pub open spec fn candidate_positions(s: Seq<ProgramAccount>) -> Seq<int>
    decreases s.len(),
{
    if s.len() == 0 {
        Seq::empty()
    } else {
        let p = candidate_positions(s.drop_last());
        if is_index_candidate(s.last()) {
            p.push(s.len() - 1)
        } else {
            p
        }
    }
}

pub proof fn lemma_candidate_positions_bound(s: Seq<ProgramAccount>)
    ensures
        forall|k: int| 0 <= k < candidate_positions(s).len() ==> 0 <= #[trigger] candidate_positions(s)[k] < s.len(),
    decreases s.len(),
{
    if s.len() > 0 {
        lemma_candidate_positions_bound(s.drop_last());
        let p = candidate_positions(s.drop_last());
        if is_index_candidate(s.last()) {
            assert forall|k: int| 0 <= k < candidate_positions(s).len() implies 0 <= #[trigger] candidate_positions(s)[k] < s.len() by {
                if k < p.len() {
                    assert(candidate_positions(s)[k] == p[k]);
                }
            }
        }
    }
}

/// The entries of `s` for epoch `k`, in order.
pub open spec fn with_epoch(s: Seq<DistributionIndexEntry>, k: u64) -> Seq<DistributionIndexEntry>
    decreases s.len(),
{
    if s.len() == 0 {
        s
    } else {
        let w = with_epoch(s.drop_last(), k);
        if s.last().dz_epoch == k {
            w.push(s.last())
        } else {
            w
        }
    }
}

/// `s` is ordered by epoch.
pub open spec fn sorted_by_epoch(s: Seq<DistributionIndexEntry>) -> bool {
    forall|i: int, j: int| 0 <= i <= j < s.len() ==> #[trigger] s[i].dz_epoch <= #[trigger] s[j].dz_epoch
}

proof fn lemma_with_epoch_add(a: Seq<DistributionIndexEntry>, b: Seq<DistributionIndexEntry>, k: u64)
    ensures
        with_epoch(a + b, k) == with_epoch(a, k) + with_epoch(b, k),
    decreases b.len(),
{
    if b.len() == 0 {
        assert(a + b =~= a);
        assert(with_epoch(a, k) + with_epoch(b, k) =~= with_epoch(a, k));
    } else {
        assert((a + b).drop_last() =~= a + b.drop_last());
        assert((a + b).last() == b.last());
        lemma_with_epoch_add(a, b.drop_last(), k);
        if b.last().dz_epoch == k {
            assert(with_epoch(a, k) + with_epoch(b.drop_last(), k).push(b.last())
                =~= (with_epoch(a, k) + with_epoch(b.drop_last(), k)).push(b.last()));
        }
    }
}

proof fn lemma_with_epoch_none(s: Seq<DistributionIndexEntry>, k: u64)
    requires
        forall|i: int| 0 <= i < s.len() ==> #[trigger] s[i].dz_epoch != k,
    ensures
        with_epoch(s, k) =~= Seq::<DistributionIndexEntry>::empty(),
    decreases s.len(),
{
    if s.len() > 0 {
        lemma_with_epoch_none(s.drop_last(), k);
    }
}

proof fn lemma_with_epoch_single(x: DistributionIndexEntry, k: u64)
    ensures
        with_epoch(seq![x], k) =~= (if x.dz_epoch == k { seq![x] } else { Seq::empty() }),
{
    let e = Seq::<DistributionIndexEntry>::empty();
    assert(seq![x].drop_last() =~= e);
    assert(with_epoch(e, k) == e);
    assert(seq![x].last() == x);
    assert(e.push(x) =~= seq![x]);
}

proof fn lemma_with_epoch_contains(s: Seq<DistributionIndexEntry>, k: u64, x: DistributionIndexEntry)
    ensures
        with_epoch(s, k).contains(x) <==> (s.contains(x) && x.dz_epoch == k),
    decreases s.len(),
{
    if s.len() > 0 {
        let t = s.drop_last();
        lemma_with_epoch_contains(t, k, x);
        assert(s =~= t.push(s.last()));
        if s.contains(x) {
            let i = choose|i: int| 0 <= i < s.len() && s[i] == x;
            if i < s.len() - 1 {
                assert(t[i] == x);
            }
        }
        if t.contains(x) {
            let i = choose|i: int| 0 <= i < t.len() && t[i] == x;
            assert(s[i] == x);
        }
        let w = with_epoch(t, k);
        if s.last().dz_epoch == k {
            if w.push(s.last()).contains(x) {
                let i = choose|i: int| 0 <= i < w.len() + 1 && w.push(s.last())[i] == x;
                if i < w.len() {
                    assert(w[i] == x);
                }
            }
            if w.contains(x) {
                let i = choose|i: int| 0 <= i < w.len() && w[i] == x;
                assert(w.push(s.last())[i] == x);
            }
            if x == s.last() {
                assert(w.push(s.last())[w.len() as int] == x);
            }
        }
    }
}

/// Orders entries by epoch, keeping the order of entries of one epoch.
pub fn sort_by_epoch(entries: Vec<DistributionIndexEntry>) -> (r: Vec<DistributionIndexEntry>)
    ensures
        r@.len() == entries@.len(),
        sorted_by_epoch(r@),
        forall|k: u64| #[trigger] with_epoch(r@, k) == with_epoch(entries@, k),
{
    let ghost initial = entries@;
    let mut rest = entries;
    let mut out: Vec<DistributionIndexEntry> = Vec::new();
    proof {
        assert forall|k: u64| #[trigger] with_epoch(out@, k) + with_epoch(rest@, k) == with_epoch(initial, k) by {
            assert(with_epoch(out@, k) =~= Seq::<DistributionIndexEntry>::empty());
            assert(with_epoch(out@, k) + with_epoch(rest@, k) =~= with_epoch(rest@, k));
        }
    }
    while rest.len() > 0
        invariant
            out@.len() + rest@.len() == initial.len(),
            sorted_by_epoch(out@),
            forall|k: u64| #[trigger] with_epoch(out@, k) + with_epoch(rest@, k) == with_epoch(initial, k),
        decreases rest@.len(),
    {
        let ghost old_rest = rest@;
        let ghost old_out = out@;
        let x = rest.remove(0);
        let mut p: usize = out.len();
        while p > 0 && out[p - 1].dz_epoch > x.dz_epoch
            invariant
                p <= out@.len(),
                out@ == old_out,
                forall|q: int| p <= q < out@.len() ==> #[trigger] out@[q].dz_epoch > x.dz_epoch,
            decreases p,
        {
            p = p - 1;
        }
        let ghost xv = x;
        out.insert(p, x);
        proof {
            let pre = old_out.subrange(0, p as int);
            let post = old_out.subrange(p as int, old_out.len() as int);
            assert(old_out =~= pre + post);
            assert(out@ =~= pre + seq![xv] + post);
            assert(old_rest =~= seq![xv] + rest@);
            assert forall|i: int, j: int| 0 <= i <= j < out@.len() implies #[trigger] out@[i].dz_epoch <= #[trigger] out@[j].dz_epoch by {
                if p > 0 {
                    assert(old_out[p - 1].dz_epoch <= xv.dz_epoch);
                }
                if i < p && j > p {
                    assert(out@[i] == old_out[i]);
                    assert(out@[j] == old_out[j - 1]);
                } else if i < p && j == p {
                    assert(old_out[i].dz_epoch <= old_out[p - 1].dz_epoch);
                } else if i == p && j > p {
                    assert(out@[j] == old_out[j - 1]);
                } else if i > p {
                    assert(out@[i] == old_out[i - 1]);
                    assert(out@[j] == old_out[j - 1]);
                }
            }
            assert forall|k: u64| #[trigger] with_epoch(out@, k) + with_epoch(rest@, k) == with_epoch(initial, k) by {
                lemma_with_epoch_add(pre + seq![xv], post, k);
                lemma_with_epoch_add(pre, seq![xv], k);
                lemma_with_epoch_add(pre, post, k);
                lemma_with_epoch_add(seq![xv], rest@, k);
                lemma_with_epoch_single(xv, k);
                assert(with_epoch(old_out, k) + with_epoch(old_rest, k) == with_epoch(initial, k));
                if xv.dz_epoch == k {
                    assert forall|q: int| 0 <= q < post.len() implies #[trigger] post[q].dz_epoch != k by {
                        assert(post[q] == old_out[p + q]);
                    }
                    lemma_with_epoch_none(post, k);
                    assert(with_epoch(out@, k) + with_epoch(rest@, k) =~= with_epoch(old_out, k) + with_epoch(old_rest, k));
                } else {
                    assert(with_epoch(out@, k) + with_epoch(rest@, k) =~= with_epoch(old_out, k) + with_epoch(old_rest, k));
                }
            }
        }
    }
    proof {
        assert forall|k: u64| #[trigger] with_epoch(out@, k) == with_epoch(initial, k) by {
            assert(with_epoch(rest@, k) =~= Seq::<DistributionIndexEntry>::empty());
            assert(with_epoch(out@, k) + with_epoch(rest@, k) =~= with_epoch(out@, k));
        }
    }
    out
}

/// The entry of the distribution `d` read from the account at `pubkey`.
fn entry_from_distribution(pubkey: &String, d: &Distribution, remaining: usize) -> (e: DistributionIndexEntry)
    ensures
        entry_matches(e, pubkey@, *d, remaining as int),
{
    DistributionIndexEntry {
        dz_epoch: d.dz_epoch.value(),
        pubkey: pubkey.clone(),
        remaining_data_len: remaining,
        is_debt_calculation_finalized: d.is_debt_calculation_finalized(),
        is_rewards_calculation_finalized: d.is_rewards_calculation_finalized(),
        has_swept_2z_tokens: d.has_swept_2z_tokens(),
        total_solana_validator_debt: d.total_solana_validator_debt,
        collected_solana_validator_payments: d.collected_solana_validator_payments,
        distributed_2z_amount: d.distributed_2z_amount,
        burned_2z_amount: d.burned_2z_amount,
        total_solana_validators: d.total_solana_validators,
        total_contributors: d.total_contributors,
    }
}

/// `listed` holds one entry per listed account, in the order of the accounts.
pub open spec fn lists_candidates(listed: Seq<DistributionIndexEntry>, accounts: Seq<ProgramAccount>) -> bool {
    &&& listed.len() == candidate_positions(accounts).len()
    &&& forall|k: int| 0 <= k < listed.len()
        ==> #[trigger] entry_describes(listed[k], accounts[candidate_positions(accounts)[k]])
}

/// The entry of one account: none where it is not a base64-encoded
/// distribution, an error where its base64 data does not decode.
fn index_entry_of(account: &ProgramAccount, expected: &[u8; 8], base64_name: &String) -> (r: Result<
    Option<DistributionIndexEntry>,
    RpcFetchError,
>)
    requires
        expected@ == spec_distribution_discriminator(),
        base64_name@ == "base64"@,
    ensures
        r is Err <==> fails_to_decode(*account),
        r is Err ==> r == Err::<Option<DistributionIndexEntry>, RpcFetchError>(RpcFetchError::Base64Decode),
        r matches Ok(None) ==> !is_index_candidate(*account),
        r matches Ok(Some(e)) ==> is_index_candidate(*account) && entry_describes(e, *account),
{
    if !(account.account.data.1 == *base64_name) {
        return Ok(None);
    }
    let data = match base64_standard_decode(account.account.data.0.as_str().as_bytes()) {
        Ok(d) => d,
        Err(_) => {
            return Err(RpcFetchError::Base64Decode);
        },
    };
    match parse_account::<Distribution>(data.as_slice(), *expected) {
        Ok((distribution, remaining)) => {
            let entry = entry_from_distribution(&account.pubkey, &distribution, remaining);
            assert(distribution.is_layout_of(data@, DISCRIMINATOR_LEN as int));
            Ok(Some(entry))
        },
        Err(_) => Ok(None),
    }
}

/// The entries of the accounts that read as distributions, in the order of
/// the accounts; an error where some account's base64 data does not decode.
pub fn collect_index_entries(accounts: &Vec<ProgramAccount>) -> (r: Result<Vec<DistributionIndexEntry>, RpcFetchError>)
    ensures
        r is Err <==> exists|i: int| 0 <= i < accounts@.len() && #[trigger] fails_to_decode(accounts@[i]),
        r is Err ==> r == Err::<Vec<DistributionIndexEntry>, RpcFetchError>(RpcFetchError::Base64Decode),
        r matches Ok(v) ==> {
            &&& v@.len() == candidate_positions(accounts@).len()
            &&& forall|k: int| 0 <= k < v@.len()
                ==> #[trigger] entry_describes(v@[k], accounts@[candidate_positions(accounts@)[k]])
        },
{
    let expected = distribution_discriminator();
    let base64_name = String::from_str("base64");
    let mut entries: Vec<DistributionIndexEntry> = Vec::new();
    let mut i: usize = 0;
    while i < accounts.len()
        invariant
            i <= accounts@.len(),
            expected@ == spec_distribution_discriminator(),
            base64_name@ == "base64"@,
            forall|j: int| 0 <= j < i ==> !#[trigger] fails_to_decode(accounts@[j]),
            entries@.len() == candidate_positions(accounts@.subrange(0, i as int)).len(),
            forall|k: int| 0 <= k < entries@.len()
                ==> #[trigger] entry_describes(entries@[k], accounts@[candidate_positions(accounts@.subrange(0, i as int))[k]]),
        decreases accounts@.len() - i,
    {
        let ghost prefix = accounts@.subrange(0, i as int);
        let ghost next = accounts@.subrange(0, i + 1);
        proof {
            assert(next.drop_last() =~= prefix);
            assert(next.last() == accounts@[i as int]);
            lemma_candidate_positions_bound(prefix);
        }
        match index_entry_of(&accounts[i], &expected, &base64_name) {
            Err(e) => {
                return Err(e);
            },
            Ok(None) => {},
            Ok(Some(entry)) => {
                let ghost old_entries = entries@;
                entries.push(entry);
                proof {
                    assert forall|k: int| 0 <= k < entries@.len()
                        implies #[trigger] entry_describes(entries@[k], accounts@[candidate_positions(next)[k]]) by {
                        if k < old_entries.len() {
                            assert(entries@[k] == old_entries[k]);
                            assert(candidate_positions(next)[k] == candidate_positions(prefix)[k]);
                        }
                    }
                }
            },
        }
        i = i + 1;
    }
    proof {
        assert(accounts@.subrange(0, accounts@.len() as int) =~= accounts@);
    }
    Ok(entries)
}

/// `e` summarizes one of `accounts`.
pub open spec fn lists_account(e: DistributionIndexEntry, accounts: Seq<ProgramAccount>) -> bool {
    exists|i: int| 0 <= i < accounts.len() && #[trigger] entry_describes(e, accounts[i])
}

/// The index of the distribution accounts of a `getProgramAccounts` answer.
pub fn build_distributions_index(context_slot: u64, accounts: &Vec<ProgramAccount>) -> (r: Result<DistributionsIndex, RpcFetchError>)
    ensures
        r is Err <==> exists|i: int| 0 <= i < accounts@.len() && #[trigger] fails_to_decode(accounts@[i]),
        r is Err ==> r == Err::<DistributionsIndex, RpcFetchError>(RpcFetchError::Base64Decode),
        r matches Ok(index) ==> {
            &&& index.context_slot == context_slot
            &&& index.total_accounts == index.entries@.len()
            &&& sorted_by_epoch(index.entries@)
            &&& exists|listed: Seq<DistributionIndexEntry>| {
                &&& #[trigger] lists_candidates(listed, accounts@)
                &&& index.entries@.len() == listed.len()
                &&& forall|e: u64| #[trigger] with_epoch(index.entries@, e) == with_epoch(listed, e)
            }
            &&& forall|k: int| 0 <= k < index.entries@.len() ==> #[trigger] lists_account(index.entries@[k], accounts@)
        },
{
    let entries = collect_index_entries(accounts)?;
    let ghost listed = entries@;
    let entries = sort_by_epoch(entries);
    assert(lists_candidates(listed, accounts@));
    let index = DistributionsIndex { context_slot, total_accounts: entries.len(), entries };
    proof {
        lemma_candidate_positions_bound(accounts@);
        assert forall|k: int| 0 <= k < index.entries@.len() implies #[trigger] lists_account(index.entries@[k], accounts@) by {
            let x = index.entries@[k];
            lemma_with_epoch_contains(index.entries@, x.dz_epoch, x);
            assert(index.entries@.contains(x));
            assert(with_epoch(index.entries@, x.dz_epoch) == with_epoch(listed, x.dz_epoch));
            lemma_with_epoch_contains(listed, x.dz_epoch, x);
            let m = choose|m: int| 0 <= m < listed.len() && listed[m] == x;
            let i = candidate_positions(accounts@)[m];
            assert(entry_describes(listed[m], accounts@[i]));
            assert(0 <= i < accounts@.len() && entry_describes(index.entries@[k], accounts@[i]));
        }
    }
    Ok(index)
}

} // verus!
