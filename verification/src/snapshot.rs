//! Snapshot files in the public bucket: their names, their URLs, the bucket
//! listing, and the retry schedule of downloads.

use vstd::prelude::*;
use vstd::string::StringExecFns;

use crate::text::{
    chars_of, decimal_digits, trim_end_char, ends_with, find, find_from, has_prefix, has_suffix, lemma_decimal_digits,
    lemma_find_from, parse_u64, push_decimal, spec_parse_u64, starts_with, string_from_chars, string_of, text_concat,
    u64_to_decimal,
};

verus! {

pub const DEFAULT_SNAPSHOT_BUCKET: &'static str = "https://doublezero-contributor-rewards-mn-beta-snapshots.s3.amazonaws.com";

pub const DEFAULT_SNAPSHOT_RETRIES: usize = 3;

pub const DEFAULT_SNAPSHOT_TIMEOUT_SECS: u64 = 120;

/// `<Key>`
pub open spec fn key_open() -> Seq<char> {
    seq!['<', 'K', 'e', 'y', '>']
}

/// `</Key>`
pub open spec fn key_close() -> Seq<char> {
    seq!['<', '/', 'K', 'e', 'y', '>']
}

/// The texts between `<Key>` and the next `</Key>` in `s`, from `pos` on:
/// each search starts after the previous closing tag, and the listing ends
/// at the first opening tag that is not closed.
pub open spec fn keys_from(s: Seq<char>, pos: int) -> Seq<Seq<char>>
    decreases s.len() + 1 - pos,
{
    if pos < 0 {
        Seq::empty()
    } else {
        match find_from(s, key_open(), pos) {
            None => Seq::empty(),
            Some(i) => match find_from(s, key_close(), i + 5) {
                None => Seq::empty(),
                Some(j) => {
                    proof {
                        lemma_find_from(s, key_open(), pos);
                        lemma_find_from(s, key_close(), i + 5);
                    }
                    seq![s.subrange(i + 5, j)] + keys_from(s, j + 6)
                },
            },
        }
    }
}

/// The texts of a sequence of strings.
pub open spec fn texts(v: Seq<String>) -> Seq<Seq<char>> {
    v.map_values(|k: String| k@)
}

fn key_open_chars() -> (r: Vec<char>)
    ensures
        r@ == key_open(),
{
    let r = vec!['<', 'K', 'e', 'y', '>'];
    assert(r@ =~= key_open());
    r
}

fn key_close_chars() -> (r: Vec<char>)
    ensures
        r@ == key_close(),
{
    let r = vec!['<', '/', 'K', 'e', 'y', '>'];
    assert(r@ =~= key_close());
    r
}

/// The object keys of an S3 bucket listing.
pub fn parse_keys(xml: &str) -> (r: Vec<String>)
    ensures
        texts(r@) == keys_from(xml@, 0),
{
    let s = chars_of(xml);
    let open = key_open_chars();
    let close = key_close_chars();
    let mut keys: Vec<String> = Vec::new();
    let mut pos: usize = 0;
    let n = s.len();
    proof {
        assert(texts(keys@) + keys_from(s@, 0) =~= keys_from(s@, 0));
    }
    loop
        invariant
            pos <= s@.len() + 1,
            n == s@.len(),
            s@ == xml@,
            open@ == key_open(),
            close@ == key_close(),
            texts(keys@) + keys_from(s@, pos as int) == keys_from(s@, 0),
        ensures
            texts(keys@) == keys_from(s@, 0),
        decreases s@.len() + 1 - pos,
    {
        proof {
            lemma_find_from(s@, open@, pos as int);
        }
        let i = match find(&s, &open, pos) {
            Some(i) => i,
            None => {
                assert(keys_from(s@, pos as int) =~= Seq::<Seq<char>>::empty());
                assert(texts(keys@) + keys_from(s@, pos as int) =~= texts(keys@));
                break;
            },
        };
        assert(find_from(s@, key_open(), pos as int) == Some(i as int));
        assert(i + 5 <= n);
        let a = i + 5;
        proof {
            lemma_find_from(s@, close@, a as int);
        }
        let j = match find(&s, &close, a) {
            Some(j) => j,
            None => {
                assert(find_from(s@, key_close(), i + 5) is None);
                assert(keys_from(s@, pos as int) =~= Seq::<Seq<char>>::empty());
                assert(texts(keys@) + keys_from(s@, pos as int) =~= texts(keys@));
                break;
            },
        };
        assert(find_from(s@, key_close(), a as int) == Some(j as int));
        let key = string_from_chars(&s, a, j);
        let ghost old_keys = keys@;
        keys.push(key);
        proof {
            assert(texts(keys@) =~= texts(old_keys).push(key@));
            assert(keys_from(s@, pos as int) == seq![s@.subrange(a as int, j as int)] + keys_from(s@, j + 6));
            assert(texts(keys@) + keys_from(s@, j + 6) =~= texts(old_keys) + keys_from(s@, pos as int));
        }
        pos = j + 6;
    }
    keys
}

/// `mn-epoch-`
pub open spec fn snapshot_prefix() -> Seq<char> {
    seq!['m', 'n', '-', 'e', 'p', 'o', 'c', 'h', '-']
}

/// `-snapshot.json`
pub open spec fn snapshot_suffix() -> Seq<char> {
    seq!['-', 's', 'n', 'a', 'p', 's', 'h', 'o', 't', '.', 'j', 's', 'o', 'n']
}

/// The key begins with `mn-epoch-` and ends with `-snapshot.json`, and the
/// two overlap, so that no text lies between them; slicing out the epoch
/// panics on such a key (the one key `mn-epoch-snapshot.json`).
pub open spec fn epoch_slice_panics(key: Seq<char>) -> bool {
    has_prefix(key, snapshot_prefix()) && has_suffix(key, snapshot_suffix())
        && key.len() < snapshot_prefix().len() + snapshot_suffix().len()
}

/// The epoch named by a snapshot file name `mn-epoch-<epoch>-snapshot.json`.
pub open spec fn spec_snapshot_epoch(key: Seq<char>) -> Option<u64> {
    if has_prefix(key, snapshot_prefix()) && has_suffix(key, snapshot_suffix()) {
        spec_parse_u64(key.subrange(snapshot_prefix().len() as int, key.len() - snapshot_suffix().len()))
    } else {
        None
    }
}

fn snapshot_prefix_chars() -> (r: Vec<char>)
    ensures
        r@ == snapshot_prefix(),
{
    let r = vec!['m', 'n', '-', 'e', 'p', 'o', 'c', 'h', '-'];
    assert(r@ =~= snapshot_prefix());
    r
}

fn snapshot_suffix_chars() -> (r: Vec<char>)
    ensures
        r@ == snapshot_suffix(),
{
    let r = vec!['-', 's', 'n', 'a', 'p', 's', 'h', 'o', 't', '.', 'j', 's', 'o', 'n'];
    assert(r@ =~= snapshot_suffix());
    r
}

/// The epoch of a snapshot object key, if the key names a snapshot.
pub fn parse_snapshot_epoch(key: &str) -> (r: Option<u64>)
    requires
        !epoch_slice_panics(key@),
    ensures
        r == spec_snapshot_epoch(key@),
{
    let s = chars_of(key);
    let prefix = snapshot_prefix_chars();
    let suffix = snapshot_suffix_chars();
    if !starts_with(&s, &prefix) || !ends_with(&s, &suffix) {
        return None;
    }
    parse_u64(&s, prefix.len(), s.len() - suffix.len())
}

/// The newest epoch among the snapshots that a bucket listing names.
pub fn latest_snapshot_epoch(xml: &str) -> (r: Option<u64>)
    requires
        forall|k: int| 0 <= k < keys_from(xml@, 0).len() ==> !epoch_slice_panics(#[trigger] keys_from(xml@, 0)[k]),
    ensures
        r is None <==> forall|k: int| 0 <= k < keys_from(xml@, 0).len() ==> #[trigger] spec_snapshot_epoch(keys_from(xml@, 0)[k]) is None,
        r matches Some(m) ==> {
            &&& exists|k: int| 0 <= k < keys_from(xml@, 0).len() && #[trigger] spec_snapshot_epoch(keys_from(xml@, 0)[k]) == Some(m)
            &&& forall|k: int| 0 <= k < keys_from(xml@, 0).len() ==> (#[trigger] spec_snapshot_epoch(keys_from(xml@, 0)[k]) matches Some(e) ==> e <= m)
        },
{
    let keys = parse_keys(xml);
    let ghost ks = keys_from(xml@, 0);
    let mut best: Option<u64> = None;
    let mut i: usize = 0;
    while i < keys.len()
        invariant
            i <= keys@.len(),
            texts(keys@) == ks,
            ks == keys_from(xml@, 0),
            forall|k: int| 0 <= k < ks.len() ==> !epoch_slice_panics(#[trigger] ks[k]),
            best is None <==> forall|k: int| 0 <= k < i ==> #[trigger] spec_snapshot_epoch(ks[k]) is None,
            best matches Some(m) ==> {
                &&& exists|k: int| 0 <= k < i && #[trigger] spec_snapshot_epoch(ks[k]) == Some(m)
                &&& forall|k: int| 0 <= k < i ==> (#[trigger] spec_snapshot_epoch(ks[k]) matches Some(e) ==> e <= m)
            },
        decreases keys@.len() - i,
    {
        assert(keys@[i as int]@ == ks[i as int]);
        let epoch = parse_snapshot_epoch(keys[i].as_str());
        match epoch {
            Some(e) => {
                match best {
                    Some(m) => {
                        if e > m {
                            best = Some(e);
                        }
                    },
                    None => {
                        best = Some(e);
                    },
                }
            },
            None => {},
        }
        i = i + 1;
    }
    best
}

/// The name of the snapshot file of `epoch`.
pub open spec fn spec_snapshot_filename(epoch: u64) -> Seq<char> {
    snapshot_prefix() + decimal_digits(epoch as nat) + snapshot_suffix()
}

/// `mn-epoch-<epoch>-snapshot.json`
pub fn snapshot_filename(epoch: u64) -> (r: String)
    ensures
        r@ == spec_snapshot_filename(epoch),
{
    let mut v = snapshot_prefix_chars();
    push_decimal(epoch, &mut v);
    let suffix = snapshot_suffix_chars();
    let mut i: usize = 0;
    let ghost base = v@;
    while i < suffix.len()
        invariant
            i <= suffix@.len(),
            suffix@ == snapshot_suffix(),
            v@ == base + suffix@.subrange(0, i as int),
        decreases suffix@.len() - i,
    {
        v.push(suffix[i]);
        i = i + 1;
        assert(v@ =~= base + suffix@.subrange(0, i as int));
    }
    assert(suffix@.subrange(0, suffix@.len() as int) =~= suffix@);
    assert(v@ =~= spec_snapshot_filename(epoch));
    string_of(&v)
}

/// The file name of a snapshot names its epoch: reading the epoch back from
/// the name that `snapshot_filename` writes gives the epoch, and does not panic.
pub proof fn lemma_snapshot_filename_roundtrip(epoch: u64)
    ensures
        !epoch_slice_panics(spec_snapshot_filename(epoch)),
        spec_snapshot_epoch(spec_snapshot_filename(epoch)) == Some(epoch),
{
    let p = snapshot_prefix();
    let d = decimal_digits(epoch as nat);
    let x = snapshot_suffix();
    let name = p + d + x;
    lemma_decimal_digits(epoch as nat);
    assert(name.subrange(0, p.len() as int) =~= p);
    assert(name.subrange(name.len() - x.len(), name.len() as int) =~= x);
    assert(name.subrange(p.len() as int, name.len() - x.len()) =~= d);
    crate::text::lemma_parse_decimal_roundtrip(epoch);
}

/// A key reads as epoch `n` only where it is `mn-epoch-`, then a text that
/// reads as `n`, then `-snapshot.json`.
pub proof fn lemma_snapshot_epoch_shape(key: Seq<char>, n: u64)
    requires
        !epoch_slice_panics(key),
        spec_snapshot_epoch(key) == Some(n),
    ensures
        exists|middle: Seq<char>| #[trigger] spec_parse_u64(middle) == Some(n)
            && key == snapshot_prefix() + middle + snapshot_suffix(),
{
    let p = snapshot_prefix();
    let x = snapshot_suffix();
    let middle = key.subrange(p.len() as int, key.len() - x.len());
    assert(key.subrange(0, p.len() as int) =~= p);
    assert(key.subrange(key.len() - x.len(), key.len() as int) =~= x);
    assert(key =~= p + middle + x);
    assert(spec_parse_u64(middle) == Some(n));
}

/// The number of characters of `s` left after trimming trailing `c`.
fn trimmed_len(s: &Vec<char>, c: char) -> (n: usize)
    ensures
        n <= s@.len(),
        s@.subrange(0, n as int) == trim_end_char(s@, c),
{
    let mut n = s.len();
    proof {
        assert(s@.subrange(0, n as int) =~= s@);
    }
    while n > 0 && s[n - 1] == c
        invariant
            n <= s@.len(),
            trim_end_char(s@.subrange(0, n as int), c) == trim_end_char(s@, c),
        decreases n,
    {
        assert(s@.subrange(0, n as int).drop_last() =~= s@.subrange(0, n - 1));
        n = n - 1;
    }
    n
}

/// The bucket address without trailing slashes, followed by `tail`.
fn bucket_url_with(bucket: &str, tail: &Vec<char>) -> (r: String)
    ensures
        r@ == trim_end_char(bucket@, '/') + tail@,
{
    let b = chars_of(bucket);
    let n = trimmed_len(&b, '/');
    let mut v: Vec<char> = Vec::new();
    let mut i: usize = 0;
    while i < n
        invariant
            i <= n <= b@.len(),
            v@ == b@.subrange(0, i as int),
        decreases n - i,
    {
        v.push(b[i]);
        i = i + 1;
        assert(v@ =~= b@.subrange(0, i as int));
    }
    let mut k: usize = 0;
    let ghost base = v@;
    while k < tail.len()
        invariant
            k <= tail@.len(),
            v@ == base + tail@.subrange(0, k as int),
        decreases tail@.len() - k,
    {
        v.push(tail[k]);
        k = k + 1;
        assert(v@ =~= base + tail@.subrange(0, k as int));
    }
    assert(tail@.subrange(0, tail@.len() as int) =~= tail@);
    string_of(&v)
}

/// The download address of the snapshot of `epoch` in `bucket`.
pub fn snapshot_url(bucket: &str, epoch: u64) -> (r: String)
    ensures
        r@ == trim_end_char(bucket@, '/') + seq!['/'] + spec_snapshot_filename(epoch),
{
    let name = snapshot_filename(epoch);
    let chars = chars_of(name.as_str());
    let mut tail: Vec<char> = vec!['/'];
    let mut i: usize = 0;
    while i < chars.len()
        invariant
            i <= chars@.len(),
            tail@ == seq!['/'] + chars@.subrange(0, i as int),
        decreases chars@.len() - i,
    {
        tail.push(chars[i]);
        i = i + 1;
        assert(tail@ =~= seq!['/'] + chars@.subrange(0, i as int));
    }
    assert(chars@.subrange(0, chars@.len() as int) =~= chars@);
    let r = bucket_url_with(bucket, &tail);
    assert(r@ =~= trim_end_char(bucket@, '/') + seq!['/'] + spec_snapshot_filename(epoch));
    r
}

/// The folder a snapshot goes to when none is given:
/// `out/epoch_<epoch>/snapshot`.
pub fn snapshot_out_dir(epoch: u64) -> (r: String)
    ensures
        r@ == "out/epoch_"@ + decimal_digits(epoch as nat) + "/snapshot"@,
{
    let digits = u64_to_decimal(epoch);
    let head = text_concat("out/epoch_", digits.as_str());
    text_concat(head.as_str(), "/snapshot")
}

/// `/?list-type=2`
pub open spec fn list_query() -> Seq<char> {
    seq!['/', '?', 'l', 'i', 's', 't', '-', 't', 'y', 'p', 'e', '=', '2']
}

/// The address that lists the objects of `bucket`.
pub fn bucket_list_url(bucket: &str) -> (r: String)
    ensures
        r@ == trim_end_char(bucket@, '/') + list_query(),
{
    let tail = vec!['/', '?', 'l', 'i', 's', 't', '-', 't', 'y', 'p', 'e', '=', '2'];
    assert(tail@ =~= list_query());
    bucket_url_with(bucket, &tail)
}

/// After download attempt `attempt` (counted from one) of `retries` has
/// failed: the seconds to wait before the next attempt, or `None` when no
/// attempt is left.
pub fn retry_delay_secs(attempt: u64, retries: u64) -> (r: Option<u64>)
    requires
        attempt <= u64::MAX / 2,
    ensures
        r == (if attempt < retries { Some((2 * attempt) as u64) } else { None::<u64> }),
{
    if attempt < retries {
        Some(2 * attempt)
    } else {
        None
    }
}

} // verus!
