//! Enrichment of an epoch's on-chain data with the snapshot's inventory and
//! telemetry: the integer side of the aggregation (counts, which telemetry
//! entries count, which baselines apply), from which the latency averages are
//! then taken.

use vstd::prelude::*;

use vstd::string::StringExecFns;

use crate::cli::{
    ArgsError, ArgsOutcome, EnrichArgsView, EnrichPaths, enrich_args_from, opt_text, parse_enrich_args, parse_matches,
};
use crate::snapshot::texts;
use crate::text::{chars_of, decimal_digits, str_eq, text_concat, u64_to_decimal};

verus! {

/// The number of `i` in `0 .. n` with `p(i)`.
pub open spec fn count_upto(n: int, p: spec_fn(int) -> bool) -> nat
    decreases n,
{
    if n <= 0 {
        0
    } else {
        count_upto(n - 1, p) + if p(n - 1) {
            1nat
        } else {
            0nat
        }
    }
}

/// The sum of `f(i)` over `i` in `0 .. n`.
pub open spec fn sum_upto(n: int, f: spec_fn(int) -> nat) -> nat
    decreases n,
{
    if n <= 0 {
        0
    } else {
        sum_upto(n - 1, f) + f(n - 1)
    }
}

/// The first `i` in `0 .. n` with `p(i)`.
pub open spec fn first_upto(n: int, p: spec_fn(int) -> bool) -> Option<int>
    decreases n,
{
    if n <= 0 {
        None
    } else {
        match first_upto(n - 1, p) {
            Some(i) => Some(i),
            None => if p(n - 1) {
                Some(n - 1)
            } else {
                None
            },
        }
    }
}

pub proof fn lemma_first_upto_bound(n: int, p: spec_fn(int) -> bool)
    ensures
        first_upto(n, p) matches Some(i) ==> 0 <= i < n && p(i),
    decreases n,
{
    if n > 0 {
        lemma_first_upto_bound(n - 1, p);
    }
}

/// `a` comes before `b` or equals it in the lexicographic order of code
/// points, the order of `str`'s `<=`.
pub open spec fn lex_le(a: Seq<char>, b: Seq<char>) -> bool
    decreases a.len(),
{
    if a.len() == 0 {
        true
    } else if b.len() == 0 {
        false
    } else if a[0] == b[0] {
        lex_le(a.drop_first(), b.drop_first())
    } else {
        (a[0] as int) < (b[0] as int)
    }
}

/// `a <= b` for text.
pub fn str_le(a: &str, b: &str) -> (r: bool)
    ensures
        r == lex_le(a@, b@),
{
    let x = chars_of(a);
    let y = chars_of(b);
    let mut i: usize = 0;
    proof {
        assert(x@.subrange(0, x@.len() as int) =~= x@);
        assert(y@.subrange(0, y@.len() as int) =~= y@);
    }
    while i < x.len() && i < y.len() && x[i] == y[i]
        invariant
            i <= x@.len(),
            i <= y@.len(),
            lex_le(x@.subrange(i as int, x@.len() as int), y@.subrange(i as int, y@.len() as int))
                == lex_le(x@, y@),
        decreases x@.len() - i,
    {
        proof {
            let xs = x@.subrange(i as int, x@.len() as int);
            let ys = y@.subrange(i as int, y@.len() as int);
            assert(xs.drop_first() =~= x@.subrange(i + 1, x@.len() as int));
            assert(ys.drop_first() =~= y@.subrange(i + 1, y@.len() as int));
        }
        i = i + 1;
    }
    let ghost xs = x@.subrange(i as int, x@.len() as int);
    let ghost ys = y@.subrange(i as int, y@.len() as int);
    if i < x.len() {
        assert(xs[0] == x@[i as int]);
    }
    if i < y.len() {
        assert(ys[0] == y@[i as int]);
    }
    if i == x.len() {
        assert(xs.len() == 0);
        true
    } else if i == y.len() {
        assert(xs.len() > 0 && ys.len() == 0);
        false
    } else {
        assert(xs.len() > 0 && ys.len() > 0);
        x[i] < y[i]
    }
}

/// An unordered pair of exchanges, its smaller member first.
pub open spec fn spec_normalize_pair(a: Seq<char>, b: Seq<char>) -> (Seq<char>, Seq<char>) {
    if lex_le(a, b) {
        (a, b)
    } else {
        (b, a)
    }
}

pub fn normalize_pair(a: &str, b: &str) -> (r: (String, String))
    ensures
        (r.0@, r.1@) == spec_normalize_pair(a@, b@),
{
    if str_le(a, b) {
        (String::from_str(a), String::from_str(b))
    } else {
        (String::from_str(b), String::from_str(a))
    }
}


proof fn lemma_first_upto_stable(m: int, n: int, p: spec_fn(int) -> bool)
    requires
        0 <= m <= n,
        first_upto(m, p) is Some,
    ensures
        first_upto(n, p) == first_upto(m, p),
    decreases n - m,
{
    if n > m {
        lemma_first_upto_stable(m, n - 1, p);
    }
}

/// A contributor of the snapshot's inventory.
pub struct ContributorRecord {
    pub pk: String,
    pub code: String,
    pub status: String,
}

/// A device of the snapshot's inventory.
pub struct DeviceRecord {
    pub pk: String,
    pub contributor_pk: Option<String>,
    pub exchange_pk: Option<String>,
}

/// A link of the snapshot's inventory.
pub struct LinkRecord {
    pub pk: String,
    pub contributor_pk: Option<String>,
    pub link_type: String,
    pub side_a_pk: Option<String>,
    pub side_z_pk: Option<String>,
}

/// One latency series measured over a link: the link it names, and how
/// many numeric samples it holds (none where it holds no sample list).
pub struct LatencySeries {
    pub link_pk: Option<String>,
    pub sample_count: Option<usize>,
}

/// One public-internet latency series between two exchanges.
pub struct InternetSeries {
    pub origin_exchange_pk: Option<String>,
    pub target_exchange_pk: Option<String>,
    pub sample_count: Option<usize>,
}

/// The text held, if any.
pub open spec fn view_opt(o: Option<String>) -> Option<Seq<char>> {
    match o {
        Some(x) => Some(x@),
        None => None,
    }
}

/// `o` holds exactly the text `s`.
pub open spec fn names(o: Option<String>, s: Seq<char>) -> bool {
    view_opt(o) == Some(s)
}

/// The devices `i` that are `device` and name a non-empty exchange.
pub open spec fn exchange_entry(devices: Seq<DeviceRecord>, device: Seq<char>) -> spec_fn(int) -> bool {
    |i: int|
        devices[i].pk@ == device && match devices[i].exchange_pk {
            Some(e) => e@.len() > 0,
            None => false,
        }
}

/// The exchange of a device: that of the first record of the device that
/// names a non-empty one.
pub open spec fn spec_exchange_of(devices: Seq<DeviceRecord>, device: Seq<char>) -> Option<Seq<char>> {
    match first_upto(devices.len() as int, exchange_entry(devices, device)) {
        Some(i) => view_opt(devices[i].exchange_pk),
        None => None,
    }
}

pub fn exchange_of(devices: &Vec<DeviceRecord>, device: &str) -> (r: Option<String>)
    ensures
        view_opt(r) == spec_exchange_of(devices@, device@),
{
    let ghost p = exchange_entry(devices@, device@);
    let mut i: usize = 0;
    while i < devices.len()
        invariant
            i <= devices@.len(),
            p == exchange_entry(devices@, device@),
            first_upto(i as int, p) is None,
        decreases devices@.len() - i,
    {
        let d = &devices[i];
        if str_eq(d.pk.as_str(), device) {
            match &d.exchange_pk {
                Some(e) => {
                    if !e.as_str().is_empty() {
                        proof {
                            assert(p(i as int));
                            assert(first_upto(i + 1, p) == Some(i as int));
                            lemma_first_upto_stable(i + 1, devices@.len() as int, p);
                        }
                        return Some(e.clone());
                    }
                },
                None => {},
            }
        }
        proof {
            assert(!p(i as int));
        }
        i = i + 1;
    }
    None
}

/// The unordered pair of exchanges that a link joins, where both of its
/// sides name a device with an exchange.
pub open spec fn spec_link_pair(devices: Seq<DeviceRecord>, link: LinkRecord) -> Option<(Seq<char>, Seq<char>)> {
    match (link.side_a_pk, link.side_z_pk) {
        (Some(a), Some(z)) => match (spec_exchange_of(devices, a@), spec_exchange_of(devices, z@)) {
            (Some(x), Some(y)) => Some(spec_normalize_pair(x, y)),
            _ => None,
        },
        _ => None,
    }
}

/// The text pair held, if any.
pub open spec fn view_pair(o: Option<(String, String)>) -> Option<(Seq<char>, Seq<char>)> {
    match o {
        Some((a, b)) => Some((a@, b@)),
        None => None,
    }
}

pub fn link_pair(devices: &Vec<DeviceRecord>, link: &LinkRecord) -> (r: Option<(String, String)>)
    ensures
        view_pair(r) == spec_link_pair(devices@, *link),
{
    match (&link.side_a_pk, &link.side_z_pk) {
        (Some(a), Some(z)) => {
            let ex_a = exchange_of(devices, a.as_str());
            let ex_z = exchange_of(devices, z.as_str());
            match (ex_a, ex_z) {
                (Some(x), Some(y)) => Some(normalize_pair(x.as_str(), y.as_str())),
                _ => None,
            }
        },
        _ => None,
    }
}

/// How a link is counted by its type.
#[derive(PartialEq, Eq, Structural, Clone, Copy, Debug)]
pub enum LinkKind {
    Wan,
    Dzx,
    Other,
}

pub open spec fn spec_link_kind(link_type: Seq<char>) -> LinkKind {
    if link_type == "WAN"@ {
        LinkKind::Wan
    } else if link_type == "DZX"@ {
        LinkKind::Dzx
    } else {
        LinkKind::Other
    }
}

pub fn link_kind(link_type: &str) -> (r: LinkKind)
    ensures
        r == spec_link_kind(link_type@),
{
    if str_eq(link_type, "WAN") {
        LinkKind::Wan
    } else if str_eq(link_type, "DZX") {
        LinkKind::Dzx
    } else {
        LinkKind::Other
    }
}

/// The links `i` that are `link` and name their contributor.
pub open spec fn link_entry(links: Seq<LinkRecord>, link: Seq<char>) -> spec_fn(int) -> bool {
    |i: int| links[i].pk@ == link && links[i].contributor_pk is Some
}

/// The link record that a link key resolves to: the first one of that key
/// that names its contributor.
pub open spec fn spec_resolve_link(links: Seq<LinkRecord>, link: Seq<char>) -> Option<int> {
    first_upto(links.len() as int, link_entry(links, link))
}

pub fn resolve_link(links: &Vec<LinkRecord>, link: &str) -> (r: Option<usize>)
    ensures
        match r {
            Some(j) => spec_resolve_link(links@, link@) == Some(j as int),
            None => spec_resolve_link(links@, link@) is None,
        },
        r matches Some(j) ==> j < links@.len(),
{
    let ghost p = link_entry(links@, link@);
    let mut i: usize = 0;
    while i < links.len()
        invariant
            i <= links@.len(),
            p == link_entry(links@, link@),
            first_upto(i as int, p) is None,
        decreases links@.len() - i,
    {
        let l = &links[i];
        if str_eq(l.pk.as_str(), link) && l.contributor_pk.is_some() {
            proof {
                assert(p(i as int));
                assert(first_upto(i + 1, p) == Some(i as int));
                lemma_first_upto_stable(i + 1, links@.len() as int, p);
            }
            return Some(i);
        }
        proof {
            assert(!p(i as int));
        }
        i = i + 1;
    }
    None
}

/// The link record that a latency series counts for: the series names a
/// known link and holds at least one sample.
pub open spec fn spec_series_link(links: Seq<LinkRecord>, series: LatencySeries) -> Option<int> {
    match (series.link_pk, series.sample_count) {
        (Some(l), Some(c)) => if c > 0 {
            spec_resolve_link(links, l@)
        } else {
            None
        },
        _ => None,
    }
}

pub fn series_link(links: &Vec<LinkRecord>, series: &LatencySeries) -> (r: Option<usize>)
    ensures
        match r {
            Some(j) => spec_series_link(links@, *series) == Some(j as int),
            None => spec_series_link(links@, *series) is None,
        },
        r matches Some(j) ==> j < links@.len(),
{
    match (&series.link_pk, series.sample_count) {
        (Some(l), Some(c)) => {
            if c > 0 {
                resolve_link(links, l.as_str())
            } else {
                None
            }
        },
        _ => None,
    }
}

/// The exchange pair that an internet series measures, where it names both
/// exchanges and holds at least one sample.
pub open spec fn spec_internet_pair(series: InternetSeries) -> Option<(Seq<char>, Seq<char>)> {
    match (series.origin_exchange_pk, series.target_exchange_pk, series.sample_count) {
        (Some(o), Some(t), Some(c)) => if c > 0 {
            Some(spec_normalize_pair(o@, t@))
        } else {
            None
        },
        _ => None,
    }
}

pub fn internet_pair(series: &InternetSeries) -> (r: Option<(String, String)>)
    ensures
        view_pair(r) == spec_internet_pair(*series),
{
    match (&series.origin_exchange_pk, &series.target_exchange_pk, series.sample_count) {
        (Some(o), Some(t), Some(c)) => {
            if c > 0 {
                Some(normalize_pair(o.as_str(), t.as_str()))
            } else {
                None
            }
        },
        _ => None,
    }
}


proof fn lemma_count_upto_bound(n: int, p: spec_fn(int) -> bool)
    requires
        n >= 0,
    ensures
        count_upto(n, p) <= n,
    decreases n,
{
    if n > 0 {
        lemma_count_upto_bound(n - 1, p);
    }
}

proof fn lemma_sum_upto_mono(m: int, n: int, f: spec_fn(int) -> nat)
    requires
        m <= n,
    ensures
        sum_upto(m, f) <= sum_upto(n, f),
    decreases n - m,
{
    if n > m {
        lemma_sum_upto_mono(m, n - 1, f);
    }
}

proof fn lemma_sum_upto_le(n: int, f: spec_fn(int) -> nat, g: spec_fn(int) -> nat)
    requires
        forall|i: int| 0 <= i < n ==> #[trigger] f(i) <= g(i),
    ensures
        sum_upto(n, f) <= sum_upto(n, g),
    decreases n,
{
    if n > 0 {
        lemma_sum_upto_le(n - 1, f, g);
    }
}

proof fn lemma_sum_upto_zero(n: int, f: spec_fn(int) -> nat)
    requires
        forall|i: int| 0 <= i < n ==> #[trigger] f(i) == 0,
    ensures
        sum_upto(n, f) == 0,
    decreases n,
{
    if n > 0 {
        lemma_sum_upto_zero(n - 1, f);
    }
}

/// The number of samples a series holds.
pub open spec fn samples_of(count: Option<usize>) -> nat {
    match count {
        Some(c) => c as nat,
        None => 0,
    }
}

/// The samples of internet series `i` where it measures `pair`.
pub open spec fn pair_weight(internet: Seq<InternetSeries>, pair: (Seq<char>, Seq<char>)) -> spec_fn(int) -> nat {
    |i: int|
        if spec_internet_pair(internet[i]) == Some(pair) {
            samples_of(internet[i].sample_count)
        } else {
            0
        }
}

/// The number of internet samples measured between the exchanges of `pair`.
pub open spec fn pair_samples(internet: Seq<InternetSeries>, pair: (Seq<char>, Seq<char>)) -> nat {
    sum_upto(internet.len() as int, pair_weight(internet, pair))
}

/// The internet samples of one exchange pair.
pub struct BaselineGroup {
    pub pair: (String, String),
    pub samples: usize,
}

pub open spec fn pair_view(p: (String, String)) -> (Seq<char>, Seq<char>) {
    (p.0@, p.1@)
}

/// The groups hold each measured pair once, with all of its samples, and
/// `slots` gives each series the group of its pair.
pub open spec fn groups_internet(
    internet: Seq<InternetSeries>,
    groups: Seq<BaselineGroup>,
    slots: Seq<Option<usize>>,
) -> bool {
    &&& slots.len() == internet.len()
    &&& forall|g: int, h: int|
        0 <= g < h < groups.len() ==> #[trigger] pair_view(groups[g].pair) != #[trigger] pair_view(groups[h].pair)
    &&& forall|g: int|
        0 <= g < groups.len() ==> (#[trigger] groups[g]).samples == pair_samples(internet, pair_view(groups[g].pair))
            && groups[g].samples > 0
    &&& forall|i: int|
        0 <= i < internet.len() ==> match spec_internet_pair(#[trigger] internet[i]) {
            Some(p) => slots[i] matches Some(g) && g < groups.len() && pair_view(groups[g as int].pair) == p,
            None => slots[i] is None,
        }
}

/// The groups of the first `n` series.
pub open spec fn groups_prefix(
    internet: Seq<InternetSeries>,
    groups: Seq<BaselineGroup>,
    slots: Seq<Option<usize>>,
    n: int,
) -> bool {
    &&& slots.len() == n
    &&& forall|g: int, h: int|
        0 <= g < h < groups.len() ==> #[trigger] pair_view(groups[g].pair) != #[trigger] pair_view(groups[h].pair)
    &&& forall|g: int|
        0 <= g < groups.len() ==> (#[trigger] groups[g]).samples == sum_upto(n, pair_weight(internet, pair_view(groups[g].pair)))
            && groups[g].samples > 0
    &&& forall|p: (Seq<char>, Seq<char>)|
        (forall|g: int| 0 <= g < groups.len() ==> pair_view(#[trigger] groups[g].pair) != p)
            ==> #[trigger] sum_upto(n, pair_weight(internet, p)) == 0
    &&& forall|k: int|
        0 <= k < n ==> match spec_internet_pair(#[trigger] internet[k]) {
            Some(p) => slots[k] matches Some(g) && g < groups.len() && pair_view(groups[g as int].pair) == p,
            None => slots[k] is None,
        }
}

proof fn lemma_groups_skip(
    internet: Seq<InternetSeries>,
    groups: Seq<BaselineGroup>,
    slots: Seq<Option<usize>>,
    n: int,
)
    requires
        0 <= n < internet.len(),
        groups_prefix(internet, groups, slots, n),
        spec_internet_pair(internet[n]) is None,
    ensures
        groups_prefix(internet, groups, slots.push(None), n + 1),
{
    assert forall|p: (Seq<char>, Seq<char>)| #[trigger] pair_weight(internet, p)(n) == 0 by {}
    let s2 = slots.push(None);
    assert forall|g: int| 0 <= g < groups.len() implies (#[trigger] groups[g]).samples == sum_upto(
        n + 1,
        pair_weight(internet, pair_view(groups[g].pair)),
    ) && groups[g].samples > 0 by {
        assert(pair_weight(internet, pair_view(groups[g].pair))(n) == 0);
    }
    assert forall|p: (Seq<char>, Seq<char>)|
        (forall|g: int| 0 <= g < groups.len() ==> pair_view(#[trigger] groups[g].pair) != p)
            implies #[trigger] sum_upto(n + 1, pair_weight(internet, p)) == 0 by {
        assert(sum_upto(n, pair_weight(internet, p)) == 0);
        assert(pair_weight(internet, p)(n) == 0);
    }
    assert forall|k: int| 0 <= k < n + 1 implies match spec_internet_pair(#[trigger] internet[k]) {
        Some(p) => s2[k] matches Some(g) && g < groups.len() && pair_view(groups[g as int].pair) == p,
        None => s2[k] is None,
    } by {
        if k < n {
            assert(s2[k] == slots[k]);
        }
    }
}

proof fn lemma_groups_add(
    internet: Seq<InternetSeries>,
    groups: Seq<BaselineGroup>,
    slots: Seq<Option<usize>>,
    n: int,
    g: int,
    c: usize,
)
    requires
        0 <= n < internet.len(),
        groups_prefix(internet, groups, slots, n),
        0 <= g < groups.len() <= usize::MAX,
        spec_internet_pair(internet[n]) == Some(pair_view(groups[g].pair)),
        samples_of(internet[n].sample_count) == c,
        groups[g].samples + c <= usize::MAX,
    ensures
        groups_prefix(
            internet,
            groups.update(g, BaselineGroup { pair: groups[g].pair, samples: (groups[g].samples + c) as usize }),
            slots.push(Some(g as usize)),
            n + 1,
        ),
{
    let pv = pair_view(groups[g].pair);
    let g2 = groups.update(g, BaselineGroup { pair: groups[g].pair, samples: (groups[g].samples + c) as usize });
    let s2 = slots.push(Some(g as usize));
    assert forall|h: int| 0 <= h < g2.len() implies #[trigger] pair_view(g2[h].pair) == pair_view(groups[h].pair) by {}
    assert forall|h: int, h2: int|
        0 <= h < h2 < g2.len() implies #[trigger] pair_view(g2[h].pair) != #[trigger] pair_view(g2[h2].pair) by {
        assert(pair_view(groups[h].pair) != pair_view(groups[h2].pair));
    }
    assert forall|h: int| 0 <= h < g2.len() implies (#[trigger] g2[h]).samples == sum_upto(
        n + 1,
        pair_weight(internet, pair_view(g2[h].pair)),
    ) && g2[h].samples > 0 by {
        if h != g {
            assert(pair_view(groups[h].pair) != pv);
            assert(pair_weight(internet, pair_view(groups[h].pair))(n) == 0);
        }
    }
    assert forall|p: (Seq<char>, Seq<char>)|
        (forall|h: int| 0 <= h < g2.len() ==> pair_view(#[trigger] g2[h].pair) != p)
            implies #[trigger] sum_upto(n + 1, pair_weight(internet, p)) == 0 by {
        assert forall|h: int| 0 <= h < groups.len() implies pair_view(#[trigger] groups[h].pair) != p by {
            assert(pair_view(g2[h].pair) != p);
        }
        assert(sum_upto(n, pair_weight(internet, p)) == 0);
        assert(pair_view(g2[g].pair) != p);
        assert(pair_weight(internet, p)(n) == 0);
    }
    assert forall|k: int| 0 <= k < n + 1 implies match spec_internet_pair(#[trigger] internet[k]) {
        Some(p) => s2[k] matches Some(gg) && gg < g2.len() && pair_view(g2[gg as int].pair) == p,
        None => s2[k] is None,
    } by {
        if k == n {
            assert(s2[k] == Some(g as usize));
        } else {
            assert(s2[k] == slots[k]);
            match spec_internet_pair(internet[k]) {
                Some(p) => {
                    let gg = slots[k]->0;
                    assert(pair_view(g2[gg as int].pair) == pair_view(groups[gg as int].pair));
                },
                None => {},
            }
        }
    }
}

proof fn lemma_groups_new(
    internet: Seq<InternetSeries>,
    groups: Seq<BaselineGroup>,
    slots: Seq<Option<usize>>,
    n: int,
    group: BaselineGroup,
)
    requires
        0 <= n < internet.len(),
        groups_prefix(internet, groups, slots, n),
        groups.len() <= usize::MAX,
        spec_internet_pair(internet[n]) == Some(pair_view(group.pair)),
        forall|h: int| 0 <= h < groups.len() ==> pair_view(#[trigger] groups[h].pair) != pair_view(group.pair),
        samples_of(internet[n].sample_count) == group.samples,
        group.samples > 0,
    ensures
        groups_prefix(internet, groups.push(group), slots.push(Some(groups.len() as usize)), n + 1),
{
    let pv = pair_view(group.pair);
    let g = groups.len() as int;
    let g2 = groups.push(group);
    let s2 = slots.push(Some(groups.len() as usize));
    assert(sum_upto(n, pair_weight(internet, pv)) == 0);
    assert forall|h: int, h2: int|
        0 <= h < h2 < g2.len() implies #[trigger] pair_view(g2[h].pair) != #[trigger] pair_view(g2[h2].pair) by {
        if h2 == g {
            assert(pair_view(groups[h].pair) != pv);
        } else {
            assert(pair_view(groups[h].pair) != pair_view(groups[h2].pair));
        }
    }
    assert forall|h: int| 0 <= h < g2.len() implies (#[trigger] g2[h]).samples == sum_upto(
        n + 1,
        pair_weight(internet, pair_view(g2[h].pair)),
    ) && g2[h].samples > 0 by {
        if h != g {
            assert(g2[h] == groups[h]);
            assert(pair_view(groups[h].pair) != pv);
            assert(pair_weight(internet, pair_view(groups[h].pair))(n) == 0);
        }
    }
    assert forall|p: (Seq<char>, Seq<char>)|
        (forall|h: int| 0 <= h < g2.len() ==> pair_view(#[trigger] g2[h].pair) != p)
            implies #[trigger] sum_upto(n + 1, pair_weight(internet, p)) == 0 by {
        assert forall|h: int| 0 <= h < groups.len() implies pair_view(#[trigger] groups[h].pair) != p by {
            assert(g2[h] == groups[h]);
            assert(pair_view(g2[h].pair) != p);
        }
        assert(sum_upto(n, pair_weight(internet, p)) == 0);
        assert(pair_view(g2[g].pair) != p);
        assert(pair_weight(internet, p)(n) == 0);
    }
    assert forall|k: int| 0 <= k < n + 1 implies match spec_internet_pair(#[trigger] internet[k]) {
        Some(p) => s2[k] matches Some(gg) && gg < g2.len() && pair_view(g2[gg as int].pair) == p,
        None => s2[k] is None,
    } by {
        if k == n {
            assert(s2[k] == Some(g as usize));
        } else {
            assert(s2[k] == slots[k]);
            match spec_internet_pair(internet[k]) {
                Some(p) => {
                    let gg = slots[k]->0;
                    assert(g2[gg as int] == groups[gg as int]);
                },
                None => {},
            }
        }
    }
}

/// The baseline groups of the internet series: one per exchange pair that
/// some series measures, with all of its samples (this code lists them in the
/// order in which the pairs first come; the contract leaves the order open).
pub fn group_internet(internet: &Vec<InternetSeries>) -> (r: (Vec<BaselineGroup>, Vec<Option<usize>>))
    requires
        forall|p: (Seq<char>, Seq<char>)| #[trigger] pair_samples(internet@, p) <= usize::MAX,
    ensures
        groups_internet(internet@, r.0@, r.1@),
{
    let mut groups: Vec<BaselineGroup> = Vec::new();
    let mut slots: Vec<Option<usize>> = Vec::new();
    let mut i: usize = 0;
    proof {
        assert forall|p: (Seq<char>, Seq<char>)|
            (forall|g: int| 0 <= g < groups@.len() ==> pair_view(#[trigger] groups@[g].pair) != p)
                implies #[trigger] sum_upto(0, pair_weight(internet@, p)) == 0 by {}
    }
    while i < internet.len()
        invariant
            i <= internet@.len(),
            forall|p: (Seq<char>, Seq<char>)| #[trigger] pair_samples(internet@, p) <= usize::MAX,
            groups_prefix(internet@, groups@, slots@, i as int),
        decreases internet@.len() - i,
    {
        let series = &internet[i];
        match internet_pair(series) {
            Some(pair) => {
                let ghost pv = pair_view(pair);
                let c: usize = match series.sample_count {
                    Some(c) => c,
                    None => 0,
                };
                let mut g: usize = 0;
                while g < groups.len() && !(groups[g].pair.0 == pair.0 && groups[g].pair.1 == pair.1)
                    invariant
                        g <= groups@.len(),
                        pv == pair_view(pair),
                        forall|h: int| 0 <= h < g ==> pair_view(#[trigger] groups@[h].pair) != pv,
                    decreases groups@.len() - g,
                {
                    g = g + 1;
                }
                if g < groups.len() {
                    proof {
                        assert(pair_view(groups@[g as int].pair) == pv);
                        assert(pair_weight(internet@, pv)(i as int) == c);
                        lemma_sum_upto_mono(i + 1, internet@.len() as int, pair_weight(internet@, pv));
                        assert(pair_samples(internet@, pv) <= usize::MAX);
                        lemma_groups_add(internet@, groups@, slots@, i as int, g as int, c);
                    }
                    let total = groups[g].samples + c;
                    let pair_copy = (groups[g].pair.0.clone(), groups[g].pair.1.clone());
                    groups.set(g, BaselineGroup { pair: pair_copy, samples: total });
                    slots.push(Some(g));
                } else {
                    let group = BaselineGroup { pair, samples: c };
                    proof {
                        lemma_groups_new(internet@, groups@, slots@, i as int, group);
                    }
                    groups.push(group);
                    slots.push(Some(g));
                }
            },
            None => {
                proof {
                    lemma_groups_skip(internet@, groups@, slots@, i as int);
                }
                slots.push(None);
            },
        }
        i = i + 1;
    }
    (groups, slots)
}


/// What an epoch's snapshot holds that the enrichment reads.
pub struct EpochInventory {
    pub contributors: Vec<ContributorRecord>,
    pub devices: Vec<DeviceRecord>,
    pub links: Vec<LinkRecord>,
    pub telemetry: Vec<LatencySeries>,
    pub internet: Vec<InternetSeries>,
}

/// The link record that telemetry series `i` counts for.
pub open spec fn entry_link(inv: EpochInventory, i: int) -> Option<int> {
    spec_series_link(inv.links@, inv.telemetry@[i])
}

proof fn lemma_entry_link_bound(inv: EpochInventory, i: int)
    ensures
        entry_link(inv, i) matches Some(j) ==> 0 <= j < inv.links@.len() && inv.links@[j].contributor_pk is Some,
{
    let series = inv.telemetry@[i];
    match (series.link_pk, series.sample_count) {
        (Some(l), Some(c)) => {
            lemma_first_upto_bound(inv.links@.len() as int, link_entry(inv.links@, l@));
        },
        _ => {},
    }
}

/// Link record `j` joins an exchange pair for which internet samples exist.
pub open spec fn baseline_applies(inv: EpochInventory, j: int) -> bool {
    match spec_link_pair(inv.devices@, inv.links@[j]) {
        Some(p) => pair_samples(inv.internet@, p) > 0,
        None => false,
    }
}

/// Telemetry series `i` counts, and is the first counted series of its link.
pub open spec fn first_for_link(inv: EpochInventory, i: int) -> bool {
    &&& entry_link(inv, i) is Some
    &&& forall|k: int| 0 <= k < i ==> #[trigger] entry_link(inv, k) != entry_link(inv, i)
}

/// Where a counted telemetry series goes: its link record, whether it is
/// the first series of that link, and the baseline group that applies to it.
#[derive(Clone, Copy, Debug, PartialEq, Eq, Structural)]
pub struct TelemetryRoute {
    pub link: usize,
    pub first_for_link: bool,
    pub baseline: Option<usize>,
}

/// `route` is where telemetry series `i` goes.
pub open spec fn routes_entry(inv: EpochInventory, groups: Seq<BaselineGroup>, i: int, route: Option<TelemetryRoute>) -> bool {
    match entry_link(inv, i) {
        Some(j) => match route {
            Some(r) => {
                &&& r.link == j
                &&& r.first_for_link == first_for_link(inv, i)
                &&& (r.baseline is Some <==> baseline_applies(inv, j))
                &&& (r.baseline matches Some(g) ==> g < groups.len()
                    && spec_link_pair(inv.devices@, inv.links@[j]) == Some(pair_view(groups[g as int].pair)))
            },
            None => false,
        },
        None => route is None,
    }
}

/// The group of an exchange pair.
pub fn find_group(groups: &Vec<BaselineGroup>, pair: &(String, String)) -> (r: Option<usize>)
    ensures
        match r {
            Some(g) => g < groups@.len() && pair_view(groups@[g as int].pair) == pair_view(*pair),
            None => forall|g: int| 0 <= g < groups@.len() ==> pair_view(#[trigger] groups@[g].pair) != pair_view(*pair),
        },
{
    let mut g: usize = 0;
    while g < groups.len()
        invariant
            g <= groups@.len(),
            forall|h: int| 0 <= h < g ==> pair_view(#[trigger] groups@[h].pair) != pair_view(*pair),
        decreases groups@.len() - g,
    {
        if groups[g].pair.0 == pair.0 && groups[g].pair.1 == pair.1 {
            return Some(g);
        }
        g = g + 1;
    }
    None
}

proof fn lemma_no_group_no_samples(
    internet: Seq<InternetSeries>,
    groups: Seq<BaselineGroup>,
    slots: Seq<Option<usize>>,
    p: (Seq<char>, Seq<char>),
)
    requires
        groups_internet(internet, groups, slots),
        forall|g: int| 0 <= g < groups.len() ==> pair_view(#[trigger] groups[g].pair) != p,
    ensures
        pair_samples(internet, p) == 0,
{
    assert forall|i: int| 0 <= i < internet.len() implies #[trigger] pair_weight(internet, p)(i) == 0 by {
        if spec_internet_pair(internet[i]) == Some(p) {
            let g = slots[i]->0;
            assert(pair_view(groups[g as int].pair) == p);
        }
    }
    lemma_sum_upto_zero(internet.len() as int, pair_weight(internet, p));
}

/// Where each telemetry series goes.
pub fn route_telemetry(
    inv: &EpochInventory,
    groups: &Vec<BaselineGroup>,
    slots: &Vec<Option<usize>>,
) -> (r: Vec<Option<TelemetryRoute>>)
    requires
        groups_internet(inv.internet@, groups@, slots@),
    ensures
        r@.len() == inv.telemetry@.len(),
        forall|i: int| 0 <= i < r@.len() ==> routes_entry(*inv, groups@, i, #[trigger] r@[i]),
{
    let mut seen: Vec<bool> = Vec::new();
    let mut j: usize = 0;
    while j < inv.links.len()
        invariant
            j <= inv.links@.len(),
            seen@.len() == j,
            forall|q: int| 0 <= q < j ==> !#[trigger] seen@[q],
        decreases inv.links@.len() - j,
    {
        seen.push(false);
        j = j + 1;
    }
    let mut routes: Vec<Option<TelemetryRoute>> = Vec::new();
    let mut i: usize = 0;
    while i < inv.telemetry.len()
        invariant
            i <= inv.telemetry@.len(),
            groups_internet(inv.internet@, groups@, slots@),
            routes@.len() == i,
            seen@.len() == inv.links@.len(),
            forall|q: int|
                0 <= q < seen@.len() ==> (#[trigger] seen@[q] <==> exists|k: int| 0 <= k < i && #[trigger] entry_link(*inv, k) == Some(q)),
            forall|k: int| 0 <= k < i ==> routes_entry(*inv, groups@, k, #[trigger] routes@[k]),
        decreases inv.telemetry@.len() - i,
    {
        let ghost old_seen = seen@;
        let ghost old_routes = routes@;
        match series_link(&inv.links, &inv.telemetry[i]) {
            Some(link) => {
                let first = !seen[link];
                proof {
                    if first {
                        assert forall|k: int| 0 <= k < i implies #[trigger] entry_link(*inv, k) != entry_link(*inv, i as int) by {
                            if entry_link(*inv, k) == Some(link as int) {
                                assert(old_seen[link as int]);
                            }
                        }
                    } else {
                        let k = choose|k: int| 0 <= k < i && #[trigger] entry_link(*inv, k) == Some(link as int);
                        assert(entry_link(*inv, k) == entry_link(*inv, i as int));
                    }
                }
                let baseline = match link_pair(&inv.devices, &inv.links[link]) {
                    Some(pair) => match find_group(groups, &pair) {
                        Some(g) => {
                            proof {
                                assert(groups@[g as int].samples > 0);
                            }
                            Some(g)
                        },
                        None => {
                            proof {
                                lemma_no_group_no_samples(inv.internet@, groups@, slots@, pair_view(pair));
                            }
                            None
                        },
                    },
                    None => None,
                };
                seen.set(link, true);
                routes.push(Some(TelemetryRoute { link, first_for_link: first, baseline }));
                proof {
                    assert forall|q: int|
                        0 <= q < seen@.len() implies (#[trigger] seen@[q] <==> exists|k: int| 0 <= k < i + 1 && #[trigger] entry_link(*inv, k) == Some(q)) by {
                        if q == link {
                            assert(entry_link(*inv, i as int) == Some(q));
                        } else {
                            assert(seen@[q] == old_seen[q]);
                            if seen@[q] {
                                let k = choose|k: int| 0 <= k < i && #[trigger] entry_link(*inv, k) == Some(q);
                                assert(0 <= k < i + 1 && entry_link(*inv, k) == Some(q));
                            }
                        }
                    }
                }
            },
            None => {
                routes.push(None);
                proof {
                    assert forall|q: int|
                        0 <= q < seen@.len() implies (#[trigger] seen@[q] <==> exists|k: int| 0 <= k < i + 1 && #[trigger] entry_link(*inv, k) == Some(q)) by {
                        if seen@[q] {
                            let k = choose|k: int| 0 <= k < i && #[trigger] entry_link(*inv, k) == Some(q);
                            assert(0 <= k < i + 1 && entry_link(*inv, k) == Some(q));
                        }
                    }
                }
            },
        }
        proof {
            assert forall|k: int| 0 <= k < i + 1 implies routes_entry(*inv, groups@, k, #[trigger] routes@[k]) by {
                if k < i {
                    assert(routes@[k] == old_routes[k]);
                }
            }
        }
        i = i + 1;
    }
    routes
}


/// Device `i` belongs to contributor `pk`.
pub open spec fn device_of(inv: EpochInventory, pk: Seq<char>) -> spec_fn(int) -> bool {
    |i: int| names(inv.devices@[i].contributor_pk, pk)
}

/// Link `i` belongs to contributor `pk`.
pub open spec fn link_of(inv: EpochInventory, pk: Seq<char>) -> spec_fn(int) -> bool {
    |i: int| names(inv.links@[i].contributor_pk, pk)
}

/// Link `i` belongs to contributor `pk` and is of kind `kind`.
pub open spec fn link_of_kind(inv: EpochInventory, pk: Seq<char>, kind: LinkKind) -> spec_fn(int) -> bool {
    |i: int| names(inv.links@[i].contributor_pk, pk) && spec_link_kind(inv.links@[i].link_type@) == kind
}

/// Telemetry series `i` counts for a link of contributor `pk`.
pub open spec fn entry_of(inv: EpochInventory, pk: Seq<char>) -> spec_fn(int) -> bool {
    |i: int|
        match entry_link(inv, i) {
            Some(j) => names(inv.links@[j].contributor_pk, pk),
            None => false,
        }
}

/// Telemetry series `i` is the first counted series of a link of `pk`.
pub open spec fn first_entry_of(inv: EpochInventory, pk: Seq<char>) -> spec_fn(int) -> bool {
    |i: int| entry_of(inv, pk)(i) && first_for_link(inv, i)
}

/// The samples of telemetry series `i` where it counts for `pk`.
pub open spec fn entry_samples(inv: EpochInventory, pk: Seq<char>) -> spec_fn(int) -> nat {
    |i: int|
        if entry_of(inv, pk)(i) {
            samples_of(inv.telemetry@[i].sample_count)
        } else {
            0
        }
}

/// The samples of telemetry series `i` where it counts for `pk` and a
/// baseline applies to its link.
pub open spec fn baseline_entry_samples(inv: EpochInventory, pk: Seq<char>) -> spec_fn(int) -> nat {
    |i: int|
        if entry_of(inv, pk)(i) && baseline_applies(inv, entry_link(inv, i)->0) {
            samples_of(inv.telemetry@[i].sample_count)
        } else {
            0
        }
}

/// The samples of telemetry series `i` where it counts.
pub open spec fn counted_samples(inv: EpochInventory) -> spec_fn(int) -> nat {
    |i: int|
        if entry_link(inv, i) is Some {
            samples_of(inv.telemetry@[i].sample_count)
        } else {
            0
        }
}

/// The counted telemetry samples fit the machine's counters.
pub open spec fn sample_totals_fit(inv: EpochInventory) -> bool {
    &&& sum_upto(inv.telemetry@.len() as int, counted_samples(inv)) <= usize::MAX
    &&& forall|p: (Seq<char>, Seq<char>)| #[trigger] pair_samples(inv.internet@, p) <= usize::MAX
}

fn text_names(o: &Option<String>, s: &str) -> (r: bool)
    ensures
        r == names(*o, s@),
{
    match o {
        Some(x) => str_eq(x.as_str(), s),
        None => false,
    }
}

/// The number of devices of contributor `pk`.
pub fn count_devices(inv: &EpochInventory, pk: &str) -> (r: usize)
    ensures
        r == count_upto(inv.devices@.len() as int, device_of(*inv, pk@)),
{
    let mut n: usize = 0;
    let mut i: usize = 0;
    while i < inv.devices.len()
        invariant
            i <= inv.devices@.len(),
            n == count_upto(i as int, device_of(*inv, pk@)),
        decreases inv.devices@.len() - i,
    {
        proof {
            lemma_count_upto_bound(i as int, device_of(*inv, pk@));
        }
        if text_names(&inv.devices[i].contributor_pk, pk) {
            n = n + 1;
        }
        i = i + 1;
    }
    n
}

/// The links of contributor `pk`: in all, of WAN type, of DZX type, and of
/// any other type.
pub fn count_links(inv: &EpochInventory, pk: &str) -> (r: (usize, usize, usize, usize))
    ensures
        r.0 == count_upto(inv.links@.len() as int, link_of(*inv, pk@)),
        r.1 == count_upto(inv.links@.len() as int, link_of_kind(*inv, pk@, LinkKind::Wan)),
        r.2 == count_upto(inv.links@.len() as int, link_of_kind(*inv, pk@, LinkKind::Dzx)),
        r.3 == count_upto(inv.links@.len() as int, link_of_kind(*inv, pk@, LinkKind::Other)),
{
    let mut total: usize = 0;
    let mut wan: usize = 0;
    let mut dzx: usize = 0;
    let mut other: usize = 0;
    let mut i: usize = 0;
    while i < inv.links.len()
        invariant
            i <= inv.links@.len(),
            total == count_upto(i as int, link_of(*inv, pk@)),
            wan == count_upto(i as int, link_of_kind(*inv, pk@, LinkKind::Wan)),
            dzx == count_upto(i as int, link_of_kind(*inv, pk@, LinkKind::Dzx)),
            other == count_upto(i as int, link_of_kind(*inv, pk@, LinkKind::Other)),
        decreases inv.links@.len() - i,
    {
        proof {
            lemma_count_upto_bound(i as int, link_of(*inv, pk@));
            lemma_count_upto_bound(i as int, link_of_kind(*inv, pk@, LinkKind::Wan));
            lemma_count_upto_bound(i as int, link_of_kind(*inv, pk@, LinkKind::Dzx));
            lemma_count_upto_bound(i as int, link_of_kind(*inv, pk@, LinkKind::Other));
        }
        let link = &inv.links[i];
        if text_names(&link.contributor_pk, pk) {
            total = total + 1;
            match link_kind(link.link_type.as_str()) {
                LinkKind::Wan => {
                    wan = wan + 1;
                },
                LinkKind::Dzx => {
                    dzx = dzx + 1;
                },
                LinkKind::Other => {
                    other = other + 1;
                },
            }
        }
        i = i + 1;
    }
    (total, wan, dzx, other)
}

/// The telemetry of contributor `pk`: its links with telemetry, its counted
/// series, their samples, and the samples that a baseline applies to.
pub fn count_telemetry(
    inv: &EpochInventory,
    groups: &Vec<BaselineGroup>,
    routes: &Vec<Option<TelemetryRoute>>,
    pk: &str,
) -> (r: (usize, usize, usize, usize))
    requires
        sample_totals_fit(*inv),
        routes@.len() == inv.telemetry@.len(),
        forall|i: int| 0 <= i < routes@.len() ==> routes_entry(*inv, groups@, i, #[trigger] routes@[i]),
    ensures
        r.0 == count_upto(inv.telemetry@.len() as int, first_entry_of(*inv, pk@)),
        r.1 == count_upto(inv.telemetry@.len() as int, entry_of(*inv, pk@)),
        r.2 == sum_upto(inv.telemetry@.len() as int, entry_samples(*inv, pk@)),
        r.3 == sum_upto(inv.telemetry@.len() as int, baseline_entry_samples(*inv, pk@)),
{
    let ghost n = inv.telemetry@.len() as int;
    proof {
        assert forall|i: int| 0 <= i < n implies #[trigger] entry_samples(*inv, pk@)(i) <= counted_samples(*inv)(i) by {}
        assert forall|i: int| 0 <= i < n implies #[trigger] baseline_entry_samples(*inv, pk@)(i) <= entry_samples(*inv, pk@)(i) by {}
        lemma_sum_upto_le(n, entry_samples(*inv, pk@), counted_samples(*inv));
        lemma_sum_upto_le(n, baseline_entry_samples(*inv, pk@), entry_samples(*inv, pk@));
    }
    let mut links: usize = 0;
    let mut entries: usize = 0;
    let mut samples: usize = 0;
    let mut baseline: usize = 0;
    let mut i: usize = 0;
    while i < routes.len()
        invariant
            n == inv.telemetry@.len(),
            i <= n,
            routes@.len() == n,
            forall|k: int| 0 <= k < routes@.len() ==> routes_entry(*inv, groups@, k, #[trigger] routes@[k]),
            sum_upto(n, entry_samples(*inv, pk@)) <= usize::MAX,
            sum_upto(n, baseline_entry_samples(*inv, pk@)) <= usize::MAX,
            links == count_upto(i as int, first_entry_of(*inv, pk@)),
            entries == count_upto(i as int, entry_of(*inv, pk@)),
            samples == sum_upto(i as int, entry_samples(*inv, pk@)),
            baseline == sum_upto(i as int, baseline_entry_samples(*inv, pk@)),
        decreases n - i,
    {
        proof {
            lemma_count_upto_bound(i as int, first_entry_of(*inv, pk@));
            lemma_count_upto_bound(i as int, entry_of(*inv, pk@));
            lemma_sum_upto_mono(i + 1, n, entry_samples(*inv, pk@));
            lemma_sum_upto_mono(i + 1, n, baseline_entry_samples(*inv, pk@));
            assert(routes_entry(*inv, groups@, i as int, routes@[i as int]));
            lemma_entry_link_bound(*inv, i as int);
        }
        match routes[i] {
            Some(route) => {
                if text_names(&inv.links[route.link].contributor_pk, pk) {
                    let c: usize = match inv.telemetry[i].sample_count {
                        Some(c) => c,
                        None => 0,
                    };
                    entries = entries + 1;
                    samples = samples + c;
                    if route.first_for_link {
                        links = links + 1;
                    }
                    if route.baseline.is_some() {
                        baseline = baseline + c;
                    }
                }
            },
            None => {},
        }
        i = i + 1;
    }
    (links, entries, samples, baseline)
}


proof fn lemma_lex_refl(a: Seq<char>)
    ensures
        lex_le(a, a),
    decreases a.len(),
{
    if a.len() > 0 {
        lemma_lex_refl(a.drop_first());
    }
}

proof fn lemma_lex_total(a: Seq<char>, b: Seq<char>)
    ensures
        lex_le(a, b) || lex_le(b, a),
    decreases a.len(),
{
    if a.len() > 0 && b.len() > 0 {
        if a[0] == b[0] {
            lemma_lex_total(a.drop_first(), b.drop_first());
        } else {
            assert((a[0] as int) != (b[0] as int));
        }
    }
}

proof fn lemma_lex_trans(a: Seq<char>, b: Seq<char>, c: Seq<char>)
    requires
        lex_le(a, b),
        lex_le(b, c),
    ensures
        lex_le(a, c),
    decreases a.len(),
{
    if a.len() > 0 && b.len() > 0 && c.len() > 0 && a[0] == b[0] && b[0] == c[0] {
        lemma_lex_trans(a.drop_first(), b.drop_first(), c.drop_first());
    }
}

/// The integer aggregates of one contributor.
pub struct ContributorCounts {
    pub contributor_pk: String,
    pub code: String,
    pub status: String,
    pub devices: usize,
    pub links_total: usize,
    pub wan_links: usize,
    pub dzx_links: usize,
    pub other_links: usize,
    pub telemetry_links: usize,
    pub telemetry_entries: usize,
    pub telemetry_samples: usize,
    pub baseline_samples: usize,
}

/// The aggregates of contributor `c`.
pub open spec fn counts_of(inv: EpochInventory, c: ContributorRecord) -> ContributorCounts {
    let pk = c.pk@;
    let links = inv.links@.len() as int;
    let series = inv.telemetry@.len() as int;
    ContributorCounts {
        contributor_pk: c.pk,
        code: c.code,
        status: c.status,
        devices: count_upto(inv.devices@.len() as int, device_of(inv, pk)) as usize,
        links_total: count_upto(links, link_of(inv, pk)) as usize,
        wan_links: count_upto(links, link_of_kind(inv, pk, LinkKind::Wan)) as usize,
        dzx_links: count_upto(links, link_of_kind(inv, pk, LinkKind::Dzx)) as usize,
        other_links: count_upto(links, link_of_kind(inv, pk, LinkKind::Other)) as usize,
        telemetry_links: count_upto(series, first_entry_of(inv, pk)) as usize,
        telemetry_entries: count_upto(series, entry_of(inv, pk)) as usize,
        telemetry_samples: sum_upto(series, entry_samples(inv, pk)) as usize,
        baseline_samples: sum_upto(series, baseline_entry_samples(inv, pk)) as usize,
    }
}

/// The aggregates of one contributor.
pub fn contributor_counts(
    inv: &EpochInventory,
    groups: &Vec<BaselineGroup>,
    routes: &Vec<Option<TelemetryRoute>>,
    c: &ContributorRecord,
) -> (r: ContributorCounts)
    requires
        sample_totals_fit(*inv),
        routes@.len() == inv.telemetry@.len(),
        forall|i: int| 0 <= i < routes@.len() ==> routes_entry(*inv, groups@, i, #[trigger] routes@[i]),
    ensures
        r == counts_of(*inv, *c),
{
    let pk = c.pk.as_str();
    let devices = count_devices(inv, pk);
    let (links_total, wan_links, dzx_links, other_links) = count_links(inv, pk);
    let (telemetry_links, telemetry_entries, telemetry_samples, baseline_samples) = count_telemetry(
        inv,
        groups,
        routes,
        pk,
    );
    ContributorCounts {
        contributor_pk: c.pk.clone(),
        code: c.code.clone(),
        status: c.status.clone(),
        devices,
        links_total,
        wan_links,
        dzx_links,
        other_links,
        telemetry_links,
        telemetry_entries,
        telemetry_samples,
        baseline_samples,
    }
}

/// The aggregates of every contributor, in the order of the records.
pub open spec fn all_counts(inv: EpochInventory) -> Seq<ContributorCounts> {
    inv.contributors@.map_values(|c: ContributorRecord| counts_of(inv, c))
}

fn collect_counts(
    inv: &EpochInventory,
    groups: &Vec<BaselineGroup>,
    routes: &Vec<Option<TelemetryRoute>>,
) -> (r: Vec<ContributorCounts>)
    requires
        sample_totals_fit(*inv),
        routes@.len() == inv.telemetry@.len(),
        forall|i: int| 0 <= i < routes@.len() ==> routes_entry(*inv, groups@, i, #[trigger] routes@[i]),
    ensures
        r@ == all_counts(*inv),
{
    let mut out: Vec<ContributorCounts> = Vec::new();
    let mut i: usize = 0;
    while i < inv.contributors.len()
        invariant
            i <= inv.contributors@.len(),
            sample_totals_fit(*inv),
            routes@.len() == inv.telemetry@.len(),
            forall|k: int| 0 <= k < routes@.len() ==> routes_entry(*inv, groups@, k, #[trigger] routes@[k]),
            out@ == all_counts(*inv).subrange(0, i as int),
        decreases inv.contributors@.len() - i,
    {
        let counts = contributor_counts(inv, groups, routes, &inv.contributors[i]);
        out.push(counts);
        proof {
            assert(out@ =~= all_counts(*inv).subrange(0, i + 1));
        }
        i = i + 1;
    }
    proof {
        assert(all_counts(*inv).subrange(0, i as int) =~= all_counts(*inv));
    }
    out
}

/// The aggregates whose contributor code is `k`, in their order.
pub open spec fn with_code(s: Seq<ContributorCounts>, k: Seq<char>) -> Seq<ContributorCounts>
    decreases s.len(),
{
    if s.len() == 0 {
        s
    } else if s.last().code@ == k {
        with_code(s.drop_last(), k).push(s.last())
    } else {
        with_code(s.drop_last(), k)
    }
}

/// Ordered by contributor code.
pub open spec fn sorted_by_code(s: Seq<ContributorCounts>) -> bool {
    forall|i: int, j: int| 0 <= i <= j < s.len() ==> lex_le(#[trigger] s[i].code@, #[trigger] s[j].code@)
}

proof fn lemma_with_code_add(a: Seq<ContributorCounts>, b: Seq<ContributorCounts>, k: Seq<char>)
    ensures
        with_code(a + b, k) == with_code(a, k) + with_code(b, k),
    decreases b.len(),
{
    if b.len() == 0 {
        assert(a + b =~= a);
        assert(with_code(a, k) + with_code(b, k) =~= with_code(a, k));
    } else {
        assert((a + b).drop_last() =~= a + b.drop_last());
        assert((a + b).last() == b.last());
        lemma_with_code_add(a, b.drop_last(), k);
        if b.last().code@ == k {
            assert(with_code(a, k) + with_code(b.drop_last(), k).push(b.last())
                =~= (with_code(a, k) + with_code(b.drop_last(), k)).push(b.last()));
        }
    }
}

proof fn lemma_with_code_none(s: Seq<ContributorCounts>, k: Seq<char>)
    requires
        forall|i: int| 0 <= i < s.len() ==> #[trigger] s[i].code@ != k,
    ensures
        with_code(s, k) =~= Seq::<ContributorCounts>::empty(),
    decreases s.len(),
{
    if s.len() > 0 {
        lemma_with_code_none(s.drop_last(), k);
    }
}

proof fn lemma_with_code_single(x: ContributorCounts, k: Seq<char>)
    ensures
        with_code(seq![x], k) =~= (if x.code@ == k { seq![x] } else { Seq::empty() }),
{
    let e = Seq::<ContributorCounts>::empty();
    assert(seq![x].drop_last() =~= e);
    assert(with_code(e, k) == e);
    assert(seq![x].last() == x);
    assert(e.push(x) =~= seq![x]);
}

/// Orders aggregates by contributor code, keeping the order of those of
/// one code.
pub fn sort_by_code(items: Vec<ContributorCounts>) -> (r: Vec<ContributorCounts>)
    ensures
        r@.len() == items@.len(),
        sorted_by_code(r@),
        forall|k: Seq<char>| #[trigger] with_code(r@, k) == with_code(items@, k),
{
    let ghost initial = items@;
    let mut rest = items;
    let mut out: Vec<ContributorCounts> = Vec::new();
    proof {
        assert forall|k: Seq<char>| #[trigger] with_code(out@, k) + with_code(rest@, k) == with_code(initial, k) by {
            assert(with_code(out@, k) =~= Seq::<ContributorCounts>::empty());
            assert(with_code(out@, k) + with_code(rest@, k) =~= with_code(rest@, k));
        }
    }
    while rest.len() > 0
        invariant
            out@.len() + rest@.len() == initial.len(),
            sorted_by_code(out@),
            forall|k: Seq<char>| #[trigger] with_code(out@, k) + with_code(rest@, k) == with_code(initial, k),
        decreases rest@.len(),
    {
        let ghost old_rest = rest@;
        let ghost old_out = out@;
        let x = rest.remove(0);
        let mut p: usize = out.len();
        while p > 0 && !str_le(out[p - 1].code.as_str(), x.code.as_str())
            invariant
                p <= out@.len(),
                out@ == old_out,
                forall|q: int| p <= q < out@.len() ==> !lex_le(#[trigger] out@[q].code@, x.code@),
            decreases p,
        {
            p = p - 1;
        }
        let ghost xv = x;
        out.insert(p, x);
        proof {
            let pre = old_out.subrange(0, p as int);
            let post = old_out.subrange(p as int, old_out.len() as int);
            assert(old_out =~= pre + post);
            assert(out@ =~= pre + seq![xv] + post);
            assert(old_rest =~= seq![xv] + rest@);
            assert forall|i: int, j: int| 0 <= i <= j < out@.len() implies lex_le(#[trigger] out@[i].code@, #[trigger] out@[j].code@) by {
                if i == j {
                    lemma_lex_refl(out@[i].code@);
                } else if i < p && j == p {
                    assert(lex_le(old_out[p - 1].code@, xv.code@));
                    assert(lex_le(old_out[i].code@, old_out[p - 1].code@));
                    lemma_lex_trans(old_out[i].code@, old_out[p - 1].code@, xv.code@);
                } else if i == p && j > p {
                    assert(out@[j] == old_out[j - 1]);
                    lemma_lex_total(old_out[j - 1].code@, xv.code@);
                } else if i < p && j > p {
                    assert(out@[i] == old_out[i]);
                    assert(out@[j] == old_out[j - 1]);
                    assert(lex_le(old_out[i].code@, old_out[j - 1].code@));
                } else if i > p {
                    assert(out@[i] == old_out[i - 1]);
                    assert(out@[j] == old_out[j - 1]);
                    assert(lex_le(old_out[i - 1].code@, old_out[j - 1].code@));
                } else {
                    assert(out@[i] == old_out[i]);
                    assert(out@[j] == old_out[j]);
                    assert(lex_le(old_out[i].code@, old_out[j].code@));
                }
            }
            assert forall|k: Seq<char>| #[trigger] with_code(out@, k) + with_code(rest@, k) == with_code(initial, k) by {
                lemma_with_code_add(pre + seq![xv], post, k);
                lemma_with_code_add(pre, seq![xv], k);
                lemma_with_code_add(pre, post, k);
                lemma_with_code_add(seq![xv], rest@, k);
                lemma_with_code_single(xv, k);
                assert(with_code(old_out, k) + with_code(old_rest, k) == with_code(initial, k));
                if xv.code@ == k {
                    assert forall|q: int| 0 <= q < post.len() implies #[trigger] post[q].code@ != k by {
                        assert(post[q] == old_out[p + q]);
                        lemma_lex_refl(k);
                    }
                    lemma_with_code_none(post, k);
                    assert(with_code(out@, k) + with_code(rest@, k) =~= with_code(old_out, k) + with_code(old_rest, k));
                } else {
                    assert(with_code(out@, k) + with_code(rest@, k) =~= with_code(old_out, k) + with_code(old_rest, k));
                }
            }
        }
    }
    proof {
        assert forall|k: Seq<char>| #[trigger] with_code(out@, k) == with_code(initial, k) by {
            assert(with_code(rest@, k) =~= Seq::<ContributorCounts>::empty());
            assert(with_code(out@, k) + with_code(rest@, k) =~= with_code(out@, k));
        }
    }
    out
}


/// Telemetry series `i` counts.
pub open spec fn counted_entry(inv: EpochInventory) -> spec_fn(int) -> bool {
    |i: int| entry_link(inv, i) is Some
}

/// Telemetry series `i` is the first counted series of its link.
pub open spec fn first_counted_entry(inv: EpochInventory) -> spec_fn(int) -> bool {
    |i: int| first_for_link(inv, i)
}

/// The epoch's totals.
#[derive(Clone, Copy, Debug, PartialEq, Eq, Structural)]
pub struct EnrichTotals {
    pub contributors: usize,
    pub devices: usize,
    pub links: usize,
    pub telemetry_links: usize,
    pub telemetry_entries: usize,
    pub telemetry_samples: usize,
}

pub open spec fn totals_of(inv: EpochInventory) -> EnrichTotals {
    let series = inv.telemetry@.len() as int;
    EnrichTotals {
        contributors: inv.contributors@.len() as usize,
        devices: inv.devices@.len() as usize,
        links: inv.links@.len() as usize,
        telemetry_links: count_upto(series, first_counted_entry(inv)) as usize,
        telemetry_entries: count_upto(series, counted_entry(inv)) as usize,
        telemetry_samples: sum_upto(series, counted_samples(inv)) as usize,
    }
}

/// The epoch's totals, from the routes of its telemetry.
pub fn epoch_totals(
    inv: &EpochInventory,
    groups: &Vec<BaselineGroup>,
    routes: &Vec<Option<TelemetryRoute>>,
) -> (r: EnrichTotals)
    requires
        sample_totals_fit(*inv),
        routes@.len() == inv.telemetry@.len(),
        forall|i: int| 0 <= i < routes@.len() ==> routes_entry(*inv, groups@, i, #[trigger] routes@[i]),
    ensures
        r == totals_of(*inv),
{
    let ghost n = inv.telemetry@.len() as int;
    let mut links: usize = 0;
    let mut entries: usize = 0;
    let mut samples: usize = 0;
    let mut i: usize = 0;
    while i < routes.len()
        invariant
            n == inv.telemetry@.len(),
            i <= n,
            routes@.len() == n,
            forall|k: int| 0 <= k < routes@.len() ==> routes_entry(*inv, groups@, k, #[trigger] routes@[k]),
            sum_upto(n, counted_samples(*inv)) <= usize::MAX,
            links == count_upto(i as int, first_counted_entry(*inv)),
            entries == count_upto(i as int, counted_entry(*inv)),
            samples == sum_upto(i as int, counted_samples(*inv)),
        decreases n - i,
    {
        proof {
            lemma_count_upto_bound(i as int, first_counted_entry(*inv));
            lemma_count_upto_bound(i as int, counted_entry(*inv));
            lemma_sum_upto_mono(i + 1, n, counted_samples(*inv));
            assert(routes_entry(*inv, groups@, i as int, routes@[i as int]));
        }
        match routes[i] {
            Some(route) => {
                let c: usize = match inv.telemetry[i].sample_count {
                    Some(c) => c,
                    None => 0,
                };
                entries = entries + 1;
                samples = samples + c;
                if route.first_for_link {
                    links = links + 1;
                }
            },
            None => {},
        }
        i = i + 1;
    }
    EnrichTotals {
        contributors: inv.contributors.len(),
        devices: inv.devices.len(),
        links: inv.links.len(),
        telemetry_links: links,
        telemetry_entries: entries,
        telemetry_samples: samples,
    }
}

/// The integer side of an enriched epoch: the contributors' aggregates in
/// order of code, the totals, where each telemetry series goes, and the
/// baseline groups of the internet series with each series' group.
pub struct EpochAggregate {
    pub contributors: Vec<ContributorCounts>,
    pub totals: EnrichTotals,
    pub routes: Vec<Option<TelemetryRoute>>,
    pub baseline_groups: Vec<BaselineGroup>,
    pub internet_groups: Vec<Option<usize>>,
}

/// Aggregates an epoch's inventory and telemetry.
pub fn aggregate_epoch(inv: &EpochInventory) -> (r: EpochAggregate)
    requires
        sample_totals_fit(*inv),
    ensures
        groups_internet(inv.internet@, r.baseline_groups@, r.internet_groups@),
        r.routes@.len() == inv.telemetry@.len(),
        forall|i: int| 0 <= i < r.routes@.len() ==> routes_entry(*inv, r.baseline_groups@, i, #[trigger] r.routes@[i]),
        r.totals == totals_of(*inv),
        r.contributors@.len() == inv.contributors@.len(),
        sorted_by_code(r.contributors@),
        forall|k: Seq<char>| #[trigger] with_code(r.contributors@, k) == with_code(all_counts(*inv), k),
{
    let (baseline_groups, internet_groups) = group_internet(&inv.internet);
    let routes = route_telemetry(inv, &baseline_groups, &internet_groups);
    let unsorted = collect_counts(inv, &baseline_groups, &routes);
    let contributors = sort_by_code(unsorted);
    let totals = epoch_totals(inv, &baseline_groups, &routes);
    EpochAggregate { contributors, totals, routes, baseline_groups, internet_groups }
}


/// Where an enrichment run reads and writes.
#[derive(Debug, Clone, PartialEq, Eq)]
pub struct EnrichConfig {
    pub snapshot_path: String,
    pub onchain_dir: String,
    pub out_dir: Option<String>,
}

impl View for EnrichConfig {
    type V = EnrichPaths;

    open spec fn view(&self) -> EnrichPaths {
        EnrichPaths { snapshot_path: self.snapshot_path@, onchain_dir: self.onchain_dir@, out_dir: opt_text(self.out_dir) }
    }
}

/// The run that the enrich command's arguments ask for: its configuration,
/// or the usage text.
pub fn run_from_args(args: &Vec<String>) -> (r: Result<ArgsOutcome<EnrichConfig>, ArgsError>)
    ensures
        parse_matches::<EnrichConfig>(
            enrich_args_from(texts(args@), 0, EnrichArgsView { snapshot_path: None, onchain_dir: None, out_dir: None }),
            r,
        ),
{
    match parse_enrich_args(args) {
        Ok(ArgsOutcome::Parsed(a)) => Ok(
            ArgsOutcome::Parsed(EnrichConfig { snapshot_path: a.snapshot_path, onchain_dir: a.onchain_dir, out_dir: a.out_dir }),
        ),
        Ok(ArgsOutcome::Help) => Ok(ArgsOutcome::Help),
        Err(e) => Err(e),
    }
}

/// Why an enrichment run stops.
#[derive(Debug, Clone, Copy, PartialEq, Eq, Structural)]
pub enum EnrichError {
    /// The snapshot is of another epoch than the on-chain data.
    EpochMismatch { snapshot: u64, onchain: u64 },
}

impl EnrichError {
    /// The error's text.
    pub fn message(&self) -> (r: String)
        ensures
            match *self {
                EnrichError::EpochMismatch { snapshot, onchain } => r@ == "epoch mismatch: snapshot dz_epoch "@
                    + decimal_digits(snapshot as nat) + " != onchain dz_epoch "@ + decimal_digits(onchain as nat),
            },
    {
        match self {
            EnrichError::EpochMismatch { snapshot, onchain } => {
                let a = text_concat("epoch mismatch: snapshot dz_epoch ", u64_to_decimal(*snapshot).as_str());
                let b = text_concat(a.as_str(), " != onchain dz_epoch ");
                text_concat(b.as_str(), u64_to_decimal(*onchain).as_str())
            },
        }
    }
}

/// The epoch of a run: the snapshot's and the on-chain data's must agree.
pub fn check_epoch(snapshot_epoch: u64, onchain_epoch: u64) -> (r: Result<u64, EnrichError>)
    ensures
        r == (if snapshot_epoch == onchain_epoch {
            Ok::<u64, EnrichError>(snapshot_epoch)
        } else {
            Err(EnrichError::EpochMismatch { snapshot: snapshot_epoch, onchain: onchain_epoch })
        }),
{
    if snapshot_epoch != onchain_epoch {
        return Err(EnrichError::EpochMismatch { snapshot: snapshot_epoch, onchain: onchain_epoch });
    }
    Ok(snapshot_epoch)
}


proof fn lemma_lex_antisym(a: Seq<char>, b: Seq<char>)
    requires
        lex_le(a, b),
        lex_le(b, a),
    ensures
        a == b,
    decreases a.len(),
{
    if a.len() > 0 && b.len() > 0 {
        if a[0] == b[0] {
            lemma_lex_antisym(a.drop_first(), b.drop_first());
            assert(a =~= seq![a[0]] + a.drop_first());
            assert(b =~= seq![b[0]] + b.drop_first());
        } else {
            assert((a[0] as int) != (b[0] as int));
        }
    } else {
        assert(a.len() == 0 && b.len() == 0);
        assert(a =~= b);
    }
}

/// A pair of exchanges normalizes to the same pair in either order, with
/// its smaller member first.
pub proof fn lemma_normalize_pair_symmetric(a: Seq<char>, b: Seq<char>)
    ensures
        spec_normalize_pair(a, b) == spec_normalize_pair(b, a),
        lex_le(spec_normalize_pair(a, b).0, spec_normalize_pair(a, b).1),
{
    lemma_lex_total(a, b);
    if lex_le(a, b) && lex_le(b, a) {
        lemma_lex_antisym(a, b);
    }
}

proof fn lemma_count_upto_implies(n: int, p: spec_fn(int) -> bool, q: spec_fn(int) -> bool)
    requires
        forall|i: int| 0 <= i < n ==> #[trigger] p(i) ==> q(i),
    ensures
        count_upto(n, p) <= count_upto(n, q),
    decreases n,
{
    if n > 0 {
        lemma_count_upto_implies(n - 1, p, q);
    }
}

proof fn lemma_link_kinds_split(inv: EpochInventory, pk: Seq<char>, n: int)
    ensures
        count_upto(n, link_of(inv, pk)) == count_upto(n, link_of_kind(inv, pk, LinkKind::Wan))
            + count_upto(n, link_of_kind(inv, pk, LinkKind::Dzx)) + count_upto(
            n,
            link_of_kind(inv, pk, LinkKind::Other),
        ),
    decreases n,
{
    if n > 0 {
        lemma_link_kinds_split(inv, pk, n - 1);
    }
}

/// What every contributor's aggregates keep: its WAN, DZX and other links
/// make up all of its links, it has no more links with telemetry than
/// counted telemetry series, and no more samples with a baseline than
/// telemetry samples.
pub proof fn lemma_counts_consistent(inv: EpochInventory, c: ContributorRecord)
    requires
        sample_totals_fit(inv),
    ensures
        counts_of(inv, c).wan_links + counts_of(inv, c).dzx_links + counts_of(inv, c).other_links
            == counts_of(inv, c).links_total,
        counts_of(inv, c).telemetry_links <= counts_of(inv, c).telemetry_entries,
        counts_of(inv, c).baseline_samples <= counts_of(inv, c).telemetry_samples,
{
    let pk = c.pk@;
    let links = inv.links@.len() as int;
    let series = inv.telemetry@.len() as int;
    assert(inv.links.len() == links);
    assert(inv.telemetry.len() == series);
    lemma_link_kinds_split(inv, pk, links);
    lemma_count_upto_bound(links, link_of_kind(inv, pk, LinkKind::Wan));
    lemma_count_upto_bound(links, link_of_kind(inv, pk, LinkKind::Dzx));
    lemma_count_upto_bound(links, link_of_kind(inv, pk, LinkKind::Other));
    lemma_count_upto_bound(series, first_entry_of(inv, pk));
    lemma_count_upto_bound(links, link_of(inv, pk));
    lemma_count_upto_bound(series, entry_of(inv, pk));
    lemma_count_upto_implies(series, first_entry_of(inv, pk), entry_of(inv, pk));
    assert forall|i: int| 0 <= i < series implies #[trigger] entry_samples(inv, pk)(i) <= counted_samples(inv)(i) by {}
    assert forall|i: int| 0 <= i < series implies #[trigger] baseline_entry_samples(inv, pk)(i) <= entry_samples(inv, pk)(i) by {}
    lemma_sum_upto_le(series, entry_samples(inv, pk), counted_samples(inv));
    lemma_sum_upto_le(series, baseline_entry_samples(inv, pk), entry_samples(inv, pk));
}


/// The indices below `n` that satisfy `p`.
pub open spec fn indices_upto(n: int, p: spec_fn(int) -> bool) -> Set<int> {
    Set::new(|j: int| 0 <= j < n && p(j))
}

proof fn lemma_count_upto_set(n: int, p: spec_fn(int) -> bool)
    requires
        n >= 0,
    ensures
        indices_upto(n, p).finite(),
        indices_upto(n, p).len() == count_upto(n, p),
    decreases n,
{
    broadcast use vstd::set::group_set_axioms;

    if n == 0 {
        assert(indices_upto(0, p) =~= Set::<int>::empty());
    } else {
        lemma_count_upto_set(n - 1, p);
        if p(n - 1) {
            assert(indices_upto(n, p) =~= indices_upto(n - 1, p).insert(n - 1));
        } else {
            assert(indices_upto(n, p) =~= indices_upto(n - 1, p));
        }
    }
}

/// The link records of `pk` that some counted telemetry series among the
/// first `n` resolves to.
pub open spec fn measured_links(inv: EpochInventory, pk: Seq<char>, n: int) -> Set<int> {
    Set::new(|j: int| exists|k: int| 0 <= k < n && #[trigger] entry_of(inv, pk)(k) && entry_link(inv, k) == Some(j))
}

proof fn lemma_measured_links(inv: EpochInventory, pk: Seq<char>, n: int)
    requires
        0 <= n <= inv.telemetry@.len(),
    ensures
        measured_links(inv, pk, n).finite(),
        measured_links(inv, pk, n).len() == count_upto(n, first_entry_of(inv, pk)),
    decreases n,
{
    broadcast use vstd::set::group_set_axioms;

    if n == 0 {
        assert(measured_links(inv, pk, 0) =~= Set::<int>::empty());
    } else {
        let m = n - 1;
        lemma_measured_links(inv, pk, m);
        let before = measured_links(inv, pk, m);
        let after = measured_links(inv, pk, n);
        if entry_of(inv, pk)(m) {
            let j = entry_link(inv, m)->0;
            assert(after =~= before.insert(j)) by {
                assert forall|q: int| after.contains(q) implies before.insert(j).contains(q) by {
                    let k = choose|k: int| 0 <= k < n && #[trigger] entry_of(inv, pk)(k) && entry_link(inv, k) == Some(q);
                    if k < m {
                        assert(before.contains(q));
                    }
                }
                assert forall|q: int| before.insert(j).contains(q) implies after.contains(q) by {
                    if q == j {
                        assert(0 <= m < n && entry_of(inv, pk)(m) && entry_link(inv, m) == Some(q));
                    } else {
                        let k = choose|k: int| 0 <= k < m && #[trigger] entry_of(inv, pk)(k) && entry_link(inv, k) == Some(q);
                        assert(0 <= k < n && entry_of(inv, pk)(k) && entry_link(inv, k) == Some(q));
                    }
                }
            }
            if first_for_link(inv, m) {
                if before.contains(j) {
                    let k = choose|k: int| 0 <= k < m && #[trigger] entry_of(inv, pk)(k) && entry_link(inv, k) == Some(j);
                    assert(entry_link(inv, k) != entry_link(inv, m));
                }
            } else {
                let k = choose|k: int| 0 <= k < m && #[trigger] entry_link(inv, k) == entry_link(inv, m);
                assert(entry_of(inv, pk)(k));
                assert(before.contains(j));
            }
        } else {
            assert(after =~= before) by {
                assert forall|q: int| after.contains(q) implies before.contains(q) by {
                    let k = choose|k: int| 0 <= k < n && #[trigger] entry_of(inv, pk)(k) && entry_link(inv, k) == Some(q);
                    assert(k != m);
                }
                assert forall|q: int| before.contains(q) implies after.contains(q) by {
                    let k = choose|k: int| 0 <= k < m && #[trigger] entry_of(inv, pk)(k) && entry_link(inv, k) == Some(q);
                    assert(0 <= k < n && entry_of(inv, pk)(k) && entry_link(inv, k) == Some(q));
                }
            }
        }
    }
}

/// A contributor never has more links with telemetry than links: every
/// counted series resolves to one of its own link records, and each
/// record is counted once.
pub proof fn lemma_measured_links_bound(inv: EpochInventory, c: ContributorRecord)
    ensures
        counts_of(inv, c).telemetry_links <= counts_of(inv, c).links_total,
{
    let pk = c.pk@;
    let n = inv.telemetry@.len() as int;
    let links = inv.links@.len() as int;
    assert(inv.links.len() == links);
    assert(inv.telemetry.len() == n);
    lemma_measured_links(inv, pk, n);
    lemma_count_upto_set(links, link_of(inv, pk));
    assert(measured_links(inv, pk, n).subset_of(indices_upto(links, link_of(inv, pk)))) by {
        assert forall|j: int| measured_links(inv, pk, n).contains(j) implies indices_upto(links, link_of(inv, pk)).contains(j) by {
            let k = choose|k: int| 0 <= k < n && #[trigger] entry_of(inv, pk)(k) && entry_link(inv, k) == Some(j);
            lemma_entry_link_bound(inv, k);
        }
    }
    vstd::set_lib::lemma_len_subset(measured_links(inv, pk, n), indices_upto(links, link_of(inv, pk)));
    lemma_count_upto_bound(links, link_of(inv, pk));
    lemma_count_upto_bound(n, first_entry_of(inv, pk));
}

/// A contributor's WAN links are its links whose type is `WAN`, its DZX
/// links those whose type is `DZX`, and its other links those of any other
/// type.
pub proof fn lemma_link_counts_by_type(inv: EpochInventory, c: ContributorRecord)
    ensures
        counts_of(inv, c).wan_links as nat == count_upto(
            inv.links@.len() as int,
            |i: int| names(inv.links@[i].contributor_pk, c.pk@) && inv.links@[i].link_type@ == "WAN"@,
        ),
        counts_of(inv, c).dzx_links as nat == count_upto(
            inv.links@.len() as int,
            |i: int| names(inv.links@[i].contributor_pk, c.pk@) && inv.links@[i].link_type@ == "DZX"@,
        ),
        counts_of(inv, c).other_links as nat == count_upto(
            inv.links@.len() as int,
            |i: int|
                names(inv.links@[i].contributor_pk, c.pk@) && inv.links@[i].link_type@ != "WAN"@
                    && inv.links@[i].link_type@ != "DZX"@,
        ),
        counts_of(inv, c).links_total as nat == count_upto(
            inv.links@.len() as int,
            |i: int| names(inv.links@[i].contributor_pk, c.pk@),
        ),
{
    let pk = c.pk@;
    let n = inv.links@.len() as int;
    assert(inv.links.len() == n);
    let wan = |i: int| names(inv.links@[i].contributor_pk, pk) && inv.links@[i].link_type@ == "WAN"@;
    let dzx = |i: int| names(inv.links@[i].contributor_pk, pk) && inv.links@[i].link_type@ == "DZX"@;
    let other = |i: int|
        names(inv.links@[i].contributor_pk, pk) && inv.links@[i].link_type@ != "WAN"@ && inv.links@[i].link_type@
            != "DZX"@;
    reveal_strlit("WAN");
    reveal_strlit("DZX");
    assert("WAN"@[0] != "DZX"@[0]);
    assert(link_of_kind(inv, pk, LinkKind::Wan) =~= wan);
    assert(link_of_kind(inv, pk, LinkKind::Dzx) =~= dzx);
    assert(link_of_kind(inv, pk, LinkKind::Other) =~= other);
    assert(link_of(inv, pk) =~= (|i: int| names(inv.links@[i].contributor_pk, pk)));
    lemma_count_upto_bound(n, link_of(inv, pk));
    lemma_count_upto_bound(n, link_of_kind(inv, pk, LinkKind::Wan));
    lemma_count_upto_bound(n, link_of_kind(inv, pk, LinkKind::Dzx));
    lemma_count_upto_bound(n, link_of_kind(inv, pk, LinkKind::Other));
}

} // verus!
