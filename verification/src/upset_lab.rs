//! The upset lab's listing and scan tallies: which stored candidates a query
//! shows, the order of lab decisions, how many candidates of each pool are
//! kept, and what a scan counts of the candidates it classified.
use vstd::prelude::*;
use crate::markets::{pool_limit, upset_pool_limit};
use crate::snapshot::{
    lemma_text_before_irrefl, lemma_text_before_total, lemma_text_before_trans, sorted_distinct_texts,
    strictly_sorted, text_before, text_less,
};
use crate::feeds::{get_member, member, obj_get, obj_get_exec, JsonNumber, JsonValue};
use crate::text::{chars_of, matches_at, owned, starts_with, str_eq, string_views, trim, trim_vec};

verus! {

/// The place of a lab decision in the listing: tiny stakes first, then paper
/// candidates, scans, candidates short of data, forbidden ones, the rest.
pub open spec fn decision_rank_spec(d: Seq<char>) -> u8 {
    if d == "tiny_stake_candidate"@ {
        0
    } else if d == "paper_candidate"@ {
        1
    } else if d == "scan_only"@ {
        2
    } else if d == "insufficient_data"@ {
        3
    } else if d == "forbidden"@ {
        4
    } else {
        5
    }
}

/// The rank of a lab decision in the candidate listing.
pub fn upset_decision_rank(decision: &str) -> (r: u8)
    ensures
        r == decision_rank_spec(decision@),
{
    if str_eq(decision, "tiny_stake_candidate") {
        0
    } else if str_eq(decision, "paper_candidate") {
        1
    } else if str_eq(decision, "scan_only") {
        2
    } else if str_eq(decision, "insufficient_data") {
        3
    } else if str_eq(decision, "forbidden") {
        4
    } else {
        5
    }
}

/// The view of an optional text.
pub open spec fn opt_text(f: Option<String>) -> Option<Seq<char>> {
    match f {
        Some(t) => Some(t@),
        None => None,
    }
}

/// A filter given as text is in force unless it is missing or blank.
pub open spec fn filter_in_force(f: Option<Seq<char>>) -> Option<Seq<char>> {
    match f {
        Some(t) => if trim(t).len() > 0 {
            Some(t)
        } else {
            None
        },
        None => None,
    }
}

/// What a listing query asks for: a date prefix, a play pool and a lab
/// decision, each optional.
#[derive(Clone, Debug)]
pub struct UpsetListFilter {
    pub date: Option<String>,
    pub play_pool: Option<String>,
    pub final_lab_decision: Option<String>,
}

/// The fields of a stored candidate that the listing filters on.
#[derive(Clone, Debug)]
pub struct UpsetCandidateKey {
    pub match_time: String,
    pub created_at: String,
    pub play_pool: String,
    pub final_lab_decision: String,
}

/// A candidate is listed when its kickoff or creation time starts with the
/// date, and its pool and decision equal those asked for, for each filter
/// in force.
pub open spec fn candidate_listed(key: UpsetCandidateKey, filter: UpsetListFilter) -> bool {
    &&& (filter_in_force(opt_text(filter.date)) matches Some(d) ==> starts_with(
        key.match_time@,
        d,
    ) || starts_with(key.created_at@, d))
    &&& (filter_in_force(opt_text(filter.play_pool)) matches Some(p) ==> key.play_pool@ == p)
    &&& (filter_in_force(opt_text(filter.final_lab_decision)) matches Some(x)
        ==> key.final_lab_decision@ == x)
}

/// The text of a filter when it is in force.
fn filter_chars(f: &Option<String>) -> (r: Option<Vec<char>>)
    ensures
        match filter_in_force(opt_text(*f)) {
            Some(t) => r is Some && r->0@ == t,
            None => r is None,
        },
{
    match f {
        Some(t) => {
            let v = chars_of(t.as_str());
            let trimmed = trim_vec(&v);
            if trimmed.len() > 0 {
                Some(v)
            } else {
                None
            }
        },
        None => None,
    }
}

/// Whether `p` is a prefix of `s`.
fn prefix_of(s: &str, p: &Vec<char>) -> (b: bool)
    ensures
        b == starts_with(s@, p@),
{
    let v = chars_of(s);
    assert(v@.skip(0) =~= v@);
    matches_at(&v, p, 0)
}

impl UpsetListFilter {
    /// Whether a stored candidate passes the filters in force.
    pub fn admits(&self, key: &UpsetCandidateKey) -> (b: bool)
        ensures
            b == candidate_listed(*key, *self),
    {
        match filter_chars(&self.date) {
            Some(d) => {
                if !prefix_of(key.match_time.as_str(), &d) && !prefix_of(
                    key.created_at.as_str(),
                    &d,
                ) {
                    return false;
                }
            },
            None => {},
        }
        match filter_chars(&self.play_pool) {
            Some(p) => {
                let kv = chars_of(key.play_pool.as_str());
                if !crate::text::eq_vec(&kv, &p) {
                    return false;
                }
            },
            None => {},
        }
        match filter_chars(&self.final_lab_decision) {
            Some(x) => {
                let kv = chars_of(key.final_lab_decision.as_str());
                if !crate::text::eq_vec(&kv, &x) {
                    return false;
                }
            },
            None => {},
        }
        true
    }
}

/// How many entries of `s` equal `p`.
pub open spec fn count_of(s: Seq<Seq<char>>, p: Seq<char>) -> nat
    decreases s.len(),
{
    if s.len() == 0 {
        0
    } else {
        count_of(s.drop_last(), p) + if s.last() == p {
            1nat
        } else {
            0nat
        }
    }
}

/// After the listing is sorted, an entry stays when fewer entries of its
/// pool came before it than the pool's limit.
pub open spec fn kept_in_pool(pools: Seq<Seq<char>>, i: int) -> bool {
    count_of(pools.take(i), pools[i]) < pool_limit(pools[i])
}

/// The per-pool cap of the sorted listing, given each entry's pool: for each
/// entry, whether it is kept.
pub fn cap_candidates_per_pool(pools: &Vec<String>) -> (keep: Vec<bool>)
    ensures
        keep@.len() == pools@.len(),
        forall|i: int|
            0 <= i < pools@.len() ==> keep@[i] == kept_in_pool(string_views(pools@), i),
{
    let ghost ps = string_views(pools@);
    let mut keep: Vec<bool> = Vec::new();
    let mut i: usize = 0;
    while i < pools.len()
        invariant
            i <= pools@.len(),
            keep@.len() == i,
            ps == string_views(pools@),
            forall|j: int| 0 <= j < i ==> keep@[j] == kept_in_pool(ps, j),
        decreases pools@.len() - i,
    {
        let limit = upset_pool_limit(pools[i].as_str());
        let mut c: usize = 0;
        let mut j: usize = 0;
        assert(ps.take(0) =~= Seq::<Seq<char>>::empty());
        while j < i
            invariant
                j <= i < pools@.len(),
                ps == string_views(pools@),
                c == count_of(ps.take(j as int), ps[i as int]),
                c <= j,
            decreases i - j,
        {
            assert(ps.take(j + 1).drop_last() =~= ps.take(j as int));
            if str_eq(pools[j].as_str(), pools[i].as_str()) {
                c = c + 1;
            }
            j = j + 1;
        }
        keep.push(c < limit);
        i = i + 1;
    }
    keep
}

/// The listing key of a candidate: its play pool, then its decision's rank.
pub open spec fn key_views(keys: Seq<(String, u8)>) -> Seq<(Seq<char>, u8)> {
    keys.map_values(|k: (String, u8)| (k.0@, k.1))
}

/// A listing key sorts before another: its pool text first, then its rank.
pub open spec fn key_before(a: (Seq<char>, u8), b: (Seq<char>, u8)) -> bool {
    text_before(a.0, b.0) || (a.0 == b.0 && a.1 < b.1)
}

proof fn lemma_key_order(a: (Seq<char>, u8), b: (Seq<char>, u8), c: (Seq<char>, u8))
    ensures
        !key_before(a, a),
        key_before(a, b) ==> !key_before(b, a),
        key_before(a, b) && key_before(b, c) ==> key_before(a, c),
        !key_before(a, b) ==> key_before(b, a) || a == b,
{
    lemma_text_before_irrefl(a.0);
    if text_before(a.0, b.0) && text_before(b.0, a.0) {
        lemma_text_before_trans(a.0, b.0, a.0);
    }
    if text_before(a.0, b.0) && text_before(b.0, c.0) {
        lemma_text_before_trans(a.0, b.0, c.0);
    }
    if a.0 != b.0 {
        lemma_text_before_total(a.0, b.0);
    }
    if text_before(a.0, b.0) && b.0 == c.0 {
        assert(text_before(a.0, c.0));
    }
    if a.0 == b.0 && a.1 == b.1 {
        assert(a == b);
    }
}

/// `order` lists the positions of `keys` once each, by key, ties in the
/// order they came.
pub open spec fn listing_sorted(order: Seq<usize>, keys: Seq<(Seq<char>, u8)>, n: int) -> bool {
    &&& order.len() == n
    &&& forall|a: int| 0 <= a < n ==> #[trigger] order[a] < n
    &&& forall|a: int, b: int| 0 <= a < b < n ==> #[trigger] order[a] != #[trigger] order[b]
    &&& forall|a: int, b: int|
        0 <= a < b < n ==> !key_before(keys[#[trigger] order[b] as int], keys[#[trigger] order[a] as int])
            && (keys[order[a] as int] == keys[order[b] as int] ==> order[a] < order[b])
}

fn key_less(a: &(String, u8), b: &(String, u8)) -> (r: bool)
    ensures
        r == key_before((a.0@, a.1), (b.0@, b.1)),
{
    text_less(&a.0, &b.0) || (str_eq(a.0.as_str(), b.0.as_str()) && a.1 < b.1)
}

/// The order of the upset listing by play pool, then decision rank, a
/// candidate with the same pool and rank keeping its place: the positions
/// of `keys`, each once, in that order.
pub fn listing_order(keys: &Vec<(String, u8)>) -> (order: Vec<usize>)
    ensures
        listing_sorted(order@, key_views(keys@), keys@.len() as int),
{
    let ghost kv = key_views(keys@);
    let mut order: Vec<usize> = Vec::new();
    let mut i: usize = 0;
    while i < keys.len()
        invariant
            i <= keys@.len(),
            kv == key_views(keys@),
            listing_sorted(order@, kv, i as int),
        decreases keys@.len() - i,
    {
        let ghost ki = kv[i as int];
        assert(ki == (keys@[i as int].0@, keys@[i as int].1));
        let mut p: usize = 0;
        while p < order.len() && !key_less(&keys[i], &keys[order[p]])
            invariant
                p <= order@.len(),
                i < keys@.len(),
                kv == key_views(keys@),
                listing_sorted(order@, kv, i as int),
                ki == kv[i as int],
                forall|q: int| 0 <= q < p ==> !key_before(ki, kv[#[trigger] order@[q] as int]),
            decreases order@.len() - p,
        {
            assert(kv[order@[p as int] as int] == (keys@[order@[p as int] as int].0@, keys@[order@[p as int] as int].1));
            p = p + 1;
        }
        let ghost old_o = order@;
        proof {
            if p < old_o.len() {
                assert(kv[old_o[p as int] as int] == (keys@[old_o[p as int] as int].0@, keys@[old_o[p as int] as int].1));
                assert(key_before(ki, kv[old_o[p as int] as int]));
                assert forall|q: int| p <= q < old_o.len() implies key_before(ki, kv[#[trigger] old_o[q] as int]) by {
                    if q > p {
                        lemma_key_order(kv[old_o[q] as int], kv[old_o[p as int] as int], ki);
                        lemma_key_order(ki, kv[old_o[p as int] as int], kv[old_o[q] as int]);
                    }
                }
            }
        }
        order.insert(p, i);
        proof {
            let no = order@;
            assert(no =~= old_o.insert(p as int, i));
            assert forall|a: int| 0 <= a < i + 1 implies #[trigger] no[a] < i + 1 by {
                if a < p {
                    assert(no[a] == old_o[a]);
                } else if a > p {
                    assert(no[a] == old_o[a - 1]);
                }
            }
            assert forall|a: int, b: int| 0 <= a < b < i + 1 implies #[trigger] no[a] != #[trigger] no[b] by {
                if a < p && b < p {
                    assert(no[a] == old_o[a] && no[b] == old_o[b]);
                } else if a < p && b > p {
                    assert(no[a] == old_o[a] && no[b] == old_o[b - 1]);
                } else if a > p {
                    assert(no[a] == old_o[a - 1] && no[b] == old_o[b - 1]);
                } else if a == p {
                    assert(no[b] == old_o[b - 1]);
                    assert(old_o[b - 1] < i);
                } else {
                    assert(no[a] == old_o[a]);
                    assert(old_o[a] < i);
                }
            }
            assert forall|a: int, b: int| 0 <= a < b < i + 1 implies !key_before(
                kv[#[trigger] no[b] as int],
                kv[#[trigger] no[a] as int],
            ) && (kv[no[a] as int] == kv[no[b] as int] ==> no[a] < no[b]) by {
                if b < p {
                    assert(no[a] == old_o[a] && no[b] == old_o[b]);
                } else if a > p {
                    assert(no[a] == old_o[a - 1] && no[b] == old_o[b - 1]);
                } else if a < p && b > p {
                    assert(no[a] == old_o[a] && no[b] == old_o[b - 1]);
                } else if a == p {
                    assert(no[b] == old_o[b - 1]);
                    assert(key_before(ki, kv[old_o[b - 1] as int]));
                    lemma_key_order(ki, kv[old_o[b - 1] as int], ki);
                } else {
                    assert(b == p);
                    assert(no[a] == old_o[a]);
                    assert(!key_before(ki, kv[old_o[a] as int]));
                    assert(old_o[a] < i);
                }
            }
        }
        i = i + 1;
    }
    order
}

/// How many of the first `n` entries are kept and belong to pool `p`.
pub open spec fn kept_count(pools: Seq<Seq<char>>, n: int, p: Seq<char>) -> nat
    decreases n,
{
    if n <= 0 {
        0
    } else {
        kept_count(pools, n - 1, p) + if pools[n - 1] == p && kept_in_pool(pools, n - 1) {
            1nat
        } else {
            0nat
        }
    }
}

/// Among the first `n` entries, a pool keeps as many as it has, up to its limit.
pub proof fn lemma_kept_count(pools: Seq<Seq<char>>, n: int, p: Seq<char>)
    requires
        0 <= n <= pools.len(),
    ensures
        kept_count(pools, n, p) == if count_of(pools.take(n), p) < pool_limit(p) {
            count_of(pools.take(n), p)
        } else {
            pool_limit(p) as nat
        },
    decreases n,
{
    if n == 0 {
        assert(pools.take(0) =~= Seq::<Seq<char>>::empty());
    } else {
        lemma_kept_count(pools, n - 1, p);
        assert(pools.take(n).drop_last() =~= pools.take(n - 1));
    }
}

/// A classified scan row: its play pool and its lab decision.
pub open spec fn pair_views(v: Seq<(String, String)>) -> Seq<(Seq<char>, Seq<char>)> {
    v.map_values(|x: (String, String)| (x.0@, x.1@))
}

/// How many rows satisfy `f`.
pub open spec fn tally(rows: Seq<(Seq<char>, Seq<char>)>, f: spec_fn(Seq<char>, Seq<char>) -> bool) -> nat
    decreases rows.len(),
{
    if rows.len() == 0 {
        0
    } else {
        tally(rows.drop_last(), f) + if f(rows.last().0, rows.last().1) {
            1nat
        } else {
            0nat
        }
    }
}

/// Cold-draw scans that were not forbidden.
pub open spec fn cold_draw_scans() -> spec_fn(Seq<char>, Seq<char>) -> bool {
    |pool: Seq<char>, d: Seq<char>| pool == "cold_draw_pool"@ && d != "forbidden"@
}

/// Handicap scans that were not forbidden.
pub open spec fn handicap_scans() -> spec_fn(Seq<char>, Seq<char>) -> bool {
    |pool: Seq<char>, d: Seq<char>| pool == "handicap_upset_pool"@ && d != "forbidden"@
}

/// Score scans (high-odds or 3:3 pool) that were not forbidden.
pub open spec fn score_scans() -> spec_fn(Seq<char>, Seq<char>) -> bool {
    |pool: Seq<char>, d: Seq<char>|
        (pool == "high_odds_score_pool"@ || pool == "score_3_3_pool"@) && d != "forbidden"@
}

/// Rows whose lab decision is `decision`.
pub open spec fn has_decision(decision: Seq<char>) -> spec_fn(Seq<char>, Seq<char>) -> bool {
    |pool: Seq<char>, d: Seq<char>| d == decision
}

/// The counts a scan reports of the candidates it classified.
#[derive(Clone, Copy, Debug, PartialEq, Eq)]
pub struct UpsetScanTally {
    pub cold_draw_scan: usize,
    pub handicap_scan: usize,
    pub score_scan: usize,
    pub forbidden: usize,
    pub data_insufficient: usize,
    pub scan_only: usize,
    pub paper_candidate: usize,
    pub tiny_stake: usize,
}

/// Each count of `t` is the tally of its predicate over the rows.
pub open spec fn tallies(t: UpsetScanTally, rows: Seq<(Seq<char>, Seq<char>)>) -> bool {
    &&& t.cold_draw_scan == tally(rows, cold_draw_scans())
    &&& t.handicap_scan == tally(rows, handicap_scans())
    &&& t.score_scan == tally(rows, score_scans())
    &&& t.forbidden == tally(rows, has_decision("forbidden"@))
    &&& t.data_insufficient == tally(rows, has_decision("insufficient_data"@))
    &&& t.scan_only == tally(rows, has_decision("scan_only"@))
    &&& t.paper_candidate == tally(rows, has_decision("paper_candidate"@))
    &&& t.tiny_stake == tally(rows, has_decision("tiny_stake_candidate"@))
}

/// A tally is at most the number of rows.
proof fn lemma_tally_le(rows: Seq<(Seq<char>, Seq<char>)>, f: spec_fn(Seq<char>, Seq<char>) -> bool)
    ensures
        tally(rows, f) <= rows.len(),
    decreases rows.len(),
{
    if rows.len() > 0 {
        lemma_tally_le(rows.drop_last(), f);
    }
}

/// The funnel counts of a scan's classified candidates, given as (play pool,
/// lab decision) pairs.
pub fn tally_upset_scan(rows: &Vec<(String, String)>) -> (t: UpsetScanTally)
    ensures
        tallies(t, pair_views(rows@)),
{
    let ghost v = pair_views(rows@);
    let mut t = UpsetScanTally {
        cold_draw_scan: 0,
        handicap_scan: 0,
        score_scan: 0,
        forbidden: 0,
        data_insufficient: 0,
        scan_only: 0,
        paper_candidate: 0,
        tiny_stake: 0,
    };
    let mut i: usize = 0;
    assert(v.take(0) =~= Seq::<(Seq<char>, Seq<char>)>::empty());
    while i < rows.len()
        invariant
            i <= rows@.len(),
            v == pair_views(rows@),
            tallies(t, v.take(i as int)),
        decreases rows@.len() - i,
    {
        let ghost w = v.take(i + 1);
        assert(w.drop_last() =~= v.take(i as int));
        assert(w.last() == (rows@[i as int].0@, rows@[i as int].1@));
        proof {
            lemma_tally_le(v.take(i as int), cold_draw_scans());
            lemma_tally_le(v.take(i as int), handicap_scans());
            lemma_tally_le(v.take(i as int), score_scans());
            lemma_tally_le(v.take(i as int), has_decision("forbidden"@));
            lemma_tally_le(v.take(i as int), has_decision("insufficient_data"@));
            lemma_tally_le(v.take(i as int), has_decision("scan_only"@));
            lemma_tally_le(v.take(i as int), has_decision("paper_candidate"@));
            lemma_tally_le(v.take(i as int), has_decision("tiny_stake_candidate"@));
        }
        let pool = rows[i].0.as_str();
        let d = rows[i].1.as_str();
        let forbidden = str_eq(d, "forbidden");
        if str_eq(pool, "cold_draw_pool") && !forbidden {
            t.cold_draw_scan = t.cold_draw_scan + 1;
        }
        if str_eq(pool, "handicap_upset_pool") && !forbidden {
            t.handicap_scan = t.handicap_scan + 1;
        }
        if (str_eq(pool, "high_odds_score_pool") || str_eq(pool, "score_3_3_pool")) && !forbidden {
            t.score_scan = t.score_scan + 1;
        }
        if forbidden {
            t.forbidden = t.forbidden + 1;
        }
        if str_eq(d, "insufficient_data") {
            t.data_insufficient = t.data_insufficient + 1;
        }
        if str_eq(d, "scan_only") {
            t.scan_only = t.scan_only + 1;
        }
        if str_eq(d, "paper_candidate") {
            t.paper_candidate = t.paper_candidate + 1;
        }
        if str_eq(d, "tiny_stake_candidate") {
            t.tiny_stake = t.tiny_stake + 1;
        }
        i = i + 1;
    }
    assert(v.take(v.len() as int) =~= v);
    t
}

/// Why a scan from snapshots produced nothing: every candidate was banned,
/// or there were neither odds nor scans without odds; empty when it did.
pub fn upset_scan_empty_reason(created: usize, no_odds_generated: usize, hard_bans: usize) -> (r:
    &'static str)
    ensures
        r@ == if created == 0 && no_odds_generated == 0 {
            if hard_bans > 0 {
                "all_filtered_by_hard_ban"@
            } else {
                "no_odds_and_no_no_odds_scan_generated"@
            }
        } else {
            ""@
        },
{
    if created == 0 && no_odds_generated == 0 {
        if hard_bans > 0 {
            "all_filtered_by_hard_ban"
        } else {
            "no_odds_and_no_no_odds_scan_generated"
        }
    } else {
        ""
    }
}

/// How many entries equal `d`.
pub fn count_equal(items: &Vec<String>, d: &str) -> (n: usize)
    ensures
        n == count_of(string_views(items@), d@),
{
    let ghost v = string_views(items@);
    let mut n: usize = 0;
    let mut i: usize = 0;
    assert(v.take(0) =~= Seq::<Seq<char>>::empty());
    while i < items.len()
        invariant
            i <= items@.len(),
            v == string_views(items@),
            n == count_of(v.take(i as int), d@),
            n <= i,
        decreases items@.len() - i,
    {
        assert(v.take(i + 1).drop_last() =~= v.take(i as int));
        if str_eq(items[i].as_str(), d) {
            n = n + 1;
        }
        i = i + 1;
    }
    assert(v.take(v.len() as int) =~= v);
    n
}

/// The keys of a list of counts.
pub open spec fn count_keys(c: Seq<(String, usize)>) -> Seq<Seq<char>> {
    c.map_values(|e: (String, usize)| e.0@)
}

/// `c` counts the entries of `s`: each distinct entry once, with how often
/// it occurs, in order of first appearance.
pub open spec fn counts_of(c: Seq<(String, usize)>, s: Seq<Seq<char>>) -> bool {
    &&& forall|k: int, l: int| 0 <= k < l < c.len() ==> c[k].0@ != c[l].0@
    &&& forall|k: int| 0 <= k < c.len() ==> #[trigger] c[k].1 == count_of(s, c[k].0@)
    &&& forall|k: int| 0 <= k < c.len() ==> s.contains(#[trigger] c[k].0@)
    &&& forall|j: int| 0 <= j < s.len() ==> count_keys(c).contains(#[trigger] s[j])
}

/// The lab summary's candidates counted by play pool, the pools in
/// increasing text order (as a `BTreeMap` keeps them).
pub fn pool_counts(pools: &Vec<String>) -> (c: Vec<(String, usize)>)
    ensures
        counts_of(c@, string_views(pools@)),
        strictly_sorted(count_keys(c@)),
{
    let ghost v = string_views(pools@);
    let keys = sorted_distinct_texts(pools);
    let ghost kv = string_views(keys@);
    let mut c: Vec<(String, usize)> = Vec::new();
    let mut i: usize = 0;
    while i < keys.len()
        invariant
            i <= keys@.len(),
            v == string_views(pools@),
            kv == string_views(keys@),
            count_keys(c@) =~= kv.take(i as int),
            forall|k: int| 0 <= k < c@.len() ==> #[trigger] c@[k].1 == count_of(v, c@[k].0@),
        decreases keys@.len() - i,
    {
        let n = count_equal(pools, keys[i].as_str());
        let key = keys[i].clone();
        let ghost before = c@;
        assert(count_keys(before).len() == before.len());
        assert(before.len() == i);
        assert(key@ == kv[i as int]);
        c.push((key, n));
        assert(c@[i as int].0@ == kv[i as int]);
        assert(count_keys(c@) =~= kv.take(i + 1)) by {
            assert forall|k: int| 0 <= k < i + 1 implies count_keys(c@)[k] == kv.take(i + 1)[k] by {
                if k < i {
                    assert(c@[k] == before[k]);
                    assert(count_keys(before)[k] == kv.take(i as int)[k]);
                }
            }
        }
        assert forall|k: int| 0 <= k < c@.len() implies #[trigger] c@[k].1 == count_of(v, c@[k].0@) by {
            if k < before.len() {
                assert(c@[k] == before[k]);
            }
        }
        i = i + 1;
    }
    assert(kv.take(kv.len() as int) =~= kv);
    assert(count_keys(c@) == kv);
    assert forall|k: int, l: int| 0 <= k < l < c@.len() implies c@[k].0@ != c@[l].0@ by {
        assert(count_keys(c@)[k] == c@[k].0@ && count_keys(c@)[l] == c@[l].0@);
        assert(text_before(kv[k], kv[l]));
        if c@[k].0@ == c@[l].0@ {
            lemma_text_before_irrefl(kv[k]);
        }
    }
    assert forall|k: int| 0 <= k < c@.len() implies v.contains(#[trigger] c@[k].0@) by {
        assert(count_keys(c@)[k] == c@[k].0@);
    }
    c
}

/// What the upset lab's summary says of the losing streak: whether the lab
/// pauses, whether it only allows paper trades, and the warning it shows.
#[derive(Clone, Copy, Debug, PartialEq, Eq)]
pub struct UpsetLabGuard {
    pub pause_triggered: bool,
    pub paper_only_triggered: bool,
    pub warning: &'static str,
}

/// The streak of losses after which the lab only allows paper trades.
pub open spec fn paper_only_streak() -> i64 {
    8
}

/// The warning of the lab's summary.
pub open spec fn guard_warning(consecutive_losses: i64, stop_after: i64, candidate_count: usize) -> Seq<char> {
    if consecutive_losses >= paper_only_streak() {
        "连续亏损达到 8 单，冷门实验室只允许纸面观察。"@
    } else if consecutive_losses >= stop_after {
        "连续亏损达到暂停阈值，建议暂停冷门实验室。"@
    } else if candidate_count == 0 {
        "今日无符合条件的冷门候选。"@
    } else {
        "冷门实验室为高风险玩法，建议极小仓位或纸面观察。"@
    }
}

/// The lab pauses at `stop_after` straight losses, allows only paper trades
/// from eight, and warns accordingly.
pub open spec fn guards(g: UpsetLabGuard, consecutive_losses: i64, stop_after: i64, candidate_count: usize) -> bool {
    &&& g.pause_triggered == (consecutive_losses >= stop_after)
    &&& g.paper_only_triggered == (consecutive_losses >= paper_only_streak())
    &&& g.warning@ == guard_warning(consecutive_losses, stop_after, candidate_count)
}

/// The lab summary's guard: the lab pauses at `stop_after` straight losses,
/// allows only paper trades from eight, and warns accordingly.
pub fn upset_lab_guard(consecutive_losses: i64, stop_after: i64, candidate_count: usize) -> (g:
    UpsetLabGuard)
    ensures
        guards(g, consecutive_losses, stop_after, candidate_count),
{
    let warning = if consecutive_losses >= 8 {
        "连续亏损达到 8 单，冷门实验室只允许纸面观察。"
    } else if consecutive_losses >= stop_after {
        "连续亏损达到暂停阈值，建议暂停冷门实验室。"
    } else if candidate_count == 0 {
        "今日无符合条件的冷门候选。"
    } else {
        "冷门实验室为高风险玩法，建议极小仓位或纸面观察。"
    };
    UpsetLabGuard {
        pause_triggered: consecutive_losses >= stop_after,
        paper_only_triggered: consecutive_losses >= 8,
        warning,
    }
}

/// The counters of a scan funnel, in the order the lab lists them.
pub open spec fn funnel_counters() -> Seq<Seq<char>> {
    seq![
        "match_count"@,
        "today_matches_count"@,
        "pre_match_snapshot_count"@,
        "snapshot_count"@,
        "final_snapshot_count"@,
        "latest_snapshot_count"@,
        "odds_available_count"@,
        "odds_match_count"@,
        "odds_missing_count"@,
        "base_odds_band_count"@,
        "cold_draw_scan_count"@,
        "handicap_scan_count"@,
        "score_scan_count"@,
        "model_available_count"@,
        "light_scan_available_count"@,
        "generated_no_odds_scan_count"@,
        "generated_scan_only_count"@,
        "generated_paper_candidate_count"@,
        "generated_tiny_stake_count"@,
        "generated_forbidden_count"@,
        "filtered_by_no_match_count"@,
        "filtered_by_no_model_count"@,
        "filtered_by_no_team_feature_count"@,
        "filtered_by_hard_ban_count"@,
        "filtered_by_internal_error_count"@,
        "hard_ban_count"@,
        "data_insufficient_count"@,
        "missing_odds_count"@,
    ]
}

/// The JSON number zero.
pub open spec fn is_zero(v: JsonValue) -> bool {
    v matches JsonValue::Number(n) && n.text@ == "0"@ && n.integer == Some(0i64)
}

fn zero_json() -> (r: JsonValue)
    ensures
        is_zero(r),
{
    JsonValue::Number(JsonNumber { text: owned("0"), integer: Some(0) })
}

/// The funnel a lab shows before any scan: every counter zero, then an
/// empty reason.
pub open spec fn default_funnel(pairs: Seq<(String, JsonValue)>) -> bool {
    &&& pairs.len() == funnel_counters().len() + 1
    &&& forall|i: int|
        0 <= i < funnel_counters().len() ==> #[trigger] pairs[i].0@ == funnel_counters()[i]
            && is_zero(pairs[i].1)
    &&& pairs.last().0@ == "empty_reason"@
    &&& pairs.last().1 matches JsonValue::Str(e) && e@.len() == 0
}

/// `default_upset_lab_scan_funnel`: the scan funnel with nothing counted.
pub fn default_upset_lab_scan_funnel() -> (r: JsonValue)
    ensures
        r matches JsonValue::Object(pairs) && default_funnel(pairs@),
{
    let keys: [&str; 28] = [
        "match_count",
        "today_matches_count",
        "pre_match_snapshot_count",
        "snapshot_count",
        "final_snapshot_count",
        "latest_snapshot_count",
        "odds_available_count",
        "odds_match_count",
        "odds_missing_count",
        "base_odds_band_count",
        "cold_draw_scan_count",
        "handicap_scan_count",
        "score_scan_count",
        "model_available_count",
        "light_scan_available_count",
        "generated_no_odds_scan_count",
        "generated_scan_only_count",
        "generated_paper_candidate_count",
        "generated_tiny_stake_count",
        "generated_forbidden_count",
        "filtered_by_no_match_count",
        "filtered_by_no_model_count",
        "filtered_by_no_team_feature_count",
        "filtered_by_hard_ban_count",
        "filtered_by_internal_error_count",
        "hard_ban_count",
        "data_insufficient_count",
        "missing_odds_count",
    ];
    assert(keys@.map_values(|k: &str| k@) =~= funnel_counters());
    let mut pairs: Vec<(String, JsonValue)> = Vec::new();
    let mut i: usize = 0;
    while i < 28
        invariant
            i <= 28,
            keys@.map_values(|k: &str| k@) == funnel_counters(),
            pairs@.len() == i,
            forall|j: int|
                0 <= j < i ==> #[trigger] pairs@[j].0@ == funnel_counters()[j] && is_zero(
                    pairs@[j].1,
                ),
        decreases 28 - i,
    {
        assert(keys@.map_values(|k: &str| k@)[i as int] == keys@[i as int]@);
        pairs.push((owned(keys[i]), zero_json()));
        i = i + 1;
    }
    pairs.push((owned("empty_reason"), JsonValue::Str(owned(""))));
    proof {
        reveal_strlit("");
    }
    JsonValue::Object(pairs)
}

/// The default of an upset-lab setting: the lab enabled, paper-only mode,
/// a daily budget of 0.5% (ratio 0.005), and a pause after five losses.
pub open spec fn is_setting_default(key: Seq<char>, v: JsonValue) -> bool {
    if key == "upset_lab_enabled"@ {
        v == JsonValue::Bool(true)
    } else if key == "upset_lab_default_mode"@ {
        v matches JsonValue::Str(t) && t@ == "paper_only"@
    } else if key == "upset_lab_max_daily_budget_pct"@ {
        v matches JsonValue::Number(n) && n.text@ == "0.5"@ && n.integer is None
    } else if key == "upset_lab_max_daily_budget_ratio"@ {
        v matches JsonValue::Number(n) && n.text@ == "0.005"@ && n.integer is None
    } else {
        v matches JsonValue::Number(n) && n.text@ == "5"@ && n.integer == Some(5i64)
    }
}

/// The key, when the members lack it.
pub open spec fn if_absent(pairs: Seq<(String, JsonValue)>, key: Seq<char>) -> Seq<Seq<char>> {
    if member(pairs, key) is None {
        seq![key]
    } else {
        Seq::empty()
    }
}

/// The settings keys that the members lack, in the order defaults are added.
pub open spec fn missing_settings(pairs: Seq<(String, JsonValue)>) -> Seq<Seq<char>> {
    if_absent(pairs, "upset_lab_enabled"@) + if_absent(pairs, "upset_lab_default_mode"@)
        + if_absent(pairs, "upset_lab_max_daily_budget_pct"@) + if_absent(
        pairs,
        "upset_lab_max_daily_budget_ratio"@,
    ) + if_absent(pairs, "upset_lab_stop_after_consecutive_losses"@)
}

/// `tail` holds the defaults of `keys`, one member each, in order.
pub open spec fn defaults_for(tail: Seq<(String, JsonValue)>, keys: Seq<Seq<char>>) -> bool {
    &&& tail.len() == keys.len()
    &&& forall|i: int|
        0 <= i < keys.len() ==> #[trigger] tail[i].0@ == keys[i] && is_setting_default(
            keys[i],
            tail[i].1,
        )
}

/// The members a stored settings value starts from: its own when it is an
/// object, none when it is missing or null.
pub open spec fn stored_members(cached: Option<JsonValue>) -> Seq<(String, JsonValue)> {
    match cached {
        Some(JsonValue::Object(pairs)) => pairs@,
        _ => Seq::empty(),
    }
}

/// The settings keys differ from one another (they differ in length).
proof fn lemma_setting_keys_distinct()
    ensures
        "upset_lab_enabled"@.len() == 17,
        "upset_lab_default_mode"@.len() == 22,
        "upset_lab_max_daily_budget_pct"@.len() == 30,
        "upset_lab_max_daily_budget_ratio"@.len() == 32,
        "upset_lab_stop_after_consecutive_losses"@.len() == 39,
{
    reveal_strlit("upset_lab_enabled");
    reveal_strlit("upset_lab_default_mode");
    reveal_strlit("upset_lab_max_daily_budget_pct");
    reveal_strlit("upset_lab_max_daily_budget_ratio");
    reveal_strlit("upset_lab_stop_after_consecutive_losses");
}

/// Adds a default member when the key was absent.
fn add_default(
    pairs: &mut Vec<(String, JsonValue)>,
    key: &str,
    value: JsonValue,
    absent: bool,
    Ghost(base): Ghost<Seq<(String, JsonValue)>>,
    Ghost(keys): Ghost<Seq<Seq<char>>>,
)
    requires
        old(pairs)@.len() >= base.len(),
        old(pairs)@.take(base.len() as int) == base,
        defaults_for(old(pairs)@.skip(base.len() as int), keys),
        is_setting_default(key@, value),
    ensures
        final(pairs)@.len() >= base.len(),
        final(pairs)@.take(base.len() as int) == base,
        defaults_for(
            final(pairs)@.skip(base.len() as int),
            keys + if absent {
                seq![key@]
            } else {
                Seq::empty()
            },
        ),
{
    let ghost before = pairs@;
    if absent {
        pairs.push((owned(key), value));
        assert(pairs@.take(base.len() as int) =~= before.take(base.len() as int));
        let ghost tail = pairs@.skip(base.len() as int);
        let ghost ks = keys + seq![key@];
        assert forall|i: int| 0 <= i < ks.len() implies #[trigger] tail[i].0@ == ks[i]
            && is_setting_default(ks[i], tail[i].1) by {
            if i < keys.len() {
                assert(tail[i] == before.skip(base.len() as int)[i]);
            } else {
                assert(tail[i] == pairs@[before.len() as int]);
            }
        }
    } else {
        assert(keys + Seq::<Seq<char>>::empty() =~= keys);
    }
}

/// The lab's settings: the stored settings with a default added for each
/// setting they lack; all defaults when nothing is stored.
pub fn upset_lab_settings_with_defaults(cached: Option<JsonValue>) -> (r: JsonValue)
    requires
        cached matches None || cached matches Some(JsonValue::Null) || cached matches Some(
            JsonValue::Object(_),
        ),
    ensures
        r matches JsonValue::Object(out) && out@.len() >= stored_members(cached).len()
            && out@.take(stored_members(cached).len() as int) == stored_members(cached)
            && defaults_for(
            out@.skip(stored_members(cached).len() as int),
            missing_settings(stored_members(cached)),
        ),
{
    let mut pairs: Vec<(String, JsonValue)> = match cached {
        Some(JsonValue::Object(p)) => p,
        _ => Vec::new(),
    };
    let ghost base = pairs@;
    assert(base == stored_members(cached));
    proof {
        lemma_setting_keys_distinct();
    }
    let enabled = get_member(&pairs, "upset_lab_enabled").is_none();
    let mode = get_member(&pairs, "upset_lab_default_mode").is_none();
    let pct = get_member(&pairs, "upset_lab_max_daily_budget_pct").is_none();
    let ratio = get_member(&pairs, "upset_lab_max_daily_budget_ratio").is_none();
    let stop = get_member(&pairs, "upset_lab_stop_after_consecutive_losses").is_none();
    assert(pairs@.take(base.len() as int) =~= base);
    assert(pairs@.skip(base.len() as int) =~= Seq::<(String, JsonValue)>::empty());
    let ghost k0 = Seq::<Seq<char>>::empty();
    add_default(&mut pairs, "upset_lab_enabled", JsonValue::Bool(true), enabled, Ghost(base), Ghost(k0));
    let ghost k1 = k0 + if_absent(base, "upset_lab_enabled"@);
    let mode_value = JsonValue::Str(owned("paper_only"));
    add_default(&mut pairs, "upset_lab_default_mode", mode_value, mode, Ghost(base), Ghost(k1));
    let ghost k2 = k1 + if_absent(base, "upset_lab_default_mode"@);
    let pct_value = JsonValue::Number(JsonNumber { text: owned("0.5"), integer: None });
    add_default(&mut pairs, "upset_lab_max_daily_budget_pct", pct_value, pct, Ghost(base), Ghost(k2));
    let ghost k3 = k2 + if_absent(base, "upset_lab_max_daily_budget_pct"@);
    let ratio_value = JsonValue::Number(JsonNumber { text: owned("0.005"), integer: None });
    add_default(
        &mut pairs,
        "upset_lab_max_daily_budget_ratio",
        ratio_value,
        ratio,
        Ghost(base),
        Ghost(k3),
    );
    let ghost k4 = k3 + if_absent(base, "upset_lab_max_daily_budget_ratio"@);
    let stop_value = JsonValue::Number(JsonNumber { text: owned("5"), integer: Some(5) });
    add_default(
        &mut pairs,
        "upset_lab_stop_after_consecutive_losses",
        stop_value,
        stop,
        Ghost(base),
        Ghost(k4),
    );
    assert(k0 + if_absent(base, "upset_lab_enabled"@) + if_absent(base, "upset_lab_default_mode"@)
        + if_absent(base, "upset_lab_max_daily_budget_pct"@) + if_absent(
        base,
        "upset_lab_max_daily_budget_ratio"@,
    ) + if_absent(base, "upset_lab_stop_after_consecutive_losses"@) =~= missing_settings(base));
    JsonValue::Object(pairs)
}

/// The streak of losses after which the lab pauses: the settings' integer
/// when there is one, five otherwise.
pub open spec fn stop_after_setting(settings: JsonValue) -> i64 {
    match obj_get(Some(settings), "upset_lab_stop_after_consecutive_losses"@) {
        Some(JsonValue::Number(n)) => match n.integer {
            Some(k) => k,
            None => 5,
        },
        _ => 5,
    }
}

/// The lab summary's guard under the lab's settings.
pub fn upset_lab_guard_for(settings: &JsonValue, consecutive_losses: i64, candidate_count: usize) -> (g:
    UpsetLabGuard)
    ensures
        guards(g, consecutive_losses, stop_after_setting(*settings), candidate_count),
{
    let stop_after = match obj_get_exec(Some(settings), "upset_lab_stop_after_consecutive_losses") {
        Some(JsonValue::Number(n)) => match n.integer {
            Some(k) => k,
            None => 5,
        },
        _ => 5,
    };
    upset_lab_guard(consecutive_losses, stop_after, candidate_count)
}

} // verus!
