//! Automatic settlement: which stored predictions and frozen recommendations
//! a list of final results settles, and what each is settled to.
use vstd::prelude::*;
use crate::fixtures::{
    candidate_views, infer_prediction_market_from_candidates, inferred_market, PredictionTarget,
};
use crate::numbers::{decimal, decimal_vec};
use crate::results::result_views;
use crate::settlement::{parse_score, pick_hit_from_result, score_parse, settle, settle_admits, MatchResult};
use crate::teams::{result_matches_label, result_matches_prediction};
use crate::text::{chars_of, contains_str, lemma_trim_noop, owned, push_all, starts_with_str, str_eq, string_of, trim, trim_vec, is_ws};

verus! {

/// The first result whose teams match a `home vs away` label.
pub open spec fn first_match(results: Seq<MatchResult>, label: Seq<char>) -> Option<int>
    decreases results.len(),
{
    if results.len() == 0 {
        None
    } else if result_matches_label(results[0].home@, results[0].away@, label) {
        Some(0)
    } else {
        match first_match(results.drop_first(), label) {
            Some(i) => Some(i + 1),
            None => None,
        }
    }
}

/// An optional `usize` index as a spec index.
pub open spec fn opt_usize(o: Option<usize>) -> Option<int> {
    match o {
        Some(i) => Some(i as int),
        None => None,
    }
}

/// The index of the first result that belongs to the labelled fixture.
pub fn first_matching_result(results: &[MatchResult], label: &str) -> (r: Option<usize>)
    ensures
        opt_usize(r) == first_match(results@, label@),
        r matches Some(i) ==> i < results@.len(),
{
    let mut i: usize = 0;
    assert(results@.skip(0) =~= results@);
    while i < results.len()
        invariant
            i <= results@.len(),
            first_match(results@, label@) == match first_match(results@.skip(i as int), label@) {
                Some(k) => Some(k + i),
                None => None,
            },
        decreases results@.len() - i,
    {
        let ghost rest = results@.skip(i as int);
        assert(rest[0] == results@[i as int]);
        assert(rest.drop_first() =~= results@.skip(i + 1));
        if result_matches_prediction(&results[i], label) {
            return Some(i);
        }
        i = i + 1;
    }
    None
}

/// The result text a settlement writes: `命中` for a hit, `未中` otherwise.
pub open spec fn outcome_text(hit: bool) -> Seq<char> {
    if hit {
        "命中"@
    } else {
        "未中"@
    }
}

/// A stored prediction awaiting (re-)settlement.
#[derive(Clone, Debug, PartialEq, Eq)]
pub struct PredictionToSettle {
    pub id: Option<i64>,
    pub match_label: String,
    pub market: String,
    pub pick: String,
    pub actual_result: Option<String>,
}

/// What automatic settlement does with one prediction.
pub enum Decision {
    /// The prediction has no id.
    NoId,
    /// No result belongs to its fixture.
    Unmatched,
    /// Its market cannot be settled.
    Unsupported,
    /// Settled for the first time.
    Fresh(bool),
    /// Already settled to the same result.
    Same,
    /// Already settled to another result: corrected.
    Correct(bool),
}

/// The optional stored result as text.
pub open spec fn stored_result(r: Option<String>) -> Option<Seq<char>> {
    match r {
        Some(s) => Some(s@),
        None => None,
    }
}

/// Settling one stored prediction, given what is stored as its result: find its result, infer the handicap line of an old market, settle
/// the pick, and compare with what was stored.
pub open spec fn decide_view(
    id: Option<i64>,
    label: Seq<char>,
    market: Seq<char>,
    pick: Seq<char>,
    stored: Option<Seq<char>>,
    results: Seq<MatchResult>,
    candidates: Seq<(Seq<char>, Seq<char>, Seq<char>)>,
) -> Decision {
    if id is None {
        Decision::NoId
    } else {
        match first_match(results, label) {
            None => Decision::Unmatched,
            Some(i) => {
                let m = inferred_market(label, market, candidates);
                match settle(m, pick, results[i].score@) {
                    None => Decision::Unsupported,
                    Some((hit, _)) => {
                        let text = match stored {
                            Some(s) => s,
                            None => Seq::<char>::empty(),
                        };
                        if trim(text).len() != 0 {
                            if stored == Some(outcome_text(hit)) {
                                Decision::Same
                            } else {
                                Decision::Correct(hit)
                            }
                        } else {
                            Decision::Fresh(hit)
                        }
                    },
                }
            },
        }
    }
}

/// The decision for a stored prediction.
pub open spec fn decide(
    rec: PredictionToSettle,
    results: Seq<MatchResult>,
    candidates: Seq<(Seq<char>, Seq<char>, Seq<char>)>,
) -> Decision {
    decide_view(
        rec.id,
        rec.match_label@,
        rec.market@,
        rec.pick@,
        stored_result(rec.actual_result),
        results,
        candidates,
    )
}

/// Settlement is idempotent: once a prediction is stored with the result
/// that settlement gives it, the next settlement against the same results
/// leaves it alone.
pub proof fn law_settlement_is_idempotent(
    id: Option<i64>,
    label: Seq<char>,
    market: Seq<char>,
    pick: Seq<char>,
    stored: Option<Seq<char>>,
    results: Seq<MatchResult>,
    candidates: Seq<(Seq<char>, Seq<char>, Seq<char>)>,
)
    ensures
        match decide_view(id, label, market, pick, stored, results, candidates) {
            Decision::Fresh(hit) => decide_view(
                id,
                label,
                market,
                pick,
                Some(outcome_text(hit)),
                results,
                candidates,
            ) is Same,
            Decision::Correct(hit) => decide_view(
                id,
                label,
                market,
                pick,
                Some(outcome_text(hit)),
                results,
                candidates,
            ) is Same,
            _ => true,
        },
{
    reveal_strlit("命中");
    reveal_strlit("未中");
    let a = "命中"@;
    let b = "未中"@;
    assert(!is_ws(a[0]) && !is_ws(a[a.len() - 1]));
    assert(!is_ws(b[0]) && !is_ws(b[b.len() - 1]));
    lemma_trim_noop(a);
    lemma_trim_noop(b);
}

/// One prediction to update: its position in the list, its id, whether it
/// hit, and the result text to store.
#[derive(Clone, Debug, PartialEq, Eq)]
pub struct SettlementUpdate {
    pub index: usize,
    pub id: i64,
    pub hit: bool,
    pub result_text: String,
}

/// The outcome of planning an automatic settlement.
#[derive(Clone, Debug, PartialEq, Eq)]
pub struct SettlementPlan {
    pub updates: Vec<SettlementUpdate>,
    pub settled: u64,
    pub already_settled: u64,
    pub corrected: u64,
    pub unmatched_results: u64,
    pub unsupported_markets: u64,
}

/// An update as `(index, id, hit, result text)`.
pub type UpdateFields = (int, i64, bool, Seq<char>);

/// The updates that the first `records.len()` decisions call for, in order.
pub open spec fn planned_updates(
    records: Seq<PredictionToSettle>,
    results: Seq<MatchResult>,
    candidates: Seq<(Seq<char>, Seq<char>, Seq<char>)>,
) -> Seq<UpdateFields>
    decreases records.len(),
{
    if records.len() == 0 {
        Seq::empty()
    } else {
        let prev = planned_updates(records.drop_last(), results, candidates);
        let k = records.len() - 1;
        match decide(records.last(), results, candidates) {
            Decision::Fresh(hit) => prev.push((k, records.last().id->0, hit, outcome_text(hit))),
            Decision::Correct(hit) => prev.push((k, records.last().id->0, hit, outcome_text(hit))),
            _ => prev,
        }
    }
}

/// How many of the records get a decision that satisfies `f`.
pub open spec fn count_decisions(
    records: Seq<PredictionToSettle>,
    results: Seq<MatchResult>,
    candidates: Seq<(Seq<char>, Seq<char>, Seq<char>)>,
    f: spec_fn(Decision) -> bool,
) -> nat
    decreases records.len(),
{
    if records.len() == 0 {
        0
    } else {
        count_decisions(records.drop_last(), results, candidates, f) + if f(
            decide(records.last(), results, candidates),
        ) {
            1nat
        } else {
            0nat
        }
    }
}

pub open spec fn is_fresh(d: Decision) -> bool {
    d is Fresh
}

pub open spec fn is_already(d: Decision) -> bool {
    d is Same || d is Correct
}

pub open spec fn is_correct(d: Decision) -> bool {
    d is Correct
}

pub open spec fn is_unmatched(d: Decision) -> bool {
    d is Unmatched
}

pub open spec fn is_unsupported(d: Decision) -> bool {
    d is Unsupported
}

/// A stored prediction can be settled without the total-goals addition
/// overflowing: it has no id, no result, or its (inferred) market admits the
/// score of its result.
pub open spec fn prediction_admitted(
    rec: PredictionToSettle,
    results: Seq<MatchResult>,
    candidates: Seq<(Seq<char>, Seq<char>, Seq<char>)>,
) -> bool {
    rec.id is Some ==> match first_match(results, rec.match_label@) {
        Some(i) => settle_admits(
            inferred_market(rec.match_label@, rec.market@, candidates),
            results[i].score@,
        ),
        None => true,
    }
}

/// A recommendation can be settled without the total-goals addition
/// overflowing.
pub open spec fn recommendation_admitted(r: RecommendationToSettle, results: Seq<MatchResult>) -> bool {
    match first_match(results, r.match_label@) {
        Some(i) => settle_admits(r.market@, results[i].score@),
        None => true,
    }
}

/// Whether settling a pick of `market` against `score` adds within `u32`.
pub fn settle_admitted(market: &str, score: &str) -> (b: bool)
    ensures
        b == settle_admits(market@, score@),
{
    match parse_score(score) {
        Some((h, a)) => {
            let m = chars_of(market);
            let hhad = starts_with_str(&m, "HHAD") || contains_str(&m, "让球");
            let had = starts_with_str(&m, "HAD") || contains_str(&m, "胜平负");
            let ttg = starts_with_str(&m, "TTG") || contains_str(&m, "总进球");
            !(!hhad && !had && ttg) || (h as u64 + a as u64 <= 0xffff_ffff)
        },
        None => true,
    }
}

/// Whether every stored prediction can be settled without overflow.
pub fn predictions_admitted(
    records: &[PredictionToSettle],
    results: &[MatchResult],
    candidates: &[(String, String, String)],
) -> (b: bool)
    ensures
        b == forall|k: int|
            0 <= k < records@.len() ==> prediction_admitted(
                #[trigger] records@[k],
                results@,
                candidate_views(candidates@),
            ),
{
    let mut k: usize = 0;
    while k < records.len()
        invariant
            k <= records@.len(),
            forall|j: int|
                0 <= j < k ==> prediction_admitted(#[trigger] records@[j], results@, candidate_views(candidates@)),
        decreases records@.len() - k,
    {
        let rec = &records[k];
        if rec.id.is_some() {
            match first_matching_result(results, rec.match_label.as_str()) {
                Some(i) => {
                    let target = PredictionTarget {
                        match_label: rec.match_label.clone(),
                        market: rec.market.clone(),
                        pick: rec.pick.clone(),
                    };
                    let market = infer_prediction_market_from_candidates(&target, candidates);
                    if !settle_admitted(market.as_str(), results[i].score.as_str()) {
                        return false;
                    }
                },
                None => {},
            }
        }
        k = k + 1;
    }
    true
}

/// Whether every recommendation can be settled without overflow.
pub fn recommendations_admitted(rows: &[RecommendationToSettle], results: &[MatchResult]) -> (b: bool)
    ensures
        b == forall|k: int| 0 <= k < rows@.len() ==> recommendation_admitted(#[trigger] rows@[k], results@),
{
    let mut k: usize = 0;
    while k < rows.len()
        invariant
            k <= rows@.len(),
            forall|j: int| 0 <= j < k ==> recommendation_admitted(#[trigger] rows@[j], results@),
        decreases rows@.len() - k,
    {
        match first_matching_result(results, rows[k].match_label.as_str()) {
            Some(i) => {
                if !settle_admitted(rows[k].market.as_str(), results[i].score.as_str()) {
                    return false;
                }
            },
            None => {},
        }
        k = k + 1;
    }
    true
}

/// The views of a list of updates.
pub open spec fn update_views(v: Seq<SettlementUpdate>) -> Seq<UpdateFields> {
    v.map_values(|u: SettlementUpdate| (u.index as int, u.id, u.hit, u.result_text@))
}

fn decide_exec(
    rec: &PredictionToSettle,
    results: &[MatchResult],
    candidates: &[(String, String, String)],
) -> (d: Decision)
    requires
        prediction_admitted(*rec, results@, candidate_views(candidates@)),
    ensures
        d == decide(*rec, results@, candidate_views(candidates@)),
{
    if rec.id.is_none() {
        return Decision::NoId;
    }
    let i = match first_matching_result(results, rec.match_label.as_str()) {
        Some(i) => i,
        None => {
            return Decision::Unmatched;
        },
    };
    let target = PredictionTarget {
        match_label: rec.match_label.clone(),
        market: rec.market.clone(),
        pick: rec.pick.clone(),
    };
    let market = infer_prediction_market_from_candidates(&target, candidates);
    let hit = match pick_hit_from_result(market.as_str(), rec.pick.as_str(), &results[i]) {
        Some((hit, _)) => hit,
        None => {
            return Decision::Unsupported;
        },
    };
    let new_text: &str = if hit {
        "命中"
    } else {
        "未中"
    };
    let stored: String = match &rec.actual_result {
        Some(s) => s.clone(),
        None => String::new(),
    };
    let sv = chars_of(stored.as_str());
    let st = trim_vec(&sv);
    if st.len() != 0 {
        if str_eq(stored.as_str(), new_text) {
            Decision::Same
        } else {
            Decision::Correct(hit)
        }
    } else {
        Decision::Fresh(hit)
    }
}

/// A settlement plan for the predictions: the updates to write, and how many
/// predictions were settled, already settled, corrected, without a result
/// and with a market that does not settle.
pub open spec fn plan_is(
    p: SettlementPlan,
    records: Seq<PredictionToSettle>,
    results: Seq<MatchResult>,
    cv: Seq<(Seq<char>, Seq<char>, Seq<char>)>,
) -> bool {
    &&& update_views(p.updates@) == planned_updates(records, results, cv)
    &&& p.settled == count_decisions(records, results, cv, |d| is_fresh(d))
    &&& p.already_settled == count_decisions(records, results, cv, |d| is_already(d))
    &&& p.corrected == count_decisions(records, results, cv, |d| is_correct(d))
    &&& p.unmatched_results == count_decisions(records, results, cv, |d| is_unmatched(d))
    &&& p.unsupported_markets == count_decisions(records, results, cv, |d| is_unsupported(d))
}

/// Plans the automatic settlement of stored predictions against final
/// results: each prediction with an id is settled by the first result of
/// its fixture (handicap markets stored without a line take the line of a
/// matching recommendation); predictions already settled to the same result
/// are left alone, others are corrected; the counters say how many went
/// each way.
pub fn plan_prediction_settlement(
    records: &[PredictionToSettle],
    results: &[MatchResult],
    candidates: &[(String, String, String)],
) -> (p: SettlementPlan)
    requires
        forall|k: int|
            0 <= k < records@.len() ==> prediction_admitted(
                #[trigger] records@[k],
                results@,
                candidate_views(candidates@),
            ),
        records@.len() < u64::MAX,
    ensures
        plan_is(p, records@, results@, candidate_views(candidates@)),
{
    let ghost cv = candidate_views(candidates@);
    let mut updates: Vec<SettlementUpdate> = Vec::new();
    let mut settled: u64 = 0;
    let mut already: u64 = 0;
    let mut corrected: u64 = 0;
    let mut unmatched: u64 = 0;
    let mut unsupported: u64 = 0;
    let mut k: usize = 0;
    assert(records@.take(0) =~= Seq::<PredictionToSettle>::empty());
    while k < records.len()
        invariant
            k <= records@.len() < u64::MAX,
            cv == candidate_views(candidates@),
            forall|j: int| 0 <= j < records@.len() ==> prediction_admitted(#[trigger] records@[j], results@, cv),
            update_views(updates@) == planned_updates(records@.take(k as int), results@, cv),
            settled == count_decisions(records@.take(k as int), results@, cv, |d| is_fresh(d)),
            already == count_decisions(records@.take(k as int), results@, cv, |d| is_already(d)),
            corrected == count_decisions(records@.take(k as int), results@, cv, |d| is_correct(d)),
            unmatched == count_decisions(records@.take(k as int), results@, cv, |d| is_unmatched(d)),
            unsupported == count_decisions(records@.take(k as int), results@, cv, |d| is_unsupported(d)),
            settled <= k && already <= k && corrected <= k && unmatched <= k && unsupported <= k,
        decreases records@.len() - k,
    {
        let ghost t = records@.take(k + 1);
        assert(t.drop_last() =~= records@.take(k as int));
        assert(t.last() == records@[k as int]);
        let rec = &records[k];
        let d = decide_exec(rec, results, candidates);
        let ghost before = updates@;
        match d {
            Decision::NoId => {},
            Decision::Unmatched => {
                unmatched = unmatched + 1;
            },
            Decision::Unsupported => {
                unsupported = unsupported + 1;
            },
            Decision::Fresh(hit) => {
                let id = rec.id.unwrap();
                let text = if hit {
                    owned("命中")
                } else {
                    owned("未中")
                };
                updates.push(SettlementUpdate { index: k, id, hit, result_text: text });
                assert(update_views(updates@) =~= update_views(before).push(
                    (k as int, id, hit, outcome_text(hit)),
                ));
                settled = settled + 1;
            },
            Decision::Same => {
                already = already + 1;
            },
            Decision::Correct(hit) => {
                let id = rec.id.unwrap();
                let text = if hit {
                    owned("命中")
                } else {
                    owned("未中")
                };
                updates.push(SettlementUpdate { index: k, id, hit, result_text: text });
                assert(update_views(updates@) =~= update_views(before).push(
                    (k as int, id, hit, outcome_text(hit)),
                ));
                already = already + 1;
                corrected = corrected + 1;
            },
        }
        k = k + 1;
    }
    assert(records@.take(records@.len() as int) =~= records@);
    SettlementPlan {
        updates,
        settled,
        already_settled: already,
        corrected,
        unmatched_results: unmatched,
        unsupported_markets: unsupported,
    }
}

/// The summary message of an automatic settlement.
pub open spec fn plan_message(settled: nat, corrected: nat, unmatched: nat, unsupported: nat) -> Seq<
    char,
> {
    "自动结算 "@ + decimal(settled) + " 条；修正历史结算 "@ + decimal(corrected) + " 条；未匹配赛果 "@
        + decimal(unmatched) + " 条；玩法暂不支持 "@ + decimal(unsupported) + " 条"@
}

fn push_str(v: &mut Vec<char>, s: &str)
    ensures
        final(v)@ == old(v)@ + s@,
{
    let c = chars_of(s);
    push_all(v, &c);
}

fn push_num(v: &mut Vec<char>, n: u64)
    ensures
        final(v)@ == old(v)@ + decimal(n as nat),
{
    let d = decimal_vec(n);
    push_all(v, &d);
}

/// The message that reports a settlement plan.
pub fn settlement_message(p: &SettlementPlan) -> (r: String)
    ensures
        r@ == plan_message(
            p.settled as nat,
            p.corrected as nat,
            p.unmatched_results as nat,
            p.unsupported_markets as nat,
        ),
{
    let mut v: Vec<char> = Vec::new();
    push_str(&mut v, "自动结算 ");
    push_num(&mut v, p.settled);
    push_str(&mut v, " 条；修正历史结算 ");
    push_num(&mut v, p.corrected);
    push_str(&mut v, " 条；未匹配赛果 ");
    push_num(&mut v, p.unmatched_results);
    push_str(&mut v, " 条；玩法暂不支持 ");
    push_num(&mut v, p.unsupported_markets);
    push_str(&mut v, " 条");
    assert(v@ =~= plan_message(
        p.settled as nat,
        p.corrected as nat,
        p.unmatched_results as nat,
        p.unsupported_markets as nat,
    ));
    string_of(&v)
}

/// A frozen recommendation awaiting its result.
#[derive(Clone, Debug, PartialEq, Eq)]
pub struct RecommendationToSettle {
    pub recommendation_id: i64,
    pub match_label: String,
    pub market: String,
    pub pick: String,
}

/// One settled recommendation: its id, the index of its result, whether it
/// hit, and the actual outcome.
#[derive(Clone, Debug, PartialEq, Eq)]
pub struct RecommendationSettlement {
    pub recommendation_id: i64,
    pub result_index: usize,
    pub hit: bool,
    pub actual_outcome: String,
}

/// A recommendation settlement as `(id, result index, hit, actual outcome)`.
pub type RecSettlementFields = (i64, int, bool, Seq<char>);

/// The settlements of stored recommendations: every recommendation whose
/// fixture has a result and whose market settles, in order.
pub open spec fn recommendation_settlements(
    rows: Seq<RecommendationToSettle>,
    results: Seq<MatchResult>,
) -> Seq<RecSettlementFields>
    decreases rows.len(),
{
    if rows.len() == 0 {
        Seq::empty()
    } else {
        let prev = recommendation_settlements(rows.drop_last(), results);
        let r = rows.last();
        match first_match(results, r.match_label@) {
            None => prev,
            Some(i) => match settle(r.market@, r.pick@, results[i].score@) {
                None => prev,
                Some((hit, act)) => prev.push((r.recommendation_id, i, hit, act)),
            },
        }
    }
}

/// The views of a list of recommendation settlements.
pub open spec fn rec_settlement_views(v: Seq<RecommendationSettlement>) -> Seq<RecSettlementFields> {
    v.map_values(
        |s: RecommendationSettlement| (s.recommendation_id, s.result_index as int, s.hit, s.actual_outcome@),
    )
}

/// Settles frozen recommendations against final results: each one whose
/// fixture has a result (the first that matches its label) and whose market
/// settles.
pub fn settle_recommendations_with_results(
    rows: &[RecommendationToSettle],
    results: &[MatchResult],
) -> (r: Vec<RecommendationSettlement>)
    requires
        forall|k: int| 0 <= k < rows@.len() ==> recommendation_admitted(#[trigger] rows@[k], results@),
    ensures
        rec_settlement_views(r@) == recommendation_settlements(rows@, results@),
{
    let mut out: Vec<RecommendationSettlement> = Vec::new();
    let mut k: usize = 0;
    assert(rows@.take(0) =~= Seq::<RecommendationToSettle>::empty());
    while k < rows.len()
        invariant
            k <= rows@.len(),
            forall|j: int| 0 <= j < rows@.len() ==> recommendation_admitted(#[trigger] rows@[j], results@),
            rec_settlement_views(out@) == recommendation_settlements(rows@.take(k as int), results@),
        decreases rows@.len() - k,
    {
        let ghost t = rows@.take(k + 1);
        assert(t.drop_last() =~= rows@.take(k as int));
        assert(t.last() == rows@[k as int]);
        let row = &rows[k];
        match first_matching_result(results, row.match_label.as_str()) {
            Some(i) => {
                assert(recommendation_admitted(rows@[k as int], results@));
                match pick_hit_from_result(row.market.as_str(), row.pick.as_str(), &results[i]) {
                    Some((hit, actual)) => {
                        let ghost before = out@;
                        let s = RecommendationSettlement {
                            recommendation_id: row.recommendation_id,
                            result_index: i,
                            hit,
                            actual_outcome: actual,
                        };
                        out.push(s);
                        assert(rec_settlement_views(out@) =~= rec_settlement_views(before).push(
                            (s.recommendation_id, i as int, hit, s.actual_outcome@),
                        ));
                    },
                    None => {},
                }
            },
            None => {},
        }
        k = k + 1;
    }
    assert(rows@.take(rows@.len() as int) =~= rows@);
    out
}

/// Plans the settlement of stored predictions when none of them would
/// overflow the total-goals addition; `None` when one would.
pub fn plan_prediction_settlement_checked(
    records: &[PredictionToSettle],
    results: &[MatchResult],
    candidates: &[(String, String, String)],
) -> (r: Option<SettlementPlan>)
    requires
        records@.len() < u64::MAX,
    ensures
        r is None <==> !(forall|k: int|
            0 <= k < records@.len() ==> prediction_admitted(
                #[trigger] records@[k],
                results@,
                candidate_views(candidates@),
            )),
        r matches Some(p) ==> plan_is(p, records@, results@, candidate_views(candidates@)),
{
    if predictions_admitted(records, results, candidates) {
        Some(plan_prediction_settlement(records, results, candidates))
    } else {
        None
    }
}

/// Settles frozen recommendations when none of them would overflow the
/// total-goals addition; `None` when one would.
pub fn settle_recommendations_checked(rows: &[RecommendationToSettle], results: &[MatchResult]) -> (r:
    Option<Vec<RecommendationSettlement>>)
    ensures
        r is None <==> !(forall|k: int|
            0 <= k < rows@.len() ==> recommendation_admitted(#[trigger] rows@[k], results@)),
        r matches Some(v) ==> rec_settlement_views(v@) == recommendation_settlements(rows@, results@),
{
    if recommendations_admitted(rows, results) {
        Some(settle_recommendations_with_results(rows, results))
    } else {
        None
    }
}

} // verus!
