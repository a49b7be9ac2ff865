//! Classifiers over market labels, picks, stages and decisions: play types,
//! knockout stages, audit severities, pool limits and the keys that tie
//! picks, recommendations and fixtures together.
use vstd::prelude::*;
use crate::numbers::{parse_u32, parse_u32_vec};
use crate::feeds::{obj_get, obj_get_exec, str_of, JsonValue};
use crate::settlement::{is_crs_market, is_had_market, is_hhad_market, is_ttg_market};
use crate::teams::{lowercase_text, to_lowercase};
use crate::text::{
    ascii_lower, ascii_lower_vec, chars_of, contains, contains_str, contains_vec, owned, replace,
    replace_str, split, split_vec, starts_with, starts_with_str, str_eq, string_of, trim,
    trim_vec, views,
};

verus! {

/// `review_play_type`: the play type a review groups a market under.
pub open spec fn review_play_type_spec(m: Seq<char>) -> Seq<char> {
    if is_hhad_market(m) {
        "HHAD"@
    } else if is_ttg_market(m) {
        "TTG"@
    } else if is_crs_market(m) {
        "比分"@
    } else {
        "HAD"@
    }
}

/// The play type under which the daily review groups a market.
pub fn review_play_type(market: &str) -> (r: &'static str)
    ensures
        r@ == review_play_type_spec(market@),
{
    let m = chars_of(market);
    if starts_with_str(&m, "HHAD") || contains_str(&m, "让球") {
        "HHAD"
    } else if starts_with_str(&m, "TTG") || contains_str(&m, "总进球") {
        "TTG"
    } else if starts_with_str(&m, "CRS") || contains_str(&m, "比分") {
        "比分"
    } else {
        "HAD"
    }
}

/// Half-time/full-time market: starts with `HAFU` or mentions `半全场`.
pub open spec fn is_hafu_market(m: Seq<char>) -> bool {
    starts_with(m, "HAFU"@) || contains(m, "半全场"@)
}

/// `upset_lab_play_type`: the upset-lab play type of a market.
pub open spec fn upset_play_type_spec(m: Seq<char>) -> Seq<char> {
    if is_hhad_market(m) {
        "rqspf"@
    } else if is_ttg_market(m) {
        "total_goals"@
    } else if is_crs_market(m) {
        "correct_score"@
    } else if is_hafu_market(m) {
        "half_fulltime"@
    } else if contains(m, "剧本"@) {
        "script"@
    } else {
        "spf"@
    }
}

/// The play type under which the upset lab files a market.
pub fn upset_lab_play_type(market: &str) -> (r: &'static str)
    ensures
        r@ == upset_play_type_spec(market@),
{
    let m = chars_of(market);
    if starts_with_str(&m, "HHAD") || contains_str(&m, "让球") {
        "rqspf"
    } else if starts_with_str(&m, "TTG") || contains_str(&m, "总进球") {
        "total_goals"
    } else if starts_with_str(&m, "CRS") || contains_str(&m, "比分") {
        "correct_score"
    } else if starts_with_str(&m, "HAFU") || contains_str(&m, "半全场") {
        "half_fulltime"
    } else if contains_str(&m, "剧本") {
        "script"
    } else {
        "spf"
    }
}

/// The markers of a knockout stage, matched case-insensitively.
pub open spec fn knockout_markers() -> Seq<Seq<char>> {
    seq![
        "淘汰"@,
        "1/16"@,
        "1/8"@,
        "1/4"@,
        "semifinal"@,
        "semi-final"@,
        "final"@,
        "last_"@,
        "quarter"@,
    ]
}

/// `is_knockout_stage`: the ASCII-lowercased stage contains a marker.
pub open spec fn knockout_stage_spec(stage: Seq<char>) -> bool {
    exists|k: int|
        0 <= k < knockout_markers().len() && contains(
            ascii_lower(stage),
            #[trigger] ascii_lower(knockout_markers()[k]),
        )
}

/// Whether a stage label names a knockout round (`淘汰`, `1/8`, `LAST_16`,
/// `Final`, …).
pub fn is_knockout_stage(stage: &str) -> (r: bool)
    ensures
        r == knockout_stage_spec(stage@),
{
    let s = chars_of(stage);
    let value = ascii_lower_vec(&s);
    let markers = vec!["淘汰", "1/16", "1/8", "1/4", "semifinal", "semi-final", "final", "last_", "quarter"];
    assert(markers@.map_values(|m: &str| m@) =~= knockout_markers());
    let mut k: usize = 0;
    while k < markers.len()
        invariant
            k <= markers.len(),
            markers@.map_values(|m: &str| m@) == knockout_markers(),
            value@ == ascii_lower(stage@),
            forall|j: int|
                0 <= j < k ==> !contains(value@, #[trigger] ascii_lower(knockout_markers()[j])),
        decreases markers.len() - k,
    {
        let mv = chars_of(markers[k]);
        let ml = ascii_lower_vec(&mv);
        assert(knockout_markers()[k as int] == markers@[k as int]@);
        if contains_vec(&value, &ml) {
            return true;
        }
        k = k + 1;
    }
    false
}

/// The words that mark a decision or risk text as banned.
pub open spec fn ban_markers() -> Seq<Seq<char>> {
    seq!["hard_ban"@, "禁买"@, "禁止"@, "跳过"@]
}

/// `upset_lab_hard_ban`: the lowercased text `decision risk` contains a ban
/// marker.
pub open spec fn hard_ban_spec(final_decision: Seq<char>, risk_text: Seq<char>) -> bool {
    let text = lowercase_text(final_decision + " "@ + risk_text);
    exists|k: int| 0 <= k < ban_markers().len() && contains(text, #[trigger] ban_markers()[k])
}

/// Whether a snapshot decision or its risk tags ban a pick from the upset lab.
pub fn upset_lab_hard_ban(final_decision: &str, risk_text: &str) -> (r: bool)
    ensures
        r == hard_ban_spec(final_decision@, risk_text@),
{
    let mut joined = chars_of(final_decision);
    joined.push(' ');
    let rv = chars_of(risk_text);
    let mut i: usize = 0;
    let ghost base = joined@;
    while i < rv.len()
        invariant
            i <= rv.len(),
            joined@ == base + rv@.take(i as int),
        decreases rv.len() - i,
    {
        joined.push(rv[i]);
        assert(rv@.take(i + 1) =~= rv@.take(i as int).push(rv@[i as int]));
        i = i + 1;
    }
    proof {
        reveal_strlit(" ");
        assert(rv@.take(rv.len() as int) =~= rv@);
        assert(joined@ =~= final_decision@ + " "@ + risk_text@);
    }
    let text = string_of(&joined);
    let lower = to_lowercase(text.as_str());
    let l = chars_of(lower.as_str());
    let markers = vec!["hard_ban", "禁买", "禁止", "跳过"];
    assert(markers@.map_values(|m: &str| m@) =~= ban_markers());
    let mut k: usize = 0;
    while k < markers.len()
        invariant
            k <= markers.len(),
            markers@.map_values(|m: &str| m@) == ban_markers(),
            l@ == lowercase_text(final_decision@ + " "@ + risk_text@),
            forall|j: int| 0 <= j < k ==> !contains(l@, #[trigger] ban_markers()[j]),
        decreases markers.len() - k,
    {
        assert(ban_markers()[k as int] == markers@[k as int]@);
        if contains_str(&l, markers[k]) {
            return true;
        }
        k = k + 1;
    }
    false
}

/// Whether an upset-lab decision is a scan made without odds.
pub fn is_no_odds_decision(decision: &str) -> (r: bool)
    ensures
        r == (decision@ == "no_odds_scan"@),
{
    str_eq(decision, "no_odds_scan")
}

/// `upset_pool_limit`: how many candidates an upset pool shows.
pub open spec fn pool_limit(pool: Seq<char>) -> usize {
    if pool == "high_odds_score_pool"@ || pool == "forbidden_upset_pool"@ {
        10
    } else {
        5
    }
}

/// How many candidates of an upset pool are kept: ten for the high-odds
/// score pool and the forbidden pool, five otherwise.
pub fn upset_pool_limit(pool: &str) -> (r: usize)
    ensures
        r == pool_limit(pool@),
{
    if str_eq(pool, "high_odds_score_pool") || str_eq(pool, "forbidden_upset_pool") {
        10
    } else {
        5
    }
}

/// The audit types that make an audit issue critical.
pub open spec fn critical_audit_types() -> Seq<Seq<char>> {
    seq![
        "after_kickoff_snapshot"@,
        "final_snapshot_conflict"@,
        "settlement_overwrite_risk"@,
        "paper_trade_invalid"@,
        "match_id_missing_or_unmatched"@,
    ]
}

/// The audit types that make an audit issue a warning.
pub open spec fn warning_audit_types() -> Seq<Seq<char>> {
    seq![
        "missing_odds"@,
        "missing_model_probs"@,
        "invalid_probability_sum"@,
        "odds_match_id_unmatched"@,
        "api_data_stale"@,
        "lineup_unknown_near_kickoff"@,
    ]
}

/// `audit_severity`: `critical`, `warning` or `info` by audit type.
pub open spec fn audit_severity_spec(t: Seq<char>) -> Seq<char> {
    if critical_audit_types().contains(t) {
        "critical"@
    } else if warning_audit_types().contains(t) {
        "warning"@
    } else {
        "info"@
    }
}

fn member(t: &str, names: &Vec<&str>) -> (b: bool)
    ensures
        b == names@.map_values(|m: &str| m@).contains(t@),
{
    let mut k: usize = 0;
    while k < names.len()
        invariant
            k <= names.len(),
            forall|j: int| 0 <= j < k ==> names@[j]@ != t@,
        decreases names.len() - k,
    {
        if str_eq(t, names[k]) {
            assert(names@.map_values(|m: &str| m@)[k as int] == t@);
            return true;
        }
        k = k + 1;
    }
    false
}

/// The severity of a snapshot audit issue of the given type.
pub fn audit_severity(audit_type: &str) -> (r: &'static str)
    ensures
        r@ == audit_severity_spec(audit_type@),
{
    let critical = vec![
        "after_kickoff_snapshot",
        "final_snapshot_conflict",
        "settlement_overwrite_risk",
        "paper_trade_invalid",
        "match_id_missing_or_unmatched",
    ];
    let warning = vec![
        "missing_odds",
        "missing_model_probs",
        "invalid_probability_sum",
        "odds_match_id_unmatched",
        "api_data_stale",
        "lineup_unknown_near_kickoff",
    ];
    assert(critical@.map_values(|m: &str| m@) =~= critical_audit_types());
    assert(warning@.map_values(|m: &str| m@) =~= warning_audit_types());
    if member(audit_type, &critical) {
        "critical"
    } else if member(audit_type, &warning) {
        "warning"
    } else {
        "info"
    }
}

/// An audit issue: snapshot id, match id, audit type, severity, message.
pub type AuditIssue = (Option<i64>, String, String, String, String);

/// Records an audit issue, with the severity that its type carries.
pub fn add_audit_issue(
    issues: &mut Vec<AuditIssue>,
    snapshot_id: Option<i64>,
    match_id: &str,
    audit_type: &str,
    message: &str,
)
    ensures
        final(issues)@.len() == old(issues)@.len() + 1,
        final(issues)@.take(old(issues)@.len() as int) == old(issues)@,
        ({
            let e = final(issues)@.last();
            &&& e.0 == snapshot_id
            &&& e.1@ == match_id@
            &&& e.2@ == audit_type@
            &&& e.3@ == audit_severity_spec(audit_type@)
            &&& e.4@ == message@
        }),
{
    let severity = audit_severity(audit_type);
    issues.push((snapshot_id, owned(match_id), owned(audit_type), owned(severity), owned(message)));
    assert(final(issues)@.take(old(issues)@.len() as int) =~= old(issues)@);
}

/// `odds_movement_learning_tag`: what an odds move taught, by its direction
/// and whether the pick hit.
pub open spec fn learning_tag_spec(direction: Seq<char>, hit: bool) -> Seq<char> {
    if direction == "降赔"@ {
        if hit {
            "market_support_hit"@
        } else {
            "market_heat_mislead"@
        }
    } else if direction == "升赔"@ {
        if hit {
            "market_reverse_hit"@
        } else {
            "market_risk_warning_effective"@
        }
    } else {
        "market_neutral"@
    }
}

/// Tags an odds movement for review learning: shortening odds that hit
/// supported the market, shortening odds that missed misled it, and so on.
pub fn odds_movement_learning_tag(direction: &str, hit: bool) -> (r: &'static str)
    ensures
        r@ == learning_tag_spec(direction@, hit),
{
    if str_eq(direction, "降赔") {
        if hit {
            "market_support_hit"
        } else {
            "market_heat_mislead"
        }
    } else if str_eq(direction, "升赔") {
        if hit {
            "market_reverse_hit"
        } else {
            "market_risk_warning_effective"
        }
    } else {
        "market_neutral"
    }
}

/// `score_pick_parts`: a correct-score pick `h:a` (or `h-a`) as numbers.
pub open spec fn score_pick_spec(pick: Seq<char>) -> Option<(u32, u32)> {
    let parts = split(replace(pick, "-"@, ":"@), seq![':']);
    if parts.len() != 2 {
        None
    } else {
        match (parse_u32(trim(parts[0])), parse_u32(trim(parts[1]))) {
            (Some(h), Some(a)) => Some((h, a)),
            _ => None,
        }
    }
}

/// The goals of a correct-score pick written `h:a` or `h-a`.
pub fn score_pick_parts(pick: &str) -> (r: Option<(u32, u32)>)
    ensures
        r == score_pick_spec(pick@),
{
    let p = chars_of(pick);
    let normalized = replace_str(&p, "-", ":");
    let sep = vec![':'];
    assert(sep@ =~= seq![':']);
    let parts = split_vec(&normalized, &sep);
    if parts.len() != 2 {
        return None;
    }
    assert(views(parts@)[0] == parts@[0]@ && views(parts@)[1] == parts@[1]@);
    let left = trim_vec(&parts[0]);
    let right = trim_vec(&parts[1]);
    match (parse_u32_vec(&left), parse_u32_vec(&right)) {
        (Some(h), Some(a)) => Some((h, a)),
        _ => None,
    }
}

/// `ttg_pick_total`: a total-goals pick with `球` and `+` removed, trimmed,
/// read as a number.
pub open spec fn ttg_total_spec(pick: Seq<char>) -> Option<u32> {
    parse_u32(trim(replace(replace(pick, "球"@, ""@), "+"@, ""@)))
}

/// The number of goals a total-goals pick such as `3球` or `7+球` names.
pub fn ttg_pick_total(pick: &str) -> (r: Option<u32>)
    ensures
        r == ttg_total_spec(pick@),
{
    let p = chars_of(pick);
    let a = replace_str(&p, "球", "");
    let b = replace_str(&a, "+", "");
    let c = trim_vec(&b);
    parse_u32_vec(&c)
}

/// `paper_consecutive_losses`: how many of the latest settled paper trades,
/// newest first, were lost (outcome `0`) before the first that was not.
pub open spec fn losing_streak(outcomes: Seq<i64>) -> nat
    decreases outcomes.len(),
{
    if outcomes.len() == 0 || outcomes[0] != 0 {
        0
    } else {
        1 + losing_streak(outcomes.drop_first())
    }
}

/// The current losing streak of a paper-trading source, from its settled
/// outcomes newest first (`1` hit, `0` miss, `-1` unknown).
pub fn paper_consecutive_losses(outcomes: &[i64]) -> (r: i64)
    requires
        outcomes@.len() <= i64::MAX,
    ensures
        r == losing_streak(outcomes@),
{
    let mut losses: i64 = 0;
    let mut i: usize = 0;
    assert(outcomes@.skip(0) =~= outcomes@);
    while i < outcomes.len() && outcomes[i] == 0
        invariant
            i <= outcomes@.len() <= i64::MAX,
            losses == i,
            losing_streak(outcomes@) == i + losing_streak(outcomes@.skip(i as int)),
        decreases outcomes@.len() - i,
    {
        assert(outcomes@.skip(i as int).drop_first() =~= outcomes@.skip(i + 1));
        losses = losses + 1;
        i = i + 1;
    }
    losses
}

/// The market label a play type stands for when a trigger names none.
pub open spec fn play_type_market(play_type: Seq<char>) -> Seq<char> {
    if play_type == "rqspf"@ {
        "HHAD 让球胜平负"@
    } else if play_type == "total_goals"@ {
        "TTG 总进球"@
    } else if play_type == "correct_score"@ {
        "CRS 比分"@
    } else if play_type == "half_fulltime"@ {
        "HAFU 半全场"@
    } else {
        "HAD 胜平负"@
    }
}

/// `market_from_upset_trigger`: the trigger's own `market` text, else the
/// market of its play type.
pub open spec fn trigger_market(trigger: JsonValue, play_type: Seq<char>) -> Seq<char> {
    match str_of(obj_get(Some(trigger), "market"@)) {
        Some(m) => m,
        None => play_type_market(play_type),
    }
}

/// The market an upset-lab trigger is about.
pub fn market_from_upset_trigger(trigger: &JsonValue, play_type: &str) -> (r: String)
    ensures
        r@ == trigger_market(*trigger, play_type@),
{
    match obj_get_exec(Some(trigger), "market") {
        Some(JsonValue::Str(m)) => m.clone(),
        _ => {
            if str_eq(play_type, "rqspf") {
                owned("HHAD 让球胜平负")
            } else if str_eq(play_type, "total_goals") {
                owned("TTG 总进球")
            } else if str_eq(play_type, "correct_score") {
                owned("CRS 比分")
            } else if str_eq(play_type, "half_fulltime") {
                owned("HAFU 半全场")
            } else {
                owned("HAD 胜平负")
            }
        },
    }
}

} // verus!
