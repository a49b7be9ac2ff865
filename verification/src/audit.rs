//! The pre-match snapshot audit: which issues each snapshot raises, which
//! fixtures hold more than one final snapshot, and whether invalid live
//! paper trades exist.
use vstd::prelude::*;
use crate::markets::{add_audit_issue, audit_severity_spec, AuditIssue};
use crate::snapshot::{
    kickoff_after, kickoff_is_future, lemma_text_before_trans, sorted_distinct_texts,
    strictly_sorted, text_before,
};
use crate::text::{chars_of, str_eq, string_views, trim, trim_vec};

verus! {

/// What the audit knows of one snapshot: its own fields, and the counts and
/// checks that the caller gathered for it.
pub struct SnapshotAuditFacts {
    pub snapshot_id: i64,
    pub match_id: String,
    pub kickoff_time: String,
    pub snapshot_time: String,
    pub created_before_kickoff: bool,
    pub is_final_pre_match: bool,
    /// Result rows linked to the snapshot by match id or by team names.
    pub linked_results: i64,
    /// Odds records stored under the snapshot's match id.
    pub odds_records: i64,
    /// The length of the frozen odds list; `None` when it is not a list.
    pub odds_items: Option<usize>,
    /// The length of the frozen model probabilities; `None` when not a list.
    pub model_prob_items: Option<usize>,
    /// Whether the frozen expected values are a list.
    pub ev_is_list: bool,
    /// The 1X2 model probabilities add up to more than 0.08 away from one.
    pub probability_sum_off: bool,
    /// The snapshot has no positive data quality score.
    pub quality_missing: bool,
    /// The snapshot has been settled.
    pub settled: bool,
}

/// An issue as plain values: snapshot id, match id, type, severity, message.
pub type IssueView = (Option<i64>, Seq<char>, Seq<char>, Seq<char>, Seq<char>);

/// The view of an issue.
pub open spec fn issue_view(i: AuditIssue) -> IssueView {
    (i.0, i.1@, i.2@, i.3@, i.4@)
}

/// The views of a list of issues.
pub open spec fn issue_views(v: Seq<AuditIssue>) -> Seq<IssueView> {
    v.map_values(|i: AuditIssue| issue_view(i))
}

/// An issue of the given type, with the severity the type carries.
#[verifier::opaque]
pub open spec fn issue(id: Option<i64>, match_id: Seq<char>, audit_type: Seq<char>, message: Seq<char>) -> IssueView {
    (id, match_id, audit_type, audit_severity_spec(audit_type), message)
}

/// An issue when the condition holds, nothing otherwise.
pub open spec fn issue_if(
    cond: bool,
    id: Option<i64>,
    match_id: Seq<char>,
    audit_type: Seq<char>,
    message: Seq<char>,
) -> Seq<IssueView> {
    if cond {
        seq![issue(id, match_id, audit_type, message)]
    } else {
        Seq::empty()
    }
}

/// A list is missing or empty.
pub open spec fn missing_or_empty(items: Option<usize>) -> bool {
    match items {
        Some(n) => n == 0,
        None => true,
    }
}

/// The snapshot cannot be tied to a fixture: a blank match id, or no linked
/// row at all (the snapshot's own id counting as one link).
pub open spec fn unlinked(f: SnapshotAuditFacts) -> bool {
    let blank = trim(f.match_id@).len() == 0;
    blank || f.linked_results + (if blank { 0int } else { 1int }) == 0
}

/// The frozen fields of a settled snapshot are no longer all lists.
pub open spec fn frozen_fields_broken(f: SnapshotAuditFacts) -> bool {
    f.settled && !(f.model_prob_items is Some && f.odds_items is Some && f.ev_is_list)
}

/// The issues include one of the given type.
pub open spec fn has_issue_type(issues: Seq<IssueView>, audit_type: Seq<char>) -> bool {
    exists|k: int| 0 <= k < issues.len() && #[trigger] issues[k].2 == audit_type
}

/// The issues that one snapshot raises, in audit order.
pub open spec fn snapshot_issues(f: SnapshotAuditFacts) -> Seq<IssueView> {
    timing_issues(f) + content_issues(f)
}

/// The issues of every snapshot, in order.
pub open spec fn all_snapshot_issues(facts: Seq<SnapshotAuditFacts>) -> Seq<IssueView>
    decreases facts.len(),
{
    if facts.len() == 0 {
        Seq::empty()
    } else {
        all_snapshot_issues(facts.drop_last()) + snapshot_issues(facts.last())
    }
}

/// How many final snapshots a fixture has.
pub open spec fn final_count(facts: Seq<SnapshotAuditFacts>, match_id: Seq<char>) -> nat
    decreases facts.len(),
{
    if facts.len() == 0 {
        0
    } else {
        final_count(facts.drop_last(), match_id) + if facts.last().is_final_pre_match
            && facts.last().match_id@ == match_id {
            1nat
        } else {
            0nat
        }
    }
}

/// The issue of a fixture with more than one final snapshot.
pub open spec fn conflict_issue(match_id: Seq<char>) -> IssueView {
    issue(None, match_id, "final_snapshot_conflict"@, "同一场比赛存在多个 final snapshot。"@)
}

/// The issue raised when invalid live paper trades exist.
pub open spec fn paper_issue() -> IssueView {
    issue(None, "live_pre_match"@, "paper_trade_invalid"@, "存在非赛前创建的 live_pre_match 纸面交易。"@)
}

/// How many issues have the given severity.
pub open spec fn severity_count(issues: Seq<IssueView>, severity: Seq<char>) -> nat
    decreases issues.len(),
{
    if issues.len() == 0 {
        0
    } else {
        severity_count(issues.drop_last(), severity) + if issues.last().3 == severity {
            1nat
        } else {
            0nat
        }
    }
}

fn push_if(
    issues: &mut Vec<AuditIssue>,
    cond: bool,
    id: Option<i64>,
    match_id: &str,
    audit_type: &str,
    message: &str,
)
    ensures
        issue_views(final(issues)@) == issue_views(old(issues)@) + issue_if(cond, id, match_id@, audit_type@, message@),
{
    let ghost before = issue_views(issues@);
    reveal(issue);
    if cond {
        add_audit_issue(issues, id, match_id, audit_type, message);
        assert(issue_views(issues@) =~= before + issue_if(cond, id, match_id@, audit_type@, message@));
    } else {
        assert(issue_views(issues@) =~= before + issue_if(cond, id, match_id@, audit_type@, message@));
    }
}

fn unlinked_exec(f: &SnapshotAuditFacts) -> (r: bool)
    ensures
        r == unlinked(*f),
{
    let m = chars_of(f.match_id.as_str());
    let t = trim_vec(&m);
    let blank = t.len() == 0;
    let own: i128 = if blank {
        0
    } else {
        1
    };
    blank || f.linked_results as i128 + own == 0
}

fn is_missing_or_empty(items: Option<usize>) -> (r: bool)
    ensures
        r == missing_or_empty(items),
{
    match items {
        Some(n) => n == 0,
        None => true,
    }
}

/// The issues about where and when a snapshot was taken.
pub open spec fn timing_issues(f: SnapshotAuditFacts) -> Seq<IssueView> {
    let id = Some(f.snapshot_id);
    let m = f.match_id@;
    issue_if(
        !f.created_before_kickoff || !kickoff_after(f.kickoff_time@, f.snapshot_time@),
        id,
        m,
        "after_kickoff_snapshot"@,
        "快照时间晚于开赛时间，不能进入 live_pre_match 纸面交易。"@,
    ) + issue_if(unlinked(f), id, m, "match_id_missing_or_unmatched"@, "快照 match_id 为空或无法关联比赛。"@)
        + issue_if(
        f.odds_records == 0 && !missing_or_empty(f.odds_items),
        id,
        m,
        "odds_match_id_unmatched"@,
        "快照含赔率，但 odds_snapshots 中找不到同 match_id 的赔率记录。"@,
    )
}

/// The issues about what a snapshot froze.
pub open spec fn content_issues(f: SnapshotAuditFacts) -> Seq<IssueView> {
    let id = Some(f.snapshot_id);
    let m = f.match_id@;
    issue_if(missing_or_empty(f.odds_items), id, m, "missing_odds"@, "赔率为空或关键赔率缺失。"@)
        + issue_if(missing_or_empty(f.model_prob_items), id, m, "missing_model_probs"@, "模型概率为空。"@)
        + issue_if(f.probability_sum_off, id, m, "invalid_probability_sum"@, "胜平负概率和不接近 1。"@)
        + issue_if(f.quality_missing, id, m, "missing_data_quality"@, "缺少数据质量评分。"@)
        + issue_if(
        frozen_fields_broken(f),
        id,
        m,
        "settlement_overwrite_risk"@,
        "赛后结算后发现冻结字段异常，存在覆盖风险。"@,
    )
}

fn push_timing_issues(issues: &mut Vec<AuditIssue>, f: &SnapshotAuditFacts)
    ensures
        issue_views(final(issues)@) == issue_views(old(issues)@) + timing_issues(*f),
{
    let ghost start = issue_views(issues@);
    let id = Some(f.snapshot_id);
    let m = f.match_id.as_str();
    let after = !f.created_before_kickoff || !kickoff_is_future(f.kickoff_time.as_str(), f.snapshot_time.as_str());
    push_if(issues, after, id, m, "after_kickoff_snapshot", "快照时间晚于开赛时间，不能进入 live_pre_match 纸面交易。");
    let ghost s1 = issue_views(issues@);
    let u = unlinked_exec(f);
    push_if(issues, u, id, m, "match_id_missing_or_unmatched", "快照 match_id 为空或无法关联比赛。");
    let ghost s2 = issue_views(issues@);
    let odds_missing = is_missing_or_empty(f.odds_items);
    let unmatched = f.odds_records == 0 && !odds_missing;
    push_if(issues, unmatched, id, m, "odds_match_id_unmatched", "快照含赔率，但 odds_snapshots 中找不到同 match_id 的赔率记录。");
    assert(issue_views(issues@) =~= start + timing_issues(*f));
}

fn push_content_issues(issues: &mut Vec<AuditIssue>, f: &SnapshotAuditFacts)
    ensures
        issue_views(final(issues)@) == issue_views(old(issues)@) + content_issues(*f),
{
    let ghost start = issue_views(issues@);
    let id = Some(f.snapshot_id);
    let m = f.match_id.as_str();
    let odds_missing = is_missing_or_empty(f.odds_items);
    push_if(issues, odds_missing, id, m, "missing_odds", "赔率为空或关键赔率缺失。");
    let probs_missing = is_missing_or_empty(f.model_prob_items);
    push_if(issues, probs_missing, id, m, "missing_model_probs", "模型概率为空。");
    push_if(issues, f.probability_sum_off, id, m, "invalid_probability_sum", "胜平负概率和不接近 1。");
    push_if(issues, f.quality_missing, id, m, "missing_data_quality", "缺少数据质量评分。");
    let broken = f.settled && !(f.model_prob_items.is_some() && f.odds_items.is_some() && f.ev_is_list);
    push_if(issues, broken, id, m, "settlement_overwrite_risk", "赛后结算后发现冻结字段异常，存在覆盖风险。");
    assert(issue_views(issues@) =~= start + content_issues(*f));
}

/// Appends the issues of one snapshot.
fn push_snapshot_issues(issues: &mut Vec<AuditIssue>, f: &SnapshotAuditFacts)
    ensures
        issue_views(final(issues)@) == issue_views(old(issues)@) + snapshot_issues(*f),
{
    let ghost start = issue_views(issues@);
    push_timing_issues(issues, f);
    push_content_issues(issues, f);
    assert(issue_views(issues@) =~= start + snapshot_issues(*f));
}

fn count_finals(facts: &Vec<SnapshotAuditFacts>, match_id: &String) -> (r: usize)
    ensures
        r == final_count(facts@, match_id@),
{
    let mut n: usize = 0;
    let mut i: usize = 0;
    while i < facts.len()
        invariant
            i <= facts@.len(),
            n == final_count(facts@.take(i as int), match_id@),
            n <= i,
        decreases facts@.len() - i,
    {
        assert(facts@.take(i + 1).drop_last() =~= facts@.take(i as int));
        if facts[i].is_final_pre_match && str_eq(facts[i].match_id.as_str(), match_id.as_str()) {
            n = n + 1;
        }
        i = i + 1;
    }
    assert(facts@.take(facts@.len() as int) =~= facts@);
    n
}

/// The issues of a snapshot audit, in order: each snapshot's own issues,
/// then one per fixture with several final snapshots (in increasing order
/// of match id), then one when invalid live paper trades exist.
pub fn audit_pre_match_snapshots(facts: &Vec<SnapshotAuditFacts>, invalid_paper_trades: i64) -> (r: Vec<
    AuditIssue,
>)
    ensures
        ({
            let own = all_snapshot_issues(facts@);
            let v = issue_views(r@);
            let conflicts = v.subrange(own.len() as int, v.len() - if invalid_paper_trades > 0 {
                1int
            } else {
                0int
            });
            let ids = conflicts.map_values(|i: IssueView| i.1);
            &&& own.len() <= v.len()
            &&& v.take(own.len() as int) == own
            &&& own.len() + (if invalid_paper_trades > 0 { 1int } else { 0int }) <= v.len()
            &&& forall|k: int| 0 <= k < conflicts.len() ==> #[trigger] conflicts[k] == conflict_issue(ids[k])
            &&& strictly_sorted(ids)
            &&& forall|m: Seq<char>| ids.contains(m) <==> final_count(facts@, m) > 1
            &&& invalid_paper_trades > 0 ==> v.last() == paper_issue()
        }),
{
    let mut issues: Vec<AuditIssue> = Vec::new();
    let mut i: usize = 0;
    while i < facts.len()
        invariant
            i <= facts@.len(),
            issue_views(issues@) == all_snapshot_issues(facts@.take(i as int)),
        decreases facts@.len() - i,
    {
        assert(facts@.take(i + 1).drop_last() =~= facts@.take(i as int));
        push_snapshot_issues(&mut issues, &facts[i]);
        i = i + 1;
    }
    assert(facts@.take(facts@.len() as int) =~= facts@);
    let ghost own = issue_views(issues@);
    let n_own = issues.len();
    let mut finals: Vec<String> = Vec::new();
    let mut j: usize = 0;
    while j < facts.len()
        invariant
            j <= facts@.len(),
            forall|k: int| 0 <= k < finals@.len() ==> final_count(facts@, #[trigger] string_views(finals@)[k]) > 0,
            forall|q: int| 0 <= q < j && facts@[q].is_final_pre_match ==> string_views(finals@).contains(#[trigger] facts@[q].match_id@),
        decreases facts@.len() - j,
    {
        if facts[j].is_final_pre_match {
            let ghost before = string_views(finals@);
            finals.push(facts[j].match_id.clone());
            proof {
                lemma_final_count_pos(facts@, j as int);
                assert(string_views(finals@) =~= before.push(facts@[j as int].match_id@));
                assert forall|q: int| 0 <= q < j + 1 && facts@[q].is_final_pre_match implies string_views(finals@).contains(#[trigger] facts@[q].match_id@) by {
                    if q < j {
                        let k0 = choose|k: int| 0 <= k < before.len() && before[k] == facts@[q].match_id@;
                        assert(string_views(finals@)[k0] == before[k0]);
                    } else {
                        assert(string_views(finals@)[before.len() as int] == facts@[q].match_id@);
                    }
                }
            }
        }
        j = j + 1;
    }
    let keys = sorted_distinct_texts(&finals);
    let ghost kv = string_views(keys@);
    let mut k: usize = 0;
    let ghost mut ids: Seq<Seq<char>> = Seq::empty();
    let ghost mut idx: Seq<int> = Seq::empty();
    while k < keys.len()
        invariant
            k <= keys@.len(),
            kv == string_views(keys@),
            strictly_sorted(kv),
            issue_views(issues@).len() == n_own + ids.len(),
            issue_views(issues@).take(n_own as int) == own,
            n_own == own.len(),
            idx.len() == ids.len(),
            forall|t: int| 0 <= t < ids.len() ==> #[trigger] issue_views(issues@)[n_own + t] == conflict_issue(ids[t]),
            forall|t: int| 0 <= t < ids.len() ==> final_count(facts@, #[trigger] ids[t]) > 1,
            forall|t: int| 0 <= t < ids.len() ==> 0 <= #[trigger] idx[t] < k && kv[idx[t]] == ids[t],
            forall|a: int, b: int| 0 <= a < b < idx.len() ==> #[trigger] idx[a] < #[trigger] idx[b],
            forall|u: int| 0 <= u < k && final_count(facts@, kv[u]) > 1 ==> #[trigger] ids.contains(kv[u]),
        decreases keys@.len() - k,
    {
        let c = count_finals(facts, &keys[k]);
        if c > 1 {
            let ghost before = issue_views(issues@);
            add_audit_issue(&mut issues, None, keys[k].as_str(), "final_snapshot_conflict", "同一场比赛存在多个 final snapshot。");
            proof {
                reveal(issue);
                let old_ids = ids;
                ids = ids.push(kv[k as int]);
                idx = idx.push(k as int);
                assert(issue_views(issues@) =~= before.push(conflict_issue(kv[k as int])));
                assert(issue_views(issues@).take(n_own as int) =~= own);
                assert forall|u: int| 0 <= u < k + 1 && final_count(facts@, kv[u]) > 1 implies #[trigger] ids.contains(kv[u]) by {
                    if u < k {
                        assert(old_ids.contains(kv[u]));
                        let t = choose|t: int| 0 <= t < old_ids.len() && old_ids[t] == kv[u];
                        assert(ids[t] == kv[u]);
                    } else {
                        assert(ids[old_ids.len() as int] == kv[u]);
                    }
                }
            }
        }
        k = k + 1;
    }
    proof {
        assert forall|a: int, b: int| 0 <= a < b < ids.len() implies text_before(#[trigger] ids[a], #[trigger] ids[b]) by {
            assert(idx[a] < idx[b]);
            assert(kv[idx[a]] == ids[a]);
            assert(kv[idx[b]] == ids[b]);
        }
        assert forall|m: Seq<char>| ids.contains(m) <==> final_count(facts@, m) > 1 by {
            if final_count(facts@, m) > 1 {
                let q = lemma_final_count_witness(facts@, m);
                assert(string_views(finals@).contains(facts@[q].match_id@));
                let f0 = choose|f0: int| 0 <= f0 < finals@.len() && string_views(finals@)[f0] == m;
                assert(kv.contains(string_views(finals@)[f0]));
                let u = choose|u: int| 0 <= u < kv.len() && kv[u] == m;
                assert(ids.contains(kv[u]));
            }
        }
    }
    let ghost before_paper = issue_views(issues@);
    if invalid_paper_trades > 0 {
        add_audit_issue(&mut issues, None, "live_pre_match", "paper_trade_invalid", "存在非赛前创建的 live_pre_match 纸面交易。");
        proof {
            reveal(issue);
        }
        assert(issue_views(issues@) =~= before_paper.push(paper_issue()));
    }
    proof {
        let v = issue_views(issues@);
        let extra: int = if invalid_paper_trades > 0 { 1 } else { 0 };
        let conflicts = v.subrange(own.len() as int, v.len() - extra);
        assert(v.take(own.len() as int) =~= own) by {
            assert(before_paper.take(n_own as int) =~= own);
        }
        assert(conflicts.len() == ids.len());
        assert forall|t: int| 0 <= t < conflicts.len() implies #[trigger] conflicts[t] == conflict_issue(ids[t]) by {
            assert(conflicts[t] == v[n_own + t]);
            assert(v[n_own + t] == before_paper[n_own + t]);
        }
        reveal(issue);
        let cids = conflicts.map_values(|i: IssueView| i.1);
        assert(cids =~= ids) by {
            assert forall|t: int| 0 <= t < ids.len() implies cids[t] == ids[t] by {
                assert(conflicts[t] == conflict_issue(ids[t]));
            }
        }
    }
    issues
}

/// Some snapshot at the given index is a final snapshot of its fixture.
proof fn lemma_final_count_pos(facts: Seq<SnapshotAuditFacts>, q: int)
    requires
        0 <= q < facts.len(),
        facts[q].is_final_pre_match,
    ensures
        final_count(facts, facts[q].match_id@) > 0,
    decreases facts.len(),
{
    if q < facts.len() - 1 {
        lemma_final_count_pos(facts.drop_last(), q);
    }
}

/// A fixture with a final snapshot has one at some index.
proof fn lemma_final_count_witness(facts: Seq<SnapshotAuditFacts>, m: Seq<char>) -> (q: int)
    requires
        final_count(facts, m) > 0,
    ensures
        0 <= q < facts.len(),
        facts[q].is_final_pre_match,
        facts[q].match_id@ == m,
    decreases facts.len(),
{
    if facts.last().is_final_pre_match && facts.last().match_id@ == m {
        facts.len() - 1
    } else {
        lemma_final_count_witness(facts.drop_last(), m)
    }
}

/// How many of the audit's issues have the given severity.
pub fn count_severity(issues: &Vec<AuditIssue>, severity: &str) -> (r: usize)
    ensures
        r == severity_count(issue_views(issues@), severity@),
{
    let ghost v = issue_views(issues@);
    let mut n: usize = 0;
    let mut i: usize = 0;
    while i < issues.len()
        invariant
            i <= issues@.len(),
            v == issue_views(issues@),
            n == severity_count(v.take(i as int), severity@),
            n <= i,
        decreases issues@.len() - i,
    {
        assert(v.take(i + 1).drop_last() =~= v.take(i as int));
        if str_eq(issues[i].3.as_str(), severity) {
            n = n + 1;
        }
        i = i + 1;
    }
    assert(v.take(v.len() as int) =~= v);
    n
}

} // verus!
