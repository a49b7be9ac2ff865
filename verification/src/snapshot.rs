//! Pre-match snapshots: the timestamps that decide whether a snapshot was
//! taken before kickoff, the SQL that loads and exports snapshots, the
//! snapshot table's columns, CSV cells, and which snapshot of a fixture the
//! practical advice uses.
use vstd::prelude::*;
use crate::feeds::{obj_get, obj_get_exec, or_text, str_of, str_or, JsonValue};
use crate::text::{
    chars_of, contains, contains_vec, eq_vec, join, join_vec, owned, push_all, replace,
    replace_str, str_eq, string_of, string_views, trim, trim_vec, views,
};

verus! {

// ---------------------------------------------------------------------------
// Time
// ---------------------------------------------------------------------------

/// What `chrono::DateTime::parse_from_rfc3339` reads from a text, as the UTC
/// instant `(seconds since the epoch, nanoseconds)`; `None` when it reports
/// an error.
pub uninterp spec fn rfc3339_instant(s: Seq<char>) -> Option<(i64, u32)>;

/// What `chrono::NaiveDateTime::parse_from_str` reads from a text with a
/// format, taken as UTC, as `(seconds since the epoch, nanoseconds)`; `None`
/// when it reports an error.
pub uninterp spec fn naive_instant(s: Seq<char>, fmt: Seq<char>) -> Option<(i64, u32)>;

/// `chrono::DateTime::parse_from_rfc3339`, converted to the UTC instant.
#[verifier::external_body]
fn parse_rfc3339_instant(s: &str) -> (r: Option<(i64, u32)>)
    ensures
        r == rfc3339_instant(s@),
{
    chrono::DateTime::parse_from_rfc3339(s).ok().map(|dt| {
        let utc = dt.with_timezone(&chrono::Utc);
        (utc.timestamp(), utc.timestamp_subsec_nanos())
    })
}

/// `chrono::NaiveDateTime::parse_from_str`, taken as UTC.
#[verifier::external_body]
fn parse_naive_instant(s: &str, fmt: &str) -> (r: Option<(i64, u32)>)
    ensures
        r == naive_instant(s@, fmt@),
{
    chrono::NaiveDateTime::parse_from_str(s, fmt).ok().map(|dt| {
        let utc = dt.and_utc();
        (utc.timestamp(), utc.timestamp_subsec_nanos())
    })
}

/// `parse_time_as_utc`: the trimmed text read as RFC 3339, else as
/// `%Y-%m-%d %H:%M:%S` in UTC, else as `%Y-%m-%dT%H:%M:%S` in UTC; an empty
/// text is no time.
pub open spec fn utc_instant(value: Seq<char>) -> Option<(i64, u32)> {
    let t = trim(value);
    if t.len() == 0 {
        None
    } else if rfc3339_instant(t) is Some {
        rfc3339_instant(t)
    } else if naive_instant(t, "%Y-%m-%d %H:%M:%S"@) is Some {
        naive_instant(t, "%Y-%m-%d %H:%M:%S"@)
    } else {
        naive_instant(t, "%Y-%m-%dT%H:%M:%S"@)
    }
}

/// Reads a timestamp as a UTC instant `(seconds, nanoseconds)`.
pub fn parse_time_as_utc(value: &str) -> (r: Option<(i64, u32)>)
    ensures
        r == utc_instant(value@),
{
    let v = chars_of(value);
    let tv = trim_vec(&v);
    if tv.len() == 0 {
        return None;
    }
    let t = string_of(&tv);
    let a = parse_rfc3339_instant(t.as_str());
    if a.is_some() {
        return a;
    }
    let b = parse_naive_instant(t.as_str(), "%Y-%m-%d %H:%M:%S");
    if b.is_some() {
        return b;
    }
    parse_naive_instant(t.as_str(), "%Y-%m-%dT%H:%M:%S")
}

/// The order of UTC instants: by seconds, then nanoseconds.
pub open spec fn instant_before(a: (i64, u32), b: (i64, u32)) -> bool {
    a.0 < b.0 || (a.0 == b.0 && a.1 < b.1)
}

/// `kickoff_is_future`: both times read and the snapshot instant is
/// strictly before the kickoff instant.
pub open spec fn kickoff_after(kickoff: Seq<char>, snapshot: Seq<char>) -> bool {
    match (utc_instant(kickoff), utc_instant(snapshot)) {
        (Some(k), Some(s)) => instant_before(s, k),
        _ => false,
    }
}

/// Whether a snapshot taken at `snapshot_time` precedes the kickoff, by the
/// instants the two timestamps denote (not by their text).
pub fn kickoff_is_future(kickoff_time: &str, snapshot_time: &str) -> (r: bool)
    ensures
        r == kickoff_after(kickoff_time@, snapshot_time@),
{
    match (parse_time_as_utc(kickoff_time), parse_time_as_utc(snapshot_time)) {
        (Some(k), Some(s)) => s.0 < k.0 || (s.0 == k.0 && s.1 < k.1),
        _ => false,
    }
}

// ---------------------------------------------------------------------------
// SQL
// ---------------------------------------------------------------------------

/// The select list and joins of a snapshot query, before its `where` clause.
pub const SNAPSHOT_SELECT_HEAD: &'static str = "select s.id, s.match_id, s.external_fixture_id, s.provider_match_id, s.snapshot_time, s.kickoff_time,
                s.home_team, s.away_team, s.competition, s.season, s.stage, s.model_version,
                s.model_probs_json, s.calibrated_probs_json, s.worldcup_correction_action,
                s.odds_json, s.market_probs_json, s.ev_json, s.data_quality_score,
                s.lineup_status, s.lineup_confidence, s.injury_status, s.injury_confidence,
                s.risk_tags_json, s.final_decision, s.decision_reason_json, s.paper_strategy_id,
                s.paper_trade_enabled, s.raw_features_json, s.created_before_kickoff, s.is_final_pre_match, s.created_at, s.updated_at,
                (select json_object('home_score', r.home_score, 'away_score', r.away_score, 'result_spf', r.result_spf,
                                    'total_goals', r.total_goals, 'settled_at', r.settled_at,
                                    'is_hit_json', r.is_hit_json, 'paper_profit_json', r.paper_profit_json,
                                    'settlement_status', r.settlement_status)
                 from pre_match_snapshot_results r where r.snapshot_id=s.id order by r.id desc limit 1) as settlement
         from pre_match_snapshots s ";

/// The ordering of a snapshot query, after its `where` clause.
pub const SNAPSHOT_SELECT_TAIL: &'static str = " order by s.kickoff_time asc, s.id desc";

/// The snapshot export query.
pub const SNAPSHOT_EXPORT_SQL: &'static str = "select id, match_id, external_fixture_id, provider_match_id, snapshot_time, kickoff_time,
            home_team, away_team, competition, season, stage, model_version,
            model_probs_json, calibrated_probs_json, worldcup_correction_action,
            odds_json, market_probs_json, ev_json, data_quality_score,
            lineup_status, lineup_confidence, injury_status, injury_confidence,
            risk_tags_json, final_decision, decision_reason_json, paper_strategy_id,
            paper_trade_enabled, raw_features_json, created_before_kickoff,
            is_final_pre_match, created_at, updated_at
     from pre_match_snapshots order by kickoff_time asc, id asc";

/// The live paper-trading export query.
pub const LIVE_PAPER_CSV_SQL: &'static str = "select id, match_id, snapshot_id, strategy_id, model_version, selection, play_type, model_prob,
            odds, ev, advantage_rate, data_quality_score, risk_tags_json, worldcup_correction_action,
            paper_stake, result_status, coalesce(is_hit,''), paper_profit, source,
            created_before_kickoff, is_final_snapshot, created_at, settled_at
     from paper_trading_records
     where source='live_pre_match'
     order by id desc";

/// The columns of `pre_match_snapshots` after `id`, with their definitions.
pub open spec fn snapshot_column_table() -> Seq<(Seq<char>, Seq<char>)> {
    seq![
        ("match_id"@, "text not null default ''"@),
        ("external_fixture_id"@, "text not null default ''"@),
        ("provider_match_id"@, "text not null default ''"@),
        ("snapshot_time"@, "text not null default ''"@),
        ("kickoff_time"@, "text not null default ''"@),
        ("home_team"@, "text not null default ''"@),
        ("away_team"@, "text not null default ''"@),
        ("competition"@, "text not null default ''"@),
        ("season"@, "text not null default ''"@),
        ("stage"@, "text not null default ''"@),
        ("model_version"@, "text not null default ''"@),
        ("model_probs_json"@, "text not null default '[]'"@),
        ("calibrated_probs_json"@, "text not null default '[]'"@),
        ("worldcup_correction_action"@, "text not null default ''"@),
        ("odds_json"@, "text not null default '[]'"@),
        ("market_probs_json"@, "text not null default '[]'"@),
        ("ev_json"@, "text not null default 'null'"@),
        ("data_quality_score"@, "real not null default 0"@),
        ("lineup_status"@, "text not null default 'unknown'"@),
        ("lineup_confidence"@, "real not null default 0"@),
        ("injury_status"@, "text not null default 'unknown'"@),
        ("injury_confidence"@, "real not null default 0"@),
        ("risk_tags_json"@, "text not null default '[]'"@),
        ("final_decision"@, "text not null default 'observe_only'"@),
        ("decision_reason_json"@, "text not null default '[]'"@),
        ("paper_strategy_id"@, "text not null default ''"@),
        ("paper_trade_enabled"@, "integer not null default 0"@),
        ("raw_features_json"@, "text not null default '{}'"@),
        ("created_before_kickoff"@, "integer not null default 1"@),
        ("is_final_pre_match"@, "integer not null default 0"@),
        ("created_at"@, "text not null default ''"@),
        ("updated_at"@, "text not null default ''"@),
    ]
}

fn snapshot_column_entries() -> (r: Vec<(&'static str, &'static str)>)
    ensures
        pair_views(r@) == snapshot_column_table(),
{
    let r = vec![
        ("match_id", "text not null default ''"),
        ("external_fixture_id", "text not null default ''"),
        ("provider_match_id", "text not null default ''"),
        ("snapshot_time", "text not null default ''"),
        ("kickoff_time", "text not null default ''"),
        ("home_team", "text not null default ''"),
        ("away_team", "text not null default ''"),
        ("competition", "text not null default ''"),
        ("season", "text not null default ''"),
        ("stage", "text not null default ''"),
        ("model_version", "text not null default ''"),
        ("model_probs_json", "text not null default '[]'"),
        ("calibrated_probs_json", "text not null default '[]'"),
        ("worldcup_correction_action", "text not null default ''"),
        ("odds_json", "text not null default '[]'"),
        ("market_probs_json", "text not null default '[]'"),
        ("ev_json", "text not null default 'null'"),
        ("data_quality_score", "real not null default 0"),
        ("lineup_status", "text not null default 'unknown'"),
        ("lineup_confidence", "real not null default 0"),
        ("injury_status", "text not null default 'unknown'"),
        ("injury_confidence", "real not null default 0"),
        ("risk_tags_json", "text not null default '[]'"),
        ("final_decision", "text not null default 'observe_only'"),
        ("decision_reason_json", "text not null default '[]'"),
        ("paper_strategy_id", "text not null default ''"),
        ("paper_trade_enabled", "integer not null default 0"),
        ("raw_features_json", "text not null default '{}'"),
        ("created_before_kickoff", "integer not null default 1"),
        ("is_final_pre_match", "integer not null default 0"),
        ("created_at", "text not null default ''"),
        ("updated_at", "text not null default ''"),
    ];
    assert(pair_views(r@) =~= snapshot_column_table());
    r
}

/// The views of a list of string pairs.
pub open spec fn pair_views(v: Seq<(&str, &str)>) -> Seq<(Seq<char>, Seq<char>)> {
    v.map_values(|e: (&str, &str)| (e.0@, e.1@))
}

/// The query that loads snapshots with their latest settlement, filtered by
/// a `where` clause.
pub fn pre_match_snapshot_select_sql(where_clause: &str) -> (r: String)
    ensures
        r@ == SNAPSHOT_SELECT_HEAD@ + where_clause@ + SNAPSHOT_SELECT_TAIL@,
{
    let mut v = chars_of(SNAPSHOT_SELECT_HEAD);
    let w = chars_of(where_clause);
    push_all(&mut v, &w);
    let t = chars_of(SNAPSHOT_SELECT_TAIL);
    push_all(&mut v, &t);
    string_of(&v)
}

/// The query that exports every snapshot column, oldest kickoff first.
pub fn pre_match_snapshot_export_sql() -> (r: &'static str)
    ensures
        r@ == SNAPSHOT_EXPORT_SQL@,
{
    SNAPSHOT_EXPORT_SQL
}

/// The query that exports the live pre-match paper trades, newest first.
pub fn live_paper_csv_sql() -> (r: &'static str)
    ensures
        r@ == LIVE_PAPER_CSV_SQL@,
{
    LIVE_PAPER_CSV_SQL
}

/// `expected_pre_match_snapshot_columns`: `id`, then the table's columns.
pub open spec fn expected_columns() -> Seq<Seq<char>> {
    seq!["id"@] + snapshot_column_table().map_values(|e: (Seq<char>, Seq<char>)| e.0)
}

/// The column names the snapshot table must have, `id` first.
pub fn expected_pre_match_snapshot_columns() -> (r: Vec<&'static str>)
    ensures
        r@.map_values(|c: &str| c@) == expected_columns(),
{
    let table = snapshot_column_entries();
    let mut columns: Vec<&'static str> = Vec::new();
    columns.push("id");
    let mut i: usize = 0;
    while i < table.len()
        invariant
            i <= table.len(),
            pair_views(table@) == snapshot_column_table(),
            columns@.map_values(|c: &str| c@) == seq!["id"@] + snapshot_column_table().take(
                i as int,
            ).map_values(|e: (Seq<char>, Seq<char>)| e.0),
        decreases table.len() - i,
    {
        let ghost old = columns@;
        columns.push(table[i].0);
        proof {
            let t = snapshot_column_table();
            assert(t[i as int].0 == table@[i as int].0@);
            assert(t.take(i + 1).map_values(|e: (Seq<char>, Seq<char>)| e.0) =~= t.take(
                i as int,
            ).map_values(|e: (Seq<char>, Seq<char>)| e.0).push(t[i as int].0));
            assert(columns@.map_values(|c: &str| c@) =~= old.map_values(|c: &str| c@).push(
                table@[i as int].0@,
            ));
        }
        i = i + 1;
    }
    assert(snapshot_column_table().take(table.len() as int) =~= snapshot_column_table());
    columns
}

/// The columns of the snapshot table, in order, that `existing` lacks.
pub open spec fn missing_columns(existing: Seq<Seq<char>>) -> Seq<(Seq<char>, Seq<char>)> {
    snapshot_column_table().filter(|e: (Seq<char>, Seq<char>)| !existing.contains(e.0))
}

fn in_list(name: &str, existing: &[String]) -> (b: bool)
    ensures
        b == string_views(existing@).contains(name@),
{
    let mut k: usize = 0;
    while k < existing.len()
        invariant
            k <= existing@.len(),
            forall|j: int| 0 <= j < k ==> existing@[j]@ != name@,
        decreases existing@.len() - k,
    {
        if str_eq(existing[k].as_str(), name) {
            assert(string_views(existing@)[k as int] == name@);
            return true;
        }
        k = k + 1;
    }
    false
}

/// The snapshot-table columns (with their definitions) that an older table
/// lacks, in table order: the migration adds exactly these.
pub fn missing_pre_match_snapshot_columns(existing: &[String]) -> (r: Vec<(&'static str, &'static str)>)
    ensures
        pair_views(r@) == missing_columns(string_views(existing@)),
{
    let table = snapshot_column_entries();
    let mut out: Vec<(&'static str, &'static str)> = Vec::new();
    let mut i: usize = 0;
    let ghost ex = string_views(existing@);
    proof {
        reveal(Seq::filter);
        assert(snapshot_column_table().take(0) =~= Seq::<(Seq<char>, Seq<char>)>::empty());
    }
    while i < table.len()
        invariant
            i <= table.len(),
            ex == string_views(existing@),
            pair_views(table@) == snapshot_column_table(),
            pair_views(out@) == snapshot_column_table().take(i as int).filter(
                |e: (Seq<char>, Seq<char>)| !ex.contains(e.0),
            ),
        decreases table.len() - i,
    {
        let ghost t = snapshot_column_table();
        proof {
            reveal(Seq::filter);
            assert(t.take(i + 1).drop_last() =~= t.take(i as int));
            assert(t.take(i + 1).last() == (table@[i as int].0@, table@[i as int].1@));
        }
        let ghost old = out@;
        if !in_list(table[i].0, existing) {
            out.push(table[i]);
            assert(pair_views(out@) =~= pair_views(old).push((table@[i as int].0@, table@[i as int].1@)));
        }
        i = i + 1;
    }
    assert(snapshot_column_table().take(table.len() as int) =~= snapshot_column_table());
    out
}

/// The statement that adds one column to the snapshot table.
pub fn add_snapshot_column_sql(name: &str, definition: &str) -> (r: String)
    ensures
        r@ == "alter table pre_match_snapshots add column "@ + name@ + " "@ + definition@,
{
    let mut v = chars_of("alter table pre_match_snapshots add column ");
    let n = chars_of(name);
    push_all(&mut v, &n);
    let sp = chars_of(" ");
    push_all(&mut v, &sp);
    let d = chars_of(definition);
    push_all(&mut v, &d);
    string_of(&v)
}

// ---------------------------------------------------------------------------
// CSV cells
// ---------------------------------------------------------------------------

/// `csv_cell`: quotes doubled; the cell quoted when it holds a comma, a
/// newline or a quote.
pub open spec fn csv_cell_spec(value: Seq<char>) -> Seq<char> {
    let escaped = replace(value, "\""@, "\"\""@);
    if contains(escaped, ","@) || contains(escaped, "\n"@) || contains(escaped, "\""@) {
        "\""@ + escaped + "\""@
    } else {
        escaped
    }
}

/// One CSV cell of an export.
pub fn csv_cell(value: &str) -> (r: String)
    ensures
        r@ == csv_cell_spec(value@),
{
    let v = chars_of(value);
    let escaped = replace_str(&v, "\"", "\"\"");
    let comma = chars_of(",");
    let newline = chars_of("\n");
    let quote = chars_of("\"");
    if contains_vec(&escaped, &comma) || contains_vec(&escaped, &newline) || contains_vec(
        &escaped,
        &quote,
    ) {
        let mut out = chars_of("\"");
        push_all(&mut out, &escaped);
        push_all(&mut out, &quote);
        string_of(&out)
    } else {
        string_of(&escaped)
    }
}

/// One line of a CSV export: the cells, each quoted as `csv_cell` does,
/// joined by commas, then a newline.
pub open spec fn csv_line_spec(cells: Seq<Seq<char>>) -> Seq<char> {
    join(cells.map_values(|c: Seq<char>| csv_cell_spec(c)), ","@) + "\n"@
}

/// The lines of the rows, one after another.
pub open spec fn csv_rows_spec(rows: Seq<Seq<Seq<char>>>) -> Seq<char>
    decreases rows.len(),
{
    if rows.len() == 0 {
        Seq::empty()
    } else {
        csv_rows_spec(rows.drop_last()) + csv_line_spec(rows.last())
    }
}

/// The cell texts of each row.
pub open spec fn row_cell_views(rows: Seq<Vec<String>>) -> Seq<Seq<Seq<char>>> {
    rows.map_values(|r: Vec<String>| string_views(r@))
}

fn csv_line(cells: &Vec<String>) -> (r: Vec<char>)
    ensures
        r@ == csv_line_spec(string_views(cells@)),
{
    let ghost cv = string_views(cells@);
    let mut parts: Vec<Vec<char>> = Vec::new();
    let mut i: usize = 0;
    while i < cells.len()
        invariant
            i <= cells@.len(),
            cv == string_views(cells@),
            views(parts@) =~= cv.take(i as int).map_values(|c: Seq<char>| csv_cell_spec(c)),
        decreases cells@.len() - i,
    {
        let ghost before = parts@;
        let cell = csv_cell(cells[i].as_str());
        parts.push(chars_of(cell.as_str()));
        assert(views(parts@) =~= views(before).push(cell@));
        assert(cv.take(i + 1).map_values(|c: Seq<char>| csv_cell_spec(c)) =~= cv.take(
            i as int,
        ).map_values(|c: Seq<char>| csv_cell_spec(c)).push(csv_cell_spec(cv[i as int])));
        i = i + 1;
    }
    assert(cv.take(cv.len() as int) =~= cv);
    let sep = chars_of(",");
    let mut line = join_vec(&parts, &sep);
    line.push('\n');
    proof {
        reveal_strlit("\n");
    }
    assert(line@ =~= join(views(parts@), ","@) + "\n"@);
    line
}

/// A CSV export of a query's result: the line of column names, then a
/// line for each row, every cell quoted as `csv_cell` does.
pub fn csv_document(header: &Vec<String>, rows: &Vec<Vec<String>>) -> (r: String)
    ensures
        r@ == csv_line_spec(string_views(header@)) + csv_rows_spec(row_cell_views(rows@)),
{
    let ghost rv = row_cell_views(rows@);
    let mut out = csv_line(header);
    let ghost head = out@;
    let mut i: usize = 0;
    assert(rv.take(0) =~= Seq::<Seq<Seq<char>>>::empty());
    assert(out@ =~= head + csv_rows_spec(rv.take(0)));
    while i < rows.len()
        invariant
            i <= rows@.len(),
            rv == row_cell_views(rows@),
            head == csv_line_spec(string_views(header@)),
            out@ == head + csv_rows_spec(rv.take(i as int)),
        decreases rows@.len() - i,
    {
        assert(rv.take(i + 1).drop_last() =~= rv.take(i as int));
        assert(rv.take(i + 1).last() == string_views(rows@[i as int]@));
        let line = csv_line(&rows[i]);
        push_all(&mut out, &line);
        assert(out@ =~= head + csv_rows_spec(rv.take(i + 1)));
        i = i + 1;
    }
    assert(rv.take(rv.len() as int) =~= rv);
    string_of(&out)
}

// ---------------------------------------------------------------------------
// Choosing the snapshot of a fixture
// ---------------------------------------------------------------------------

/// The fields of a pre-match snapshot that decide which one a fixture uses.
#[derive(Clone, Debug, PartialEq, Eq)]
pub struct SnapshotRef {
    pub id: i64,
    pub match_id: String,
    pub snapshot_time: String,
    pub is_final_pre_match: bool,
}

/// Lexicographic order of texts by character, the order in which `String` values compare.
pub open spec fn text_before(a: Seq<char>, b: Seq<char>) -> bool
    decreases a.len(),
{
    if b.len() == 0 {
        false
    } else if a.len() == 0 {
        true
    } else if (a[0] as u32) < (b[0] as u32) {
        true
    } else if a[0] == b[0] {
        text_before(a.drop_first(), b.drop_first())
    } else {
        false
    }
}

/// Whether text `a` sorts strictly before text `b`.
pub fn text_less(a: &String, b: &String) -> (r: bool)
    ensures
        r == text_before(a@, b@),
{
    let av = chars_of(a.as_str());
    let bv = chars_of(b.as_str());
    let mut i: usize = 0;
    assert(av@.skip(0) =~= av@);
    assert(bv@.skip(0) =~= bv@);
    while i < av.len() && i < bv.len() && av[i] == bv[i]
        invariant
            i <= av.len(),
            i <= bv.len(),
            text_before(a@, b@) == text_before(av@.skip(i as int), bv@.skip(i as int)),
            av@ == a@,
            bv@ == b@,
        decreases av.len() - i,
    {
        assert(av@.skip(i as int).drop_first() =~= av@.skip(i + 1));
        assert(bv@.skip(i as int).drop_first() =~= bv@.skip(i + 1));
        i = i + 1;
    }
    if i == bv.len() {
        false
    } else if i == av.len() {
        true
    } else {
        (av[i] as u32) < (bv[i] as u32)
    }
}

/// A snapshot of the fixture, restricted to finals when `finals_only`.
pub open spec fn snapshot_candidate(s: SnapshotRef, match_id: Seq<char>, finals_only: bool) -> bool {
    s.match_id@ == match_id && (!finals_only || s.is_final_pre_match)
}

/// The candidate with the latest snapshot time, the earliest in list order
/// among equal times (the first after a stable sort, latest first).
pub open spec fn preferred_index(s: Seq<SnapshotRef>, match_id: Seq<char>, finals_only: bool) -> Option<
    int,
>
    decreases s.len(),
{
    if s.len() == 0 {
        None
    } else {
        let prev = preferred_index(s.drop_last(), match_id, finals_only);
        let last = s.last();
        if snapshot_candidate(last, match_id, finals_only) && match prev {
            None => true,
            Some(p) => text_before(s[p].snapshot_time@, last.snapshot_time@),
        } {
            Some(s.len() - 1)
        } else {
            prev
        }
    }
}

/// The chosen index is a candidate, and no candidate is later.
pub proof fn lemma_preferred_index(s: Seq<SnapshotRef>, match_id: Seq<char>, finals_only: bool)
    ensures
        match preferred_index(s, match_id, finals_only) {
            Some(i) => 0 <= i < s.len() && snapshot_candidate(s[i], match_id, finals_only)
                && forall|j: int|
                0 <= j < s.len() && snapshot_candidate(s[j], match_id, finals_only)
                    ==> !text_before(s[i].snapshot_time@, #[trigger] s[j].snapshot_time@),
            None => forall|j: int|
                0 <= j < s.len() ==> !snapshot_candidate(#[trigger] s[j], match_id, finals_only),
        },
    decreases s.len(),
{
    if s.len() > 0 {
        let d = s.drop_last();
        lemma_preferred_index(d, match_id, finals_only);
        let prev = preferred_index(d, match_id, finals_only);
        let last = s.last();
        if let Some(p) = prev {
            assert(d[p] == s[p]);
            assert forall|j: int| 0 <= j < d.len() implies #[trigger] d[j] == s[j] by {}
            if snapshot_candidate(last, match_id, finals_only) && text_before(
                s[p].snapshot_time@,
                last.snapshot_time@,
            ) {
                assert forall|j: int|
                    0 <= j < s.len() && snapshot_candidate(s[j], match_id, finals_only) implies !text_before(
                    last.snapshot_time@,
                    #[trigger] s[j].snapshot_time@,
                ) by {
                    if j < s.len() - 1 {
                        assert(d[j] == s[j]);
                        if text_before(last.snapshot_time@, s[j].snapshot_time@) {
                            lemma_text_before_trans(
                                s[p].snapshot_time@,
                                last.snapshot_time@,
                                s[j].snapshot_time@,
                            );
                        }
                    } else {
                        lemma_text_before_irrefl(last.snapshot_time@);
                    }
                }
            } else {
                assert forall|j: int|
                    0 <= j < s.len() && snapshot_candidate(s[j], match_id, finals_only) implies !text_before(
                    s[p].snapshot_time@,
                    #[trigger] s[j].snapshot_time@,
                ) by {
                    if j < s.len() - 1 {
                        assert(d[j] == s[j]);
                    }
                }
            }
        } else {
            assert forall|j: int| 0 <= j < d.len() implies #[trigger] d[j] == s[j] by {}
            if snapshot_candidate(last, match_id, finals_only) {
                assert forall|j: int|
                    0 <= j < s.len() && snapshot_candidate(s[j], match_id, finals_only) implies !text_before(
                    last.snapshot_time@,
                    #[trigger] s[j].snapshot_time@,
                ) by {
                    if j < s.len() - 1 {
                        assert(d[j] == s[j]);
                    } else {
                        lemma_text_before_irrefl(last.snapshot_time@);
                    }
                }
            } else {
                assert forall|j: int| 0 <= j < s.len() implies !snapshot_candidate(
                    #[trigger] s[j],
                    match_id,
                    finals_only,
                ) by {
                    if j < s.len() - 1 {
                        assert(d[j] == s[j]);
                    }
                }
            }
        }
    }
}

/// No text sorts before itself.
pub proof fn lemma_text_before_irrefl(a: Seq<char>)
    ensures
        !text_before(a, a),
    decreases a.len(),
{
    if a.len() > 0 {
        lemma_text_before_irrefl(a.drop_first());
    }
}

/// The text order is transitive.
pub proof fn lemma_text_before_trans(a: Seq<char>, b: Seq<char>, c: Seq<char>)
    requires
        text_before(a, b),
        text_before(b, c),
    ensures
        text_before(a, c),
    decreases a.len(),
{
    if a.len() > 0 && b.len() > 0 && c.len() > 0 && a[0] == b[0] && b[0] == c[0] {
        lemma_text_before_trans(a.drop_first(), b.drop_first(), c.drop_first());
    }
}

/// `latest_snapshot_note`: the note and snapshot id that the practical
/// advice shows for a fixture.
pub open spec fn snapshot_note(s: Seq<SnapshotRef>, match_id: Seq<char>) -> (Seq<char>, Option<i64>) {
    match preferred_index(s, match_id, true) {
        Some(i) => ("使用 final snapshot"@, Some(s[i].id)),
        None => match preferred_index(s, match_id, false) {
            Some(i) => ("非最终快照，建议临场前复查。"@, Some(s[i].id)),
            None => ("暂无赛前快照，使用当前推荐缓存。"@, None),
        },
    }
}

fn preferred_pair(snapshots: &[SnapshotRef], match_id: &str) -> (r: (Option<usize>, Option<usize>))
    ensures
        opt_index(r.0) == preferred_index(snapshots@, match_id@, true),
        opt_index(r.1) == preferred_index(snapshots@, match_id@, false),
        r.0 matches Some(b) ==> b < snapshots@.len(),
        r.1 matches Some(b) ==> b < snapshots@.len(),
{
    let mut best_final: Option<usize> = None;
    let mut best_any: Option<usize> = None;
    let mut i: usize = 0;
    while i < snapshots.len()
        invariant
            i <= snapshots@.len(),
            opt_index(best_final) == preferred_index(snapshots@.take(i as int), match_id@, true),
            opt_index(best_any) == preferred_index(snapshots@.take(i as int), match_id@, false),
            best_final matches Some(b) ==> b < i,
            best_any matches Some(b) ==> b < i,
        decreases snapshots@.len() - i,
    {
        let ghost t = snapshots@.take(i + 1);
        assert(t.drop_last() =~= snapshots@.take(i as int));
        assert(t.last() == snapshots@[i as int]);
        let s = &snapshots[i];
        let is_match = str_eq(s.match_id.as_str(), match_id);
        proof {
            if let Some(b) = best_final {
                assert(t[b as int] == snapshots@[b as int]);
            }
            if let Some(b) = best_any {
                assert(t[b as int] == snapshots@[b as int]);
            }
        }
        if is_match {
            let later_any = match best_any {
                None => true,
                Some(b) => text_less(&snapshots[b].snapshot_time, &s.snapshot_time),
            };
            if later_any {
                best_any = Some(i);
            }
            if s.is_final_pre_match {
                let later_final = match best_final {
                    None => true,
                    Some(b) => text_less(&snapshots[b].snapshot_time, &s.snapshot_time),
                };
                if later_final {
                    best_final = Some(i);
                }
            }
        }
        i = i + 1;
    }
    assert(snapshots@.take(snapshots@.len() as int) =~= snapshots@);
    (best_final, best_any)
}

/// The snapshot the practical advice uses for a fixture: its latest final
/// snapshot when there is one, else its latest snapshot, with a note saying
/// which.
pub fn latest_snapshot_note(snapshots: &[SnapshotRef], match_id: &str) -> (r: (String, Option<i64>))
    ensures
        r.0@ == snapshot_note(snapshots@, match_id@).0,
        r.1 == snapshot_note(snapshots@, match_id@).1,
        (exists|j: int|
            0 <= j < snapshots@.len() && snapshots@[j].match_id@ == match_id@
                && snapshots@[j].is_final_pre_match) ==> (exists|j: int|
            0 <= j < snapshots@.len() && snapshots@[j].match_id@ == match_id@
                && snapshots@[j].is_final_pre_match && r.1 == Some(snapshots@[j].id)),
{
    let (best_final, best_any) = preferred_pair(snapshots, match_id);
    proof {
        lemma_preferred_index(snapshots@, match_id@, true);
    }
    match best_final {
        Some(b) => {
            return (owned("使用 final snapshot"), Some(snapshots[b].id));
        },
        None => {},
    }
    match best_any {
        Some(b) => (owned("非最终快照，建议临场前复查。"), Some(snapshots[b].id)),
        None => (owned("暂无赛前快照，使用当前推荐缓存。"), None),
    }
}

/// The snapshot a fixture uses: its preferred final snapshot, else its
/// preferred snapshot of any kind.
pub open spec fn preferred_for(s: Seq<SnapshotRef>, match_id: Seq<char>) -> Option<int> {
    match preferred_index(s, match_id, true) {
        Some(i) => Some(i),
        None => preferred_index(s, match_id, false),
    }
}

/// The fields of a snapshot reference as plain values.
pub open spec fn ref_view(r: SnapshotRef) -> (i64, Seq<char>, Seq<char>, bool) {
    (r.id, r.match_id@, r.snapshot_time@, r.is_final_pre_match)
}

/// Two different texts are ordered one way or the other.
pub proof fn lemma_text_before_total(a: Seq<char>, b: Seq<char>)
    requires
        a != b,
    ensures
        text_before(a, b) || text_before(b, a),
    decreases a.len(),
{
    if a.len() > 0 && b.len() > 0 {
        if a[0] == b[0] {
            if a.drop_first() == b.drop_first() {
                assert(a =~= seq![a[0]] + a.drop_first());
                assert(b =~= seq![b[0]] + b.drop_first());
            }
            lemma_text_before_total(a.drop_first(), b.drop_first());
        } else {
            let x = a[0];
            let y = b[0];
            if (x as u32) == (y as u32) {
                vstd::utf8::char_u32_cast(x, x as u32);
                vstd::utf8::char_u32_cast(y, y as u32);
            }
        }
    } else if a.len() == 0 && b.len() == 0 {
        assert(a =~= b);
    }
}

/// The match ids of a list of snapshots.
pub open spec fn match_ids(s: Seq<SnapshotRef>) -> Seq<Seq<char>> {
    s.map_values(|x: SnapshotRef| x.match_id@)
}

/// A list of texts in strictly increasing order.
pub open spec fn strictly_sorted(k: Seq<Seq<char>>) -> bool {
    forall|a: int, b: int| 0 <= a < b < k.len() ==> text_before(#[trigger] k[a], #[trigger] k[b])
}

proof fn lemma_insert_sorted(old: Seq<Seq<char>>, p: int, id: Seq<char>)
    requires
        0 <= p <= old.len(),
        strictly_sorted(old),
        forall|q: int| 0 <= q < p ==> text_before(#[trigger] old[q], id),
        p < old.len() ==> text_before(id, old[p]),
    ensures
        strictly_sorted(old.insert(p, id)),
{
    let n = old.insert(p, id);
    assert forall|a: int, b: int| 0 <= a < b < n.len() implies text_before(#[trigger] n[a], #[trigger] n[b]) by {
        if b < p {
            assert(n[a] == old[a] && n[b] == old[b]);
        } else if b == p {
            assert(n[a] == old[a]);
        } else if a < p {
            assert(n[a] == old[a] && n[b] == old[b - 1]);
            if b - 1 > p {
                lemma_text_before_trans(id, old[p], old[b - 1]);
            }
            lemma_text_before_trans(old[a], id, old[b - 1]);
        } else if a == p {
            assert(n[b] == old[b - 1]);
            if b - 1 > p {
                lemma_text_before_trans(id, old[p], old[b - 1]);
            }
        } else {
            assert(n[a] == old[a - 1] && n[b] == old[b - 1]);
        }
    }
}

fn copy_ref(r: &SnapshotRef) -> (c: SnapshotRef)
    ensures
        ref_view(c) == ref_view(*r),
{
    SnapshotRef {
        id: r.id,
        match_id: r.match_id.clone(),
        snapshot_time: r.snapshot_time.clone(),
        is_final_pre_match: r.is_final_pre_match,
    }
}

/// The distinct texts of a list, in increasing text order.
pub fn sorted_distinct_texts(texts: &Vec<String>) -> (keys: Vec<String>)
    ensures
        strictly_sorted(string_views(keys@)),
        forall|q: int| 0 <= q < texts@.len() ==> string_views(keys@).contains(#[trigger] string_views(texts@)[q]),
        forall|k: int| 0 <= k < keys@.len() ==> string_views(texts@).contains(#[trigger] string_views(keys@)[k]),
{
    let ghost ids = string_views(texts@);
    let mut keys: Vec<String> = Vec::new();
    let mut i: usize = 0;
    assert(strictly_sorted(string_views(keys@)));
    while i < texts.len()
        invariant
            i <= texts@.len(),
            ids == string_views(texts@),
            strictly_sorted(string_views(keys@)),
            forall|q: int| 0 <= q < i ==> string_views(keys@).contains(#[trigger] ids[q]),
            forall|k: int| 0 <= k < keys@.len() ==> ids.contains(#[trigger] string_views(keys@)[k]),
        decreases texts@.len() - i,
    {
        let id = &texts[i];
        assert(ids[i as int] == id@);
        let mut p: usize = 0;
        while p < keys.len() && text_less(&keys[p], id)
            invariant
                p <= keys@.len(),
                forall|q: int| 0 <= q < p ==> text_before(#[trigger] string_views(keys@)[q], id@),
            decreases keys@.len() - p,
        {
            p = p + 1;
        }
        let present = p < keys.len() && str_eq(keys[p].as_str(), id.as_str());
        let ghost old_v = string_views(keys@);
        if present {
            assert(old_v[p as int] == id@);
            assert(string_views(keys@).contains(ids[i as int]));
        } else {
            proof {
                if p < old_v.len() {
                    assert(!text_before(old_v[p as int], id@));
                    lemma_text_before_total(old_v[p as int], id@);
                }
                lemma_insert_sorted(old_v, p as int, id@);
            }
            keys.insert(p, id.clone());
            proof {
                let nv = string_views(keys@);
                assert(nv =~= old_v.insert(p as int, id@));
                assert(nv[p as int] == ids[i as int]);
                assert forall|q: int| 0 <= q < i + 1 implies nv.contains(#[trigger] ids[q]) by {
                    if q < i {
                        let k0 = choose|k: int| 0 <= k < old_v.len() && old_v[k] == ids[q];
                        if k0 < p {
                            assert(nv[k0] == old_v[k0]);
                        } else {
                            assert(nv[k0 + 1] == old_v[k0]);
                        }
                    }
                }
                assert forall|k: int| 0 <= k < nv.len() implies ids.contains(#[trigger] nv[k]) by {
                    if k < p {
                        assert(nv[k] == old_v[k]);
                    } else if k > p {
                        assert(nv[k] == old_v[k - 1]);
                    } else {
                        assert(nv[k] == ids[i as int]);
                    }
                }
            }
        }
        i = i + 1;
    }
    keys
}

/// The distinct match ids of the snapshots, in increasing text order.
fn sorted_match_ids(snapshots: &[SnapshotRef]) -> (keys: Vec<String>)
    ensures
        strictly_sorted(string_views(keys@)),
        forall|q: int| 0 <= q < snapshots@.len() ==> string_views(keys@).contains(#[trigger] match_ids(snapshots@)[q]),
        forall|k: int| 0 <= k < keys@.len() ==> match_ids(snapshots@).contains(#[trigger] string_views(keys@)[k]),
{
    let mut ids: Vec<String> = Vec::new();
    let mut i: usize = 0;
    while i < snapshots.len()
        invariant
            i <= snapshots@.len(),
            string_views(ids@) =~= match_ids(snapshots@.take(i as int)),
        decreases snapshots@.len() - i,
    {
        ids.push(snapshots[i].match_id.clone());
        assert(match_ids(snapshots@.take(i + 1)) =~= match_ids(snapshots@.take(i as int)).push(snapshots@[i as int].match_id@));
        i = i + 1;
    }
    assert(snapshots@.take(snapshots@.len() as int) =~= snapshots@);
    sorted_distinct_texts(&ids)
}

/// `preferred_snapshots_by_match`: for each fixture with snapshots, in
/// increasing order of match id, the snapshot it uses.
pub fn preferred_snapshots_by_match(snapshots: &[SnapshotRef]) -> (r: Vec<SnapshotRef>)
    ensures
        forall|k: int|
            0 <= k < r@.len() ==> match preferred_for(snapshots@, #[trigger] r@[k].match_id@) {
                Some(i) => 0 <= i < snapshots@.len() && ref_view(r@[k]) == ref_view(snapshots@[i]),
                None => false,
            },
        strictly_sorted(match_ids(r@)),
        forall|q: int| 0 <= q < snapshots@.len() ==> match_ids(r@).contains(#[trigger] match_ids(snapshots@)[q]),
{
    let keys = sorted_match_ids(snapshots);
    let ghost kv = string_views(keys@);
    let ghost ids = match_ids(snapshots@);
    let mut out: Vec<SnapshotRef> = Vec::new();
    let mut k: usize = 0;
    while k < keys.len()
        invariant
            k <= keys@.len(),
            out@.len() == k,
            kv == string_views(keys@),
            ids == match_ids(snapshots@),
            forall|j: int| 0 <= j < keys@.len() ==> ids.contains(#[trigger] kv[j]),
            forall|j: int| 0 <= j < k ==> #[trigger] out@[j].match_id@ == kv[j],
            forall|j: int|
                0 <= j < k ==> match preferred_for(snapshots@, #[trigger] out@[j].match_id@) {
                    Some(i) => 0 <= i < snapshots@.len() && ref_view(out@[j]) == ref_view(snapshots@[i]),
                    None => false,
                },
        decreases keys@.len() - k,
    {
        let (best_final, best_any) = preferred_pair(snapshots, keys[k].as_str());
        proof {
            assert(ids.contains(kv[k as int]));
            let q = choose|q: int| 0 <= q < ids.len() && ids[q] == kv[k as int];
            assert(snapshot_candidate(snapshots@[q], keys@[k as int]@, false));
            lemma_preferred_index(snapshots@, keys@[k as int]@, false);
        }
        let b = match best_final {
            Some(b) => b,
            None => match best_any {
                Some(b) => b,
                None => {
                    assert(false);
                    0
                },
            },
        };
        let c = copy_ref(&snapshots[b]);
        proof {
            lemma_preferred_index(snapshots@, keys@[k as int]@, true);
            lemma_preferred_index(snapshots@, keys@[k as int]@, false);
        }
        out.push(c);
        k = k + 1;
    }
    proof {
        assert(match_ids(out@) =~= kv);
    }
    out
}

/// An optional `usize` index as a spec index.
pub open spec fn opt_index(o: Option<usize>) -> Option<int> {
    match o {
        Some(i) => Some(i as int),
        None => None,
    }
}

// ---------------------------------------------------------------------------
// Reading a snapshot's per-pick decisions
// ---------------------------------------------------------------------------

/// A text member of a JSON row, empty when missing or not a string.
pub open spec fn row_text(row: JsonValue, key: Seq<char>) -> Seq<char> {
    or_text(str_of(obj_get(Some(row), key)), ""@)
}

/// A decision row is about the given market and pick.
pub open spec fn row_is_for(row: JsonValue, market: Seq<char>, pick: Seq<char>) -> bool {
    row_text(row, "market"@) == market && row_text(row, "pick"@) == pick
}

/// The index of the first row about the market and pick.
pub open spec fn first_row_for(rows: Seq<JsonValue>, market: Seq<char>, pick: Seq<char>) -> Option<int>
    decreases rows.len(),
{
    if rows.len() == 0 {
        None
    } else if row_is_for(rows[0], market, pick) {
        Some(0)
    } else {
        match first_row_for(rows.drop_first(), market, pick) {
            Some(i) => Some(i + 1),
            None => None,
        }
    }
}

/// `json_row_for`: the first row of a JSON array about the market and pick.
pub open spec fn json_row_spec(rows: JsonValue, market: Seq<char>, pick: Seq<char>) -> Option<JsonValue> {
    match rows {
        JsonValue::Array(items) => match first_row_for(items@, market, pick) {
            Some(i) => Some(items@[i]),
            None => None,
        },
        _ => None,
    }
}

fn row_text_exec(row: &JsonValue, key: &str) -> (r: String)
    ensures
        r@ == row_text(*row, key@),
{
    str_or(obj_get_exec(Some(row), key), "")
}

/// The first row of a JSON array that is about the given market and pick.
pub fn json_row_for<'a>(rows: &'a JsonValue, market: &str, pick: &str) -> (r: Option<&'a JsonValue>)
    ensures
        match json_row_spec(*rows, market@, pick@) {
            Some(v) => r matches Some(x) && *x == v,
            None => r is None,
        },
{
    match rows {
        JsonValue::Array(items) => {
            let mut i: usize = 0;
            assert(items@.skip(0) =~= items@);
            while i < items.len()
                invariant
                    i <= items@.len(),
                    *rows == JsonValue::Array(*items),
                    first_row_for(items@, market@, pick@) == match first_row_for(items@.skip(i as int), market@, pick@) {
                        Some(k) => Some(k + i),
                        None => None,
                    },
                decreases items@.len() - i,
            {
                let ghost rest = items@.skip(i as int);
                assert(rest[0] == items@[i as int]);
                assert(rest.drop_first() =~= items@.skip(i + 1));
                let m = row_text_exec(&items[i], "market");
                let p = row_text_exec(&items[i], "pick");
                if str_eq(m.as_str(), market) && str_eq(p.as_str(), pick) {
                    return Some(&items[i]);
                }
                i = i + 1;
            }
            None
        },
        _ => None,
    }
}

/// `snapshot_final_decision_for`: the final decision a snapshot recorded
/// for one pick, else the snapshot's own final decision.
pub open spec fn final_decision_for(
    reasons: JsonValue,
    snapshot_decision: Seq<char>,
    market: Seq<char>,
    pick: Seq<char>,
) -> Seq<char> {
    match json_row_spec(reasons, market, pick) {
        Some(row) => match str_of(obj_get(Some(row), "final_decision"@)) {
            Some(d) => d,
            None => snapshot_decision,
        },
        None => snapshot_decision,
    }
}

/// The final decision a snapshot recorded for a pick, from its per-pick
/// decision rows, falling back to the snapshot's own final decision.
pub fn snapshot_final_decision_for(
    decision_reasons: &JsonValue,
    final_decision: &str,
    market: &str,
    pick: &str,
) -> (r: String)
    ensures
        r@ == final_decision_for(*decision_reasons, final_decision@, market@, pick@),
{
    match json_row_for(decision_reasons, market, pick) {
        Some(row) => match obj_get_exec(Some(row), "final_decision") {
            Some(JsonValue::Str(d)) => d.clone(),
            _ => owned(final_decision),
        },
        None => owned(final_decision),
    }
}

/// The non-empty parts joined by a separator.
pub open spec fn join_parts(parts: Seq<Seq<char>>, sep: Seq<char>) -> Seq<char>
    decreases parts.len(),
{
    if parts.len() == 0 {
        Seq::empty()
    } else {
        let prev = join_parts(parts.drop_last(), sep);
        let p = parts.last();
        if p.len() == 0 {
            prev
        } else if prev.len() == 0 {
            p
        } else {
            prev + sep + p
        }
    }
}

/// `snapshot_reason_text_for`: the reason, risk and support that a snapshot
/// recorded for one pick, the non-empty ones joined by `；`.
pub open spec fn reason_text_for(reasons: JsonValue, market: Seq<char>, pick: Seq<char>) -> Seq<char> {
    match json_row_spec(reasons, market, pick) {
        Some(row) => join_parts(
            seq![row_text(row, "reason"@), row_text(row, "risk"@), row_text(row, "support"@)],
            "；"@,
        ),
        None => Seq::empty(),
    }
}

fn join_part(acc: Vec<char>, part: &String, sep: &Vec<char>) -> (r: Vec<char>)
    ensures
        r@ == (if part@.len() == 0 {
            acc@
        } else if acc@.len() == 0 {
            part@
        } else {
            acc@ + sep@ + part@
        }),
{
    let pv = chars_of(part.as_str());
    if pv.len() == 0 {
        acc
    } else if acc.len() == 0 {
        pv
    } else {
        let mut out = acc;
        push_all(&mut out, sep);
        push_all(&mut out, &pv);
        out
    }
}

/// The reason text a snapshot recorded for a pick: its reason, risk and
/// support, the non-empty ones joined by `；`; empty without a row.
pub fn snapshot_reason_text_for(decision_reasons: &JsonValue, market: &str, pick: &str) -> (r: String)
    ensures
        r@ == reason_text_for(*decision_reasons, market@, pick@),
{
    match json_row_for(decision_reasons, market, pick) {
        Some(row) => {
            let sep = chars_of("；");
            let a = row_text_exec(row, "reason");
            let b = row_text_exec(row, "risk");
            let c = row_text_exec(row, "support");
            let ghost parts = seq![a@, b@, c@];
            assert(seq![a@].drop_last() =~= Seq::<Seq<char>>::empty());
            assert(join_parts(Seq::<Seq<char>>::empty(), sep@) == Seq::<char>::empty());
            assert(seq![a@].last() == a@);
            assert(seq![a@, b@].last() == b@);
            assert(parts.last() == c@);
            assert(seq![a@, b@].drop_last() =~= seq![a@]);
            assert(parts.drop_last() =~= seq![a@, b@]);
            let j1 = join_part(Vec::new(), &a, &sep);
            assert(j1@ == join_parts(seq![a@], sep@));
            let j2 = join_part(j1, &b, &sep);
            assert(j2@ == join_parts(seq![a@, b@], sep@));
            let j3 = join_part(j2, &c, &sep);
            assert(j3@ == join_parts(parts, sep@));
            string_of(&j3)
        },
        None => String::new(),
    }
}

} // verus!
