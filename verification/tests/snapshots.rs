use worldcup_odds::snapshot::{
    add_snapshot_column_sql, csv_cell, csv_document, expected_pre_match_snapshot_columns, kickoff_is_future,
    latest_snapshot_note, live_paper_csv_sql, missing_pre_match_snapshot_columns,
    parse_time_as_utc, pre_match_snapshot_export_sql, pre_match_snapshot_select_sql, SnapshotRef,
};

#[test]
fn snapshot_time_comparison_uses_utc_not_string_order() {
    assert!(kickoff_is_future("2026-06-30T12:00:00Z", "2026-06-30T11:59:00Z"));
    assert!(kickoff_is_future("2026-06-30T12:00:00Z", "2026-06-30T20:59:00+09:00"));
    assert!(!kickoff_is_future("2026-06-30T12:00:00Z", "2026-06-30T21:01:00+09:00"));
}

#[test]
fn live_paper_requires_created_before_kickoff() {
    assert!(kickoff_is_future("2026-06-30T12:00:00+00:00", "2026-06-30T10:00:00+00:00"));
    assert!(!kickoff_is_future("2026-06-30T09:00:00+00:00", "2026-06-30T10:00:00+00:00"));
}

#[test]
fn pre_match_snapshot_runtime_sql_does_not_use_select_star() {
    let needle = ["select *", " from pre_match_snapshots"].join("");
    let select = pre_match_snapshot_select_sql("where s.match_id=?1").to_ascii_lowercase();
    let export = pre_match_snapshot_export_sql().to_ascii_lowercase();
    assert!(!select.contains(&needle));
    assert!(!export.contains(&needle));
    assert!(!select.contains("select *"));
}

#[test]
fn csv_cell_quotes_commas_quotes_and_newlines() {
    assert_eq!(csv_cell("法国"), "法国");
    assert_eq!(csv_cell("风险,降级"), "\"风险,降级\"");
    assert_eq!(csv_cell("他说\"观察\""), "\"他说\"\"观察\"\"\"");
}

#[test]
fn csv_cell_quotes_newlines() {
    assert_eq!(csv_cell("a\nb"), "\"a\nb\"");
    assert_eq!(csv_cell(""), "");
}

#[test]
fn time_parser_accepts_three_formats() {
    assert_eq!(parse_time_as_utc("1970-01-01T00:00:10Z"), Some((10, 0)));
    assert_eq!(parse_time_as_utc(" 1970-01-01 00:01:00 "), Some((60, 0)));
    assert_eq!(parse_time_as_utc("1970-01-01T00:01:00"), Some((60, 0)));
    assert_eq!(parse_time_as_utc("   "), None);
    assert_eq!(parse_time_as_utc("yesterday"), None);
    assert!(!kickoff_is_future("not a time", "2026-06-30T10:00:00Z"));
    assert!(!kickoff_is_future("2026-06-30T10:00:00Z", "2026-06-30T10:00:00Z"));
}

#[test]
fn select_sql_wraps_the_where_clause() {
    let sql = pre_match_snapshot_select_sql("where s.id=1");
    assert!(sql.starts_with("select s.id, s.match_id"));
    assert!(sql.ends_with("where s.id=1 order by s.kickoff_time asc, s.id desc"));
    assert!(live_paper_csv_sql().contains("where source='live_pre_match'"));
}

#[test]
fn expected_columns_start_with_id() {
    let columns = expected_pre_match_snapshot_columns();
    assert_eq!(columns.len(), 33);
    assert_eq!(columns[0], "id");
    assert_eq!(columns[1], "match_id");
    assert_eq!(columns[32], "updated_at");
}

#[test]
fn migration_adds_only_missing_columns() {
    let existing = vec!["id".to_string(), "match_id".to_string(), "kickoff_time".to_string()];
    let missing = missing_pre_match_snapshot_columns(&existing);
    assert_eq!(missing.len(), 30);
    assert!(missing.iter().any(|(name, _)| *name == "created_before_kickoff"));
    assert!(missing.iter().all(|(name, _)| *name != "match_id" && *name != "kickoff_time"));
    assert_eq!(
        add_snapshot_column_sql("ev_json", "text not null default 'null'"),
        "alter table pre_match_snapshots add column ev_json text not null default 'null'"
    );
}

fn snap(id: i64, match_id: &str, time: &str, is_final: bool) -> SnapshotRef {
    SnapshotRef {
        id,
        match_id: match_id.to_string(),
        snapshot_time: time.to_string(),
        is_final_pre_match: is_final,
    }
}

#[test]
fn practical_mode_final_snapshot_preferred_over_latest() {
    let snapshots = vec![
        snap(1, "m1", "2026-06-29T10:00:00Z", false),
        snap(2, "m1", "2026-06-29T09:00:00Z", true),
    ];
    let (note, id) = latest_snapshot_note(&snapshots, "m1");
    assert_eq!(id, Some(2));
    assert!(note.contains("final"));
}

#[test]
fn practical_mode_latest_snapshot_note_when_no_final() {
    let snapshots = vec![snap(3, "m2", "2026-06-29T11:00:00Z", false)];
    let (note, id) = latest_snapshot_note(&snapshots, "m2");
    assert_eq!(id, Some(3));
    assert!(note.contains("非最终快照"));
}

#[test]
fn snapshot_note_without_snapshots_and_ties() {
    let (note, id) = latest_snapshot_note(&[], "m9");
    assert_eq!(id, None);
    assert_eq!(note, "暂无赛前快照，使用当前推荐缓存。");
    let tied = vec![
        snap(4, "m1", "2026-06-29T10:00:00Z", false),
        snap(5, "m1", "2026-06-29T10:00:00Z", false),
        snap(6, "m2", "2026-06-30T10:00:00Z", true),
    ];
    assert_eq!(latest_snapshot_note(&tied, "m1").1, Some(4));
}

fn table_columns(conn: &rusqlite::Connection) -> Vec<String> {
    let mut stmt = conn.prepare("pragma table_info(pre_match_snapshots)").unwrap();
    let rows = stmt.query_map([], |row| row.get::<_, String>(1)).unwrap();
    rows.collect::<Result<Vec<_>, _>>().unwrap()
}

fn ensure_pre_match_snapshot_schema(conn: &rusqlite::Connection) -> Vec<String> {
    let existing = table_columns(conn);
    let mut added = Vec::new();
    for (name, definition) in missing_pre_match_snapshot_columns(&existing) {
        conn.execute(&add_snapshot_column_sql(name, definition), []).unwrap();
        added.push(name.to_string());
    }
    added
}

#[test]
fn old_pre_match_snapshot_table_is_migrated_without_deleting_rows() {
    let conn = rusqlite::Connection::open_in_memory().unwrap();
    conn.execute_batch(
        r#"
        create table pre_match_snapshots(
          id integer primary key autoincrement,
          match_id text not null,
          kickoff_time text not null
        );
        insert into pre_match_snapshots(match_id, kickoff_time) values('m1','2026-06-30T12:00:00Z');
        "#,
    )
    .unwrap();
    let added = ensure_pre_match_snapshot_schema(&conn);
    let columns = table_columns(&conn);
    assert!(added.iter().any(|item| item == "created_before_kickoff"));
    assert!(columns.iter().any(|item| item == "model_probs_json"));
    assert!(columns.iter().any(|item| item == "ev_json"));
    let count: i64 = conn
        .query_row("select count(*) from pre_match_snapshots", [], |row| row.get(0))
        .unwrap();
    assert_eq!(count, 1);
    assert!(ensure_pre_match_snapshot_schema(&conn).is_empty());
    let mut present = table_columns(&conn);
    let mut expected: Vec<String> = expected_pre_match_snapshot_columns().iter().map(|c| c.to_string()).collect();
    present.sort();
    expected.sort();
    assert_eq!(present, expected);
}

fn query_cells(conn: &rusqlite::Connection, sql: &str) -> (Vec<String>, Vec<Vec<String>>) {
    let mut stmt = conn.prepare(sql).unwrap();
    let header: Vec<String> = stmt.column_names().iter().map(|name| name.to_string()).collect();
    let count = stmt.column_count();
    let mut rows = stmt.query([]).unwrap();
    let mut cells = Vec::new();
    while let Some(row) = rows.next().unwrap() {
        let line = (0..count)
            .map(|idx| match row.get_ref(idx).unwrap() {
                rusqlite::types::ValueRef::Null => String::new(),
                rusqlite::types::ValueRef::Integer(v) => v.to_string(),
                rusqlite::types::ValueRef::Real(v) => v.to_string(),
                rusqlite::types::ValueRef::Text(v) => String::from_utf8_lossy(v).to_string(),
                rusqlite::types::ValueRef::Blob(v) => format!("<{} bytes>", v.len()),
            })
            .collect();
        cells.push(line);
    }
    (header, cells)
}

fn query_to_csv(conn: &rusqlite::Connection, sql: &str) -> String {
    let (header, cells) = query_cells(conn, sql);
    csv_document(&header, &cells)
}

#[test]
fn snapshot_and_live_csv_exports_have_headers() {
    let conn = rusqlite::Connection::open_in_memory().unwrap();
    conn.execute_batch(
        r#"
        create table pre_match_snapshots(id integer, match_id text, kickoff_time text);
        insert into pre_match_snapshots values(1,'m1','2026-06-30T10:00:00Z');
        create table paper_trading_records(
          id integer, match_id text, snapshot_id integer, strategy_id text, model_version text,
          selection text, play_type text, model_prob real, odds real, ev real, advantage_rate real,
          data_quality_score real, risk_tags_json text, worldcup_correction_action text,
          paper_stake real, result_status text, is_hit integer, paper_profit real,
          source text, created_before_kickoff integer, is_final_snapshot integer, created_at text, settled_at text
        );
        insert into paper_trading_records values(1,'m1',1,'candidate_strategy_v1','model','H','spf',0.5,2.0,0.0,0.0,80,'[]','keep',1,'pending',null,0,'live_pre_match',1,1,'now',null);
        "#,
    )
    .unwrap();
    let snapshot_csv = query_to_csv(&conn, "select id, match_id, kickoff_time from pre_match_snapshots");
    let live_csv = query_to_csv(&conn, live_paper_csv_sql());
    assert!(snapshot_csv.starts_with("id,match_id,kickoff_time"));
    assert!(live_csv.contains("strategy_id"));
    assert!(live_csv.contains("live_pre_match"));
}

#[test]
fn audit_logs_csv_export_has_headers() {
    let conn = rusqlite::Connection::open_in_memory().unwrap();
    conn.execute_batch(
        r#"
        create table snapshot_audit_logs(id integer, snapshot_id integer, match_id text, audit_type text, severity text, message text, detected_at text, resolved integer, resolved_at text);
        insert into snapshot_audit_logs values(1,1,'m1','missing_odds','warning','赔率缺失','now',0,null);
        "#,
    )
    .unwrap();
    let csv = query_to_csv(&conn, "select * from snapshot_audit_logs order by detected_at desc, id desc");
    assert!(csv.starts_with("id,snapshot_id,match_id,audit_type,severity"));
    assert!(csv.contains("missing_odds"));
}

#[test]
fn csv_document_quotes_cells_and_ends_lines() {
    let header = vec!["id".to_string(), "note".to_string()];
    let rows = vec![
        vec!["1".to_string(), "风险,降级".to_string()],
        vec!["2".to_string(), String::new()],
    ];
    assert_eq!(csv_document(&header, &rows), "id,note\n1,\"风险,降级\"\n2,\n");
    assert_eq!(csv_document(&header, &Vec::new()), "id,note\n");
}
