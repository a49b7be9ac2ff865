use worldcup_odds::health::{
    push_check, startup_health_report, startup_status_from_checks, HealthCheck, StartupObservations,
};

fn check(ok: bool, severity: &str) -> HealthCheck {
    HealthCheck { name: "c".to_string(), ok, severity: severity.to_string(), message: String::new() }
}

#[test]
fn startup_check_status_prefers_critical_then_warning() {
    let ok = vec![check(true, "warning")];
    assert_eq!(startup_status_from_checks(&ok), "ok");
    let warning = vec![check(false, "warning")];
    assert_eq!(startup_status_from_checks(&warning), "warning");
    let critical = vec![check(false, "critical")];
    assert_eq!(startup_status_from_checks(&critical), "critical");
}

fn healthy() -> StartupObservations {
    StartupObservations {
        database_error: None,
        missing_tables: Vec::new(),
        api_football_configured: true,
        match_cache_count: 3,
        odds_count: 10,
        snapshot_count: 2,
        final_snapshot_count: 1,
        result_count: 5,
        backup_writable: true,
        has_backup_today: true,
    }
}

#[test]
fn healthy_startup_is_ok_without_warnings() {
    let report = startup_health_report(&healthy());
    assert_eq!(report.status, "ok");
    assert_eq!(report.checks.len(), 10);
    assert!(report.warnings.is_empty());
    assert!(report.suggested_actions.is_empty());
}

#[test]
fn unreadable_database_is_critical() {
    let obs = StartupObservations { database_error: Some("locked".to_string()), ..healthy() };
    let report = startup_health_report(&obs);
    assert_eq!(report.status, "critical");
    assert_eq!(report.checks.len(), 1);
    assert_eq!(report.checks[0].message, "数据库不可读：locked");
}

#[test]
fn missing_tables_and_snapshots_raise_warnings() {
    let obs = StartupObservations {
        missing_tables: vec!["cache".to_string(), "match_results".to_string()],
        final_snapshot_count: 0,
        has_backup_today: false,
        ..healthy()
    };
    let report = startup_health_report(&obs);
    assert_eq!(report.status, "critical");
    assert_eq!(report.warnings[0], "缺失数据表：cache, match_results");
    assert_eq!(report.warnings[1], "已有快照但没有 final snapshot。");
    assert_eq!(report.warnings[2], "今天还没有备份。");
    assert_eq!(report.suggested_actions.len(), 3);
    let only_warnings = StartupObservations { odds_count: 0, ..healthy() };
    assert_eq!(startup_health_report(&only_warnings).status, "warning");
}

#[test]
fn push_check_appends_one_check() {
    let mut checks: Vec<HealthCheck> = Vec::new();
    push_check(&mut checks, "数据库", true, "critical", "数据库可读写");
    push_check(&mut checks, "备份", false, "warning", "今天还没有备份。");
    assert_eq!(checks.len(), 2);
    assert_eq!(checks[1].name, "备份");
    assert!(!checks[1].ok);
    assert_eq!(checks[1].severity, "warning");
    assert_eq!(checks[1].message, "今天还没有备份。");
    assert_eq!(startup_status_from_checks(&checks), "warning");
}
