//! The startup health check: from what the application observed at start
//! (database, tables, caches, backups) to the list of checks, warnings and
//! suggested actions, and the overall status.
use vstd::prelude::*;
use crate::text::{chars_of, owned, push_all, str_eq, string_of, string_views};

verus! {

/// One check of the startup health report.
#[derive(Clone, Debug, PartialEq, Eq)]
pub struct HealthCheck {
    pub name: String,
    pub ok: bool,
    pub severity: String,
    pub message: String,
}

/// A check as `(name, ok, severity, message)`.
pub type CheckFields = (Seq<char>, bool, Seq<char>, Seq<char>);

impl View for HealthCheck {
    type V = CheckFields;

    open spec fn view(&self) -> CheckFields {
        (self.name@, self.ok, self.severity@, self.message@)
    }
}

/// The views of a list of checks.
pub open spec fn check_views(v: Seq<HealthCheck>) -> Seq<CheckFields> {
    v.map_values(|c: HealthCheck| c@)
}

/// `startup_status_from_checks`: `critical` when a critical check failed,
/// else `warning` when any check failed, else `ok`.
pub open spec fn startup_status(checks: Seq<CheckFields>) -> Seq<char> {
    if exists|i: int| 0 <= i < checks.len() && !(#[trigger] checks[i]).1 && checks[i].2 == "critical"@ {
        "critical"@
    } else if exists|i: int| 0 <= i < checks.len() && !(#[trigger] checks[i]).1 {
        "warning"@
    } else {
        "ok"@
    }
}

/// The overall status of a list of startup checks.
pub fn startup_status_from_checks(checks: &[HealthCheck]) -> (r: &'static str)
    ensures
        r@ == startup_status(check_views(checks@)),
{
    let ghost cv = check_views(checks@);
    let mut any_failed = false;
    let mut i: usize = 0;
    while i < checks.len()
        invariant
            i <= checks@.len(),
            cv == check_views(checks@),
            any_failed == exists|j: int| 0 <= j < i && !(#[trigger] cv[j]).1,
            forall|j: int| 0 <= j < i ==> !(!(#[trigger] cv[j]).1 && cv[j].2 == "critical"@),
        decreases checks@.len() - i,
    {
        assert(cv[i as int] == checks@[i as int]@);
        if !checks[i].ok {
            if str_eq(checks[i].severity.as_str(), "critical") {
                return "critical";
            }
            any_failed = true;
        }
        i = i + 1;
    }
    if any_failed {
        "warning"
    } else {
        "ok"
    }
}

/// Appends a check.
pub fn push_check(checks: &mut Vec<HealthCheck>, name: &str, ok: bool, severity: &str, message: &str)
    ensures
        check_views(final(checks)@) == check_views(old(checks)@).push(
            (name@, ok, severity@, message@),
        ),
{
    let ghost before = checks@;
    checks.push(
        HealthCheck { name: owned(name), ok, severity: owned(severity), message: owned(message) },
    );
    assert(check_views(checks@) =~= check_views(before).push((name@, ok, severity@, message@)));
}

/// What the application observed at startup.
#[derive(Clone, Debug, PartialEq, Eq)]
pub struct StartupObservations {
    /// `None` when the database opened; else the error text.
    pub database_error: Option<String>,
    /// Required tables that are missing, in the order they were checked.
    pub missing_tables: Vec<String>,
    pub api_football_configured: bool,
    pub match_cache_count: i64,
    pub odds_count: i64,
    pub snapshot_count: i64,
    pub final_snapshot_count: i64,
    pub result_count: i64,
    pub backup_writable: bool,
    pub has_backup_today: bool,
}

/// The startup health report.
#[derive(Clone, Debug, PartialEq, Eq)]
pub struct StartupReport {
    pub status: String,
    pub checks: Vec<HealthCheck>,
    pub warnings: Vec<String>,
    pub suggested_actions: Vec<String>,
}

/// `join(", ")` of a list of texts.
pub open spec fn comma_join(v: Seq<Seq<char>>) -> Seq<char>
    decreases v.len(),
{
    if v.len() == 0 {
        Seq::empty()
    } else if v.len() == 1 {
        v[0]
    } else {
        comma_join(v.drop_last()) + ", "@ + v.last()
    }
}

/// A message chosen by a condition.
pub open spec fn pick(c: bool, yes: Seq<char>, no: Seq<char>) -> Seq<char> {
    if c {
        yes
    } else {
        no
    }
}

/// The checks of a startup whose database opened, in order.
pub open spec fn startup_checks(o: StartupObservations) -> Seq<CheckFields> {
    let tables_ok = o.missing_tables@.len() == 0;
    seq![
        ("database_readable"@, true, "critical"@, "数据库可读。"@),
        ("required_tables"@, tables_ok, "critical"@, pick(tables_ok, "核心数据表已就绪。"@, "存在缺失数据表。"@)),
        ("api_football_key_configured"@, o.api_football_configured, "warning"@, pick(o.api_football_configured, "API-Football Key 已配置，未返回明文。"@, "API-Football Key 未配置或该数据源已停用。"@)),
        ("today_matches_synced"@, o.match_cache_count > 0, "warning"@, pick(o.match_cache_count > 0, "今日比赛缓存已存在。"@, "今日比赛缓存为空。"@)),
        ("today_odds_available"@, o.odds_count > 0, "warning"@, pick(o.odds_count > 0, "赔率快照已存在。"@, "赔率快照为空。"@)),
        ("pre_match_snapshots_available"@, o.snapshot_count > 0, "warning"@, pick(o.snapshot_count > 0, "赛前快照已存在。"@, "暂无赛前快照。"@)),
        ("final_snapshot_available"@, o.final_snapshot_count > 0, "warning"@, pick(o.final_snapshot_count > 0, "已存在 final snapshot。"@, "暂无 final snapshot。"@)),
        ("results_synced"@, o.result_count > 0, "warning"@, pick(o.result_count > 0, "赛果数据已存在。"@, "赛果数据为空。"@)),
        ("backup_dir_writable"@, o.backup_writable, "critical"@, pick(o.backup_writable, "备份目录可写。"@, "备份目录不可写。"@)),
        ("backup_today"@, o.has_backup_today, "warning"@, pick(o.has_backup_today, "今日已备份。"@, "今日尚未备份。"@)),
    ]
}

/// A list with an item appended when a condition holds.
pub open spec fn push_if(v: Seq<Seq<char>>, c: bool, x: Seq<char>) -> Seq<Seq<char>> {
    if c {
        v.push(x)
    } else {
        v
    }
}

/// The warnings of a startup whose database opened, in order.
pub open spec fn startup_warnings(o: StartupObservations) -> Seq<Seq<char>> {
    let w0 = push_if(
        Seq::empty(),
        o.missing_tables@.len() > 0,
        "缺失数据表："@ + comma_join(string_views(o.missing_tables@)),
    );
    let w1 = push_if(w0, o.match_cache_count == 0, "今日比赛尚未同步。"@);
    let w2 = push_if(w1, o.odds_count == 0, "当前没有赔率快照，EV 和赔率变化无法可靠判断。"@);
    let w3 = if o.snapshot_count == 0 {
        w2.push("暂无赛前快照，今日方案会退回即时预测并标记非冻结。"@)
    } else if o.final_snapshot_count == 0 {
        w2.push("已有快照但没有 final snapshot。"@)
    } else {
        w2
    };
    let w4 = push_if(w3, o.result_count == 0, "赛果数据为空，复盘中心无法自动结算。"@);
    let w5 = push_if(w4, !o.backup_writable, "备份目录不可写，自动/手动导出可能失败。"@);
    push_if(w5, !o.has_backup_today, "今天还没有备份。"@)
}

/// The suggested actions of a startup whose database opened, in order.
pub open spec fn startup_actions(o: StartupObservations) -> Seq<Seq<char>> {
    let a0 = push_if(
        Seq::empty(),
        o.missing_tables@.len() > 0,
        "运行一次全局刷新或重启软件，让数据库迁移自动补齐。"@,
    );
    let a1 = push_if(a0, o.match_cache_count == 0, "打开数据源页执行一次全局刷新。"@);
    let a2 = push_if(a1, o.odds_count == 0, "同步赔率后再生成 final snapshot。"@);
    let a3 = if o.snapshot_count == 0 {
        a2.push("赛前生成快照，并在临场前标记 final snapshot。"@)
    } else if o.final_snapshot_count == 0 {
        a2.push("临场确认赔率后标记 final snapshot。"@)
    } else {
        a2
    };
    let a4 = push_if(a3, o.result_count == 0, "赛后先同步赛果，再执行自动结算。"@);
    let a5 = push_if(a4, !o.backup_writable, "检查应用数据目录权限，或更换可写磁盘位置。"@);
    push_if(a5, !o.has_backup_today, "每天结束后导出一次完整 ZIP 备份。"@)
}

fn push_text(v: &mut Vec<String>, s: &str)
    ensures
        string_views(final(v)@) == string_views(old(v)@).push(s@),
{
    let ghost before = v@;
    v.push(owned(s));
    assert(string_views(v@) =~= string_views(before).push(s@));
}

fn comma_join_exec(v: &Vec<String>) -> (r: Vec<char>)
    ensures
        r@ == comma_join(string_views(v@)),
{
    let mut out: Vec<char> = Vec::new();
    let mut i: usize = 0;
    let sep = chars_of(", ");
    assert(string_views(v@).take(0) =~= Seq::<Seq<char>>::empty());
    while i < v.len()
        invariant
            i <= v.len(),
            sep@ == ", "@,
            out@ == comma_join(string_views(v@).take(i as int)),
        decreases v.len() - i,
    {
        let ghost t = string_views(v@).take(i + 1);
        assert(t.drop_last() =~= string_views(v@).take(i as int));
        assert(t.last() == v@[i as int]@);
        if i > 0 {
            push_all(&mut out, &sep);
        }
        let item = chars_of(v[i].as_str());
        push_all(&mut out, &item);
        proof {
            if i == 0 {
                assert(out@ =~= v@[0]@);
            }
        }
        i = i + 1;
    }
    assert(string_views(v@).take(v.len() as int) =~= string_views(v@));
    out
}

fn check(name: &str, ok: bool, severity: &str, message: &str) -> (c: HealthCheck)
    ensures
        c@ == (name@, ok, severity@, message@),
{
    HealthCheck { name: owned(name), ok, severity: owned(severity), message: owned(message) }
}

fn choose_text(c: bool, yes: &'static str, no: &'static str) -> (r: &'static str)
    ensures
        r@ == pick(c, yes@, no@),
{
    if c {
        yes
    } else {
        no
    }
}

#[verifier::rlimit(50)]
fn build_checks(o: &StartupObservations) -> (r: Vec<HealthCheck>)
    ensures
        check_views(r@) == startup_checks(*o),
{
    let tables_ok = o.missing_tables.len() == 0;
    let api = o.api_football_configured;
    let matches_ok = o.match_cache_count > 0;
    let odds_ok = o.odds_count > 0;
    let snaps_ok = o.snapshot_count > 0;
    let finals_ok = o.final_snapshot_count > 0;
    let results_ok = o.result_count > 0;
    let r = vec![
        check("database_readable", true, "critical", "数据库可读。"),
        check("required_tables", tables_ok, "critical", choose_text(tables_ok, "核心数据表已就绪。", "存在缺失数据表。")),
        check("api_football_key_configured", api, "warning", choose_text(api, "API-Football Key 已配置，未返回明文。", "API-Football Key 未配置或该数据源已停用。")),
        check("today_matches_synced", matches_ok, "warning", choose_text(matches_ok, "今日比赛缓存已存在。", "今日比赛缓存为空。")),
        check("today_odds_available", odds_ok, "warning", choose_text(odds_ok, "赔率快照已存在。", "赔率快照为空。")),
        check("pre_match_snapshots_available", snaps_ok, "warning", choose_text(snaps_ok, "赛前快照已存在。", "暂无赛前快照。")),
        check("final_snapshot_available", finals_ok, "warning", choose_text(finals_ok, "已存在 final snapshot。", "暂无 final snapshot。")),
        check("results_synced", results_ok, "warning", choose_text(results_ok, "赛果数据已存在。", "赛果数据为空。")),
        check("backup_dir_writable", o.backup_writable, "critical", choose_text(o.backup_writable, "备份目录可写。", "备份目录不可写。")),
        check("backup_today", o.has_backup_today, "warning", choose_text(o.has_backup_today, "今日已备份。", "今日尚未备份。")),
    ];
    assert(check_views(r@) =~= startup_checks(*o));
    r
}

fn push_text_if(v: &mut Vec<String>, c: bool, s: &str)
    ensures
        string_views(final(v)@) == push_if(string_views(old(v)@), c, s@),
{
    if c {
        push_text(v, s);
    }
}

fn build_warnings(o: &StartupObservations) -> (r: Vec<String>)
    ensures
        string_views(r@) == startup_warnings(*o),
{
    let mut w: Vec<String> = Vec::new();
    assert(string_views(w@) =~= Seq::<Seq<char>>::empty());
    if o.missing_tables.len() > 0 {
        let mut m = chars_of("缺失数据表：");
        let joined = comma_join_exec(&o.missing_tables);
        push_all(&mut m, &joined);
        let msg = string_of(&m);
        push_text(&mut w, msg.as_str());
    }
    push_text_if(&mut w, o.match_cache_count == 0, "今日比赛尚未同步。");
    push_text_if(&mut w, o.odds_count == 0, "当前没有赔率快照，EV 和赔率变化无法可靠判断。");
    if o.snapshot_count == 0 {
        push_text(&mut w, "暂无赛前快照，今日方案会退回即时预测并标记非冻结。");
    } else if o.final_snapshot_count == 0 {
        push_text(&mut w, "已有快照但没有 final snapshot。");
    }
    push_text_if(&mut w, o.result_count == 0, "赛果数据为空，复盘中心无法自动结算。");
    push_text_if(&mut w, !o.backup_writable, "备份目录不可写，自动/手动导出可能失败。");
    push_text_if(&mut w, !o.has_backup_today, "今天还没有备份。");
    w
}

fn build_actions(o: &StartupObservations) -> (r: Vec<String>)
    ensures
        string_views(r@) == startup_actions(*o),
{
    let mut a: Vec<String> = Vec::new();
    assert(string_views(a@) =~= Seq::<Seq<char>>::empty());
    push_text_if(&mut a, o.missing_tables.len() > 0, "运行一次全局刷新或重启软件，让数据库迁移自动补齐。");
    push_text_if(&mut a, o.match_cache_count == 0, "打开数据源页执行一次全局刷新。");
    push_text_if(&mut a, o.odds_count == 0, "同步赔率后再生成 final snapshot。");
    if o.snapshot_count == 0 {
        push_text(&mut a, "赛前生成快照，并在临场前标记 final snapshot。");
    } else if o.final_snapshot_count == 0 {
        push_text(&mut a, "临场确认赔率后标记 final snapshot。");
    }
    push_text_if(&mut a, o.result_count == 0, "赛后先同步赛果，再执行自动结算。");
    push_text_if(&mut a, !o.backup_writable, "检查应用数据目录权限，或更换可写磁盘位置。");
    push_text_if(&mut a, !o.has_backup_today, "每天结束后导出一次完整 ZIP 备份。");
    a
}

/// The startup health report of what the application observed: when the
/// database does not open, a single failed critical check; otherwise the ten
/// checks in order, with a warning and a suggested action for each problem,
/// and the status that the checks give.
pub fn startup_health_report(obs: &StartupObservations) -> (r: StartupReport)
    ensures
        match obs.database_error {
            Some(e) => {
                &&& r.status@ == "critical"@
                &&& check_views(r.checks@) == seq![
                    ("database_readable"@, false, "critical"@, "数据库不可读："@ + e@),
                ]
                &&& string_views(r.warnings@) == seq!["数据库不可读，历史快照和结算可能无法加载。"@]
                &&& string_views(r.suggested_actions@) == seq!["重启软件；如仍失败，请先备份当前数据目录。"@]
            },
            None => {
                &&& check_views(r.checks@) == startup_checks(*obs)
                &&& r.status@ == startup_status(startup_checks(*obs))
                &&& string_views(r.warnings@) == startup_warnings(*obs)
                &&& string_views(r.suggested_actions@) == startup_actions(*obs)
            },
        },
{
    match &obs.database_error {
        Some(e) => {
            let mut m = chars_of("数据库不可读：");
            let ev = chars_of(e.as_str());
            push_all(&mut m, &ev);
            let msg = string_of(&m);
            let checks = vec![check("database_readable", false, "critical", msg.as_str())];
            let warnings = vec![owned("数据库不可读，历史快照和结算可能无法加载。")];
            let actions = vec![owned("重启软件；如仍失败，请先备份当前数据目录。")];
            assert(check_views(checks@) =~= seq![
                ("database_readable"@, false, "critical"@, "数据库不可读："@ + e@),
            ]);
            assert(string_views(warnings@) =~= seq!["数据库不可读，历史快照和结算可能无法加载。"@]);
            assert(string_views(actions@) =~= seq!["重启软件；如仍失败，请先备份当前数据目录。"@]);
            StartupReport { status: owned("critical"), checks, warnings, suggested_actions: actions }
        },
        None => {
            let checks = build_checks(obs);
            let warnings = build_warnings(obs);
            let actions = build_actions(obs);
            let status = startup_status_from_checks(checks.as_slice());
            StartupReport { status: owned(status), checks, warnings, suggested_actions: actions }
        },
    }
}

} // verus!
