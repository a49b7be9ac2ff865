use worldcup_odds::fixtures::{snapshot_fixture, MatchRow, RecommendedFixture};

fn row(time: &str) -> MatchRow {
    MatchRow {
        id: "m1".to_string(),
        match_num: "周一001".to_string(),
        league: "世界杯".to_string(),
        time: time.to_string(),
        home: "巴西".to_string(),
        away: "日本".to_string(),
        status: "未开赛".to_string(),
    }
}

fn recommended(label: &str, time: &str) -> RecommendedFixture {
    RecommendedFixture {
        match_id: "m2".to_string(),
        match_num: "周一002".to_string(),
        match_time: time.to_string(),
        match_label: label.to_string(),
    }
}

#[test]
fn listed_fixture_is_used_as_it_is() {
    assert_eq!(snapshot_fixture("m1", Some(row("2026-06-20 20:00")), None), Ok(row("2026-06-20 20:00")));
}

#[test]
fn unknown_fixture_without_recommendation_is_refused() {
    assert_eq!(
        snapshot_fixture("m9", None, None),
        Err("match_id 不存在：m9，请先同步今日比赛。".to_string())
    );
}

#[test]
fn fixture_is_built_from_the_first_recommendation() {
    let r = recommended("德国 vs 法国", "2026-06-21 03:00");
    let fixture = snapshot_fixture("m2", None, Some(&r)).unwrap();
    assert_eq!(fixture.id, "m2");
    assert_eq!(fixture.match_num, "周一002");
    assert_eq!(fixture.league, "世界杯");
    assert_eq!(fixture.home, "德国");
    assert_eq!(fixture.away, "法国");
    assert_eq!(fixture.status, "赛前");
    let single = snapshot_fixture("m2", None, Some(&recommended("德国", "2026-06-21 03:00"))).unwrap();
    assert_eq!((single.home.as_str(), single.away.as_str()), ("德国", ""));
}

#[test]
fn blank_kickoff_time_is_refused() {
    assert_eq!(
        snapshot_fixture("m1", Some(row("  ")), None),
        Err("m1 缺少 kickoff_time，不能生成赛前快照。".to_string())
    );
    let r = recommended("德国 vs 法国", "");
    assert!(snapshot_fixture("m2", None, Some(&r)).is_err());
}
