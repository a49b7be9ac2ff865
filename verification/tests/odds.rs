use worldcup_odds::feeds::{JsonNumber, JsonValue};
use worldcup_odds::odds::{fixture_bookmaker_outcomes, sporttery_blocks, OutcomeSide};

fn s(text: &str) -> JsonValue {
    JsonValue::Str(text.to_string())
}

fn obj(pairs: Vec<(&str, JsonValue)>) -> JsonValue {
    JsonValue::Object(pairs.into_iter().map(|(k, v)| (k.to_string(), v)).collect())
}

fn num(text: &str) -> JsonValue {
    JsonValue::Number(JsonNumber { text: text.to_string(), integer: text.parse::<i64>().ok() })
}

fn fixture() -> JsonValue {
    obj(vec![
        ("matchId", num("2040337")),
        ("matchNumStr", s("周一001")),
        ("matchDate", s("2026-06-29")),
        ("matchTime", s("20:00:00")),
        ("homeTeamAbbName", s("巴西")),
        ("awayTeamAbbName", s("日本")),
        ("had", obj(vec![("h", s("1.45")), ("d", s("4.10")), ("a", num("6.5"))])),
        ("hhad", obj(vec![("goalLine", s("-1")), ("h", s("2.30")), ("d", s("3.40"))])),
        ("ttg", obj(vec![("s0", s("9.50")), ("s7", s("40.0"))])),
        ("crs", obj(vec![("s01s00", s("6.00")), ("s05s05", s("500"))])),
    ])
}

#[test]
fn lottery_feed_lists_each_market_with_its_picks() {
    let feed = obj(vec![("value", obj(vec![("matchInfoList", JsonValue::Array(vec![fixture()]))]))]);
    let blocks = sporttery_blocks(&feed);
    assert_eq!(blocks.len(), 4);
    let had = &blocks[0];
    assert_eq!(had.match_id, "2040337");
    assert_eq!(had.match_num, "周一001");
    assert_eq!(had.match_time, "2026-06-29 20:00:00");
    assert_eq!((had.home.as_str(), had.away.as_str()), ("巴西", "日本"));
    assert_eq!(had.market, "HAD 胜平负");
    assert_eq!(had.goal_line, "");
    assert_eq!(
        had.picks,
        vec![
            ("主胜".to_string(), Some("1.45".to_string())),
            ("平局".to_string(), Some("4.10".to_string())),
            ("客胜".to_string(), Some("6.5".to_string())),
        ]
    );
    let hhad = &blocks[1];
    assert_eq!(hhad.market, "HHAD 让球胜平负 -1");
    assert_eq!(hhad.goal_line, "-1");
    assert_eq!(hhad.picks[2], ("让负".to_string(), None));
    let ttg = &blocks[2];
    assert_eq!(ttg.market, "TTG 总进球");
    assert_eq!(ttg.picks.len(), 8);
    assert_eq!(ttg.picks[0], ("0球".to_string(), Some("9.50".to_string())));
    assert_eq!(ttg.picks[3], ("3球".to_string(), None));
    assert_eq!(ttg.picks[7], ("7+球".to_string(), Some("40.0".to_string())));
    let crs = &blocks[3];
    assert_eq!(crs.market, "CRS 比分");
    assert_eq!(crs.picks.len(), 36);
    assert_eq!(crs.picks[6], ("1:0".to_string(), Some("6.00".to_string())));
    assert_eq!(crs.picks[35], ("5:5".to_string(), Some("500".to_string())));
    assert_eq!(crs.picks[1], ("0:1".to_string(), None));
}

#[test]
fn lottery_fixture_without_id_or_priced_market() {
    let no_id = obj(vec![
        ("homeTeamAllName", s("法国")),
        ("awayTeamAllName", s("西班牙")),
        ("ttg", obj(vec![])),
    ]);
    let only_scores = obj(vec![
        ("homeTeamAbbName", s("德国")),
        ("awayTeamAbbName", s("日本")),
        ("crs", obj(vec![("s00s00", s("8.0"))])),
    ]);
    let feed = JsonValue::Array(vec![no_id, only_scores]);
    let blocks = sporttery_blocks(&feed);
    assert_eq!(blocks.len(), 1);
    assert_eq!(blocks[0].match_id, "法国-西班牙");
    assert_eq!(blocks[0].match_time, "");
    assert!(blocks[0].picks.iter().all(|(_, odds)| odds.is_none()));
}

fn outcome(name: &str, price: JsonValue) -> JsonValue {
    obj(vec![("name", s(name)), ("price", price)])
}

fn bookmaker(markets: Vec<JsonValue>) -> JsonValue {
    obj(vec![("markets", JsonValue::Array(markets))])
}

#[test]
fn bookmaker_outcomes_of_the_first_game_about_the_fixture() {
    let h2h = obj(vec![
        ("key", s("h2h")),
        (
            "outcomes",
            JsonValue::Array(vec![
                outcome("Japan", num("4.2")),
                outcome("DRAW", num("3.6")),
                outcome("Brazil", num("1.9")),
                outcome("Over 2.5", num("1.8")),
                outcome("Brazil", s("1.9")),
            ]),
        ),
    ]);
    let totals = obj(vec![("key", s("totals")), ("outcomes", JsonValue::Array(vec![outcome("Brazil", num("9"))]))]);
    let feed = JsonValue::Array(vec![
        obj(vec![("home_team", s("France")), ("away_team", s("Germany"))]),
        obj(vec![
            ("home_team", s("Japan")),
            ("away_team", s("Brazil")),
            ("bookmakers", JsonValue::Array(vec![bookmaker(vec![totals, h2h]), bookmaker(vec![])])),
        ]),
    ]);
    let outcomes = fixture_bookmaker_outcomes(&feed, "巴西", "日本").unwrap();
    assert_eq!(
        outcomes,
        vec![
            (OutcomeSide::Away, Some("4.2".to_string())),
            (OutcomeSide::Draw, Some("3.6".to_string())),
            (OutcomeSide::Home, Some("1.9".to_string())),
            (OutcomeSide::Other, Some("1.8".to_string())),
            (OutcomeSide::Home, None),
        ]
    );
    assert!(fixture_bookmaker_outcomes(&feed, "西班牙", "摩洛哥").is_none());
    assert!(fixture_bookmaker_outcomes(&JsonValue::Null, "巴西", "日本").is_none());
}
