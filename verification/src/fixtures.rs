//! Fixtures and the records that point at them: match rows from the feeds,
//! the market of a stored prediction, and whether an odds selection or a
//! recommendation belongs to a fixture.
use vstd::prelude::*;
use crate::settlement::{handicap_line, is_hhad_market, parse_handicap_opt};
use crate::teams::{
    match_labels_refer_to_same_match, same_match_labels, team_matches, team_matches_spec,
};
use vstd::string::StrSliceExecFns;
use crate::text::{
    chars_of, contains_str, lemma_split_nonempty, owned, push_all, split, split_vec, starts_with,
    starts_with_str, str_eq, string_of, trim, trim_vec, views,
};
use crate::feeds::RowFields;

verus! {

/// A fixture as the match feeds list it.
#[derive(Clone, Debug, PartialEq, Eq)]
pub struct MatchRow {
    pub id: String,
    pub match_num: String,
    pub league: String,
    pub time: String,
    pub home: String,
    pub away: String,
    pub status: String,
}

/// The index of the first row with the given id.
pub open spec fn first_row_with_id(rows: Seq<MatchRow>, id: Seq<char>) -> Option<int>
    decreases rows.len(),
{
    if rows.len() == 0 {
        None
    } else if rows[0].id@ == id {
        Some(0)
    } else {
        match first_row_with_id(rows.drop_first(), id) {
            Some(i) => Some(i + 1),
            None => None,
        }
    }
}

/// The home and away teams of the first fixture with the given id.
pub fn match_teams_for_id(matches: &[MatchRow], match_id: &str) -> (r: Option<(String, String)>)
    ensures
        match first_row_with_id(matches@, match_id@) {
            Some(i) => r matches Some((h, a)) && h@ == matches@[i].home@ && a@ == matches@[i].away@,
            None => r is None,
        },
{
    let mut i: usize = 0;
    assert(matches@.skip(0) =~= matches@);
    while i < matches.len()
        invariant
            i <= matches@.len(),
            first_row_with_id(matches@, match_id@) == match first_row_with_id(
                matches@.skip(i as int),
                match_id@,
            ) {
                Some(k) => Some(k + i),
                None => None,
            },
        decreases matches@.len() - i,
    {
        let ghost rest = matches@.skip(i as int);
        assert(rest[0] == matches@[i as int]);
        assert(rest.drop_first() =~= matches@.skip(i + 1));
        if str_eq(matches[i].id.as_str(), match_id) {
            return Some((matches[i].home.clone(), matches[i].away.clone()));
        }
        i = i + 1;
    }
    None
}

/// The light-scan candidates that every fixture gets: pool, play type and
/// selection.
pub open spec fn light_scan_specs() -> Seq<(Seq<char>, Seq<char>, Seq<char>)> {
    seq![
        ("cold_draw_pool"@, "spf"@, "平局"@),
        ("handicap_upset_pool"@, "rqspf"@, "让负"@),
        ("favorite_narrow_win_pool"@, "spf"@, "强队小胜"@),
        ("underdog_first_goal_script_pool"@, "script"@, "弱队先进球剧本"@),
        ("extreme_total_goals_pool"@, "total_goals"@, "小球极端"@),
        ("extreme_total_goals_pool"@, "total_goals"@, "大球极端"@),
        ("high_odds_score_pool"@, "correct_score"@, "1:1"@),
        ("high_odds_score_pool"@, "correct_score"@, "2:1"@),
        ("score_3_3_pool"@, "correct_score"@, "3:3"@),
    ]
}

proof fn lemma_light_scan_selections_nonempty()
    ensures
        forall|k: int| 0 <= k < light_scan_specs().len() ==> #[trigger] light_scan_specs()[k].2.len() > 0,
{
    reveal_strlit("平局");
    reveal_strlit("让负");
    reveal_strlit("强队小胜");
    reveal_strlit("弱队先进球剧本");
    reveal_strlit("小球极端");
    reveal_strlit("大球极端");
    reveal_strlit("1:1");
    reveal_strlit("2:1");
    reveal_strlit("3:3");
    let t = light_scan_specs();
    assert(t[0].2.len() > 0);
    assert(t[1].2.len() > 0);
    assert(t[2].2.len() > 0);
    assert(t[3].2.len() > 0);
    assert(t[4].2.len() > 0);
    assert(t[5].2.len() > 0);
    assert(t[6].2.len() > 0);
    assert(t[7].2.len() > 0);
    assert(t[8].2.len() > 0);
}

/// The views of a list of candidate specs.
pub open spec fn spec_views(v: Seq<(&str, &str, &str)>) -> Seq<(Seq<char>, Seq<char>, Seq<char>)> {
    v.map_values(|e: (&str, &str, &str)| (e.0@, e.1@, e.2@))
}

/// The no-odds scan candidates of a fixture: every pool with its selection
/// (all selections are non-empty, so none is filtered out).
pub fn light_scan_candidate_specs(match_row: &MatchRow) -> (r: Vec<(&'static str, &'static str, &'static str)>)
    ensures
        spec_views(r@) == light_scan_specs(),
{
    let all = vec![
        ("cold_draw_pool", "spf", "平局"),
        ("handicap_upset_pool", "rqspf", "让负"),
        ("favorite_narrow_win_pool", "spf", "强队小胜"),
        ("underdog_first_goal_script_pool", "script", "弱队先进球剧本"),
        ("extreme_total_goals_pool", "total_goals", "小球极端"),
        ("extreme_total_goals_pool", "total_goals", "大球极端"),
        ("high_odds_score_pool", "correct_score", "1:1"),
        ("high_odds_score_pool", "correct_score", "2:1"),
        ("score_3_3_pool", "correct_score", "3:3"),
    ];
    assert(spec_views(all@) =~= light_scan_specs());
    let id_empty = match_row.id.as_str().unicode_len() == 0;
    let mut out: Vec<(&'static str, &'static str, &'static str)> = Vec::new();
    let mut i: usize = 0;
    while i < all.len()
        invariant
            i <= all.len(),
            spec_views(all@) == light_scan_specs(),
            out@ == all@.take(i as int),
        decreases all.len() - i,
    {
        let (pool, play, selection) = all[i];
        proof {
            lemma_light_scan_selections_nonempty();
            assert(selection@ == light_scan_specs()[i as int].2);
        }
        if selection.unicode_len() > 0 || !id_empty {
            out.push((pool, play, selection));
        }
        assert(all@.take(i + 1) =~= all@.take(i as int).push(all@[i as int]));
        i = i + 1;
    }
    assert(all@.take(all.len() as int) =~= all@);
    out
}

/// The fields of a stored prediction that locate its market.
#[derive(Clone, Debug, PartialEq, Eq)]
pub struct PredictionTarget {
    pub match_label: String,
    pub market: String,
    pub pick: String,
}

/// `infer_prediction_market_from_candidates`: a handicap market stored
/// without its line takes the line-carrying handicap market of the first
/// candidate for the same fixture; every other market stays as stored.
pub open spec fn inferred_market(
    label: Seq<char>,
    market: Seq<char>,
    candidates: Seq<(Seq<char>, Seq<char>, Seq<char>)>,
) -> Seq<char>
    decreases candidates.len(),
{
    if !is_hhad_market(market) || handicap_line(market) is Some {
        market
    } else if candidates.len() == 0 {
        market
    } else {
        let c = candidates[0];
        if is_hhad_market(c.1) && handicap_line(c.1) is Some && same_match_labels(c.0, label) {
            c.1
        } else {
            inferred_market(label, market, candidates.drop_first())
        }
    }
}

/// The views of a list of `(label, market, pick)` candidates.
pub open spec fn candidate_views(v: Seq<(String, String, String)>) -> Seq<
    (Seq<char>, Seq<char>, Seq<char>),
> {
    v.map_values(|e: (String, String, String)| (e.0@, e.1@, e.2@))
}

/// The market of an old handicap prediction that was stored without its
/// line, recovered from the recommendations made for the same fixture.
pub fn infer_prediction_market_from_candidates(
    record: &PredictionTarget,
    candidates: &[(String, String, String)],
) -> (r: String)
    ensures
        r@ == inferred_market(record.match_label@, record.market@, candidate_views(candidates@)),
{
    let m = chars_of(record.market.as_str());
    let hhad = starts_with_str(&m, "HHAD") || contains_str(&m, "让球");
    if !hhad || parse_handicap_opt(record.market.as_str()).is_some() {
        return record.market.clone();
    }
    let mut i: usize = 0;
    assert(candidate_views(candidates@).skip(0) =~= candidate_views(candidates@));
    while i < candidates.len()
        invariant
            i <= candidates@.len(),
            is_hhad_market(record.market@),
            handicap_line(record.market@) is None,
            inferred_market(record.match_label@, record.market@, candidate_views(candidates@))
                == inferred_market(
                record.match_label@,
                record.market@,
                candidate_views(candidates@).skip(i as int),
            ),
        decreases candidates@.len() - i,
    {
        let ghost rest = candidate_views(candidates@).skip(i as int);
        assert(rest[0] == candidate_views(candidates@)[i as int]);
        assert(rest.drop_first() =~= candidate_views(candidates@).skip(i + 1));
        let cm = chars_of(candidates[i].1.as_str());
        let is_hhad = starts_with_str(&cm, "HHAD") || contains_str(&cm, "让球");
        if is_hhad && parse_handicap_opt(candidates[i].1.as_str()).is_some()
            && match_labels_refer_to_same_match(
            candidates[i].0.as_str(),
            record.match_label.as_str(),
        ) {
            return candidates[i].1.clone();
        }
        i = i + 1;
    }
    assert(candidate_views(candidates@).skip(i as int).len() == 0);
    record.market.clone()
}

/// The fields of a recommendation that tie it to a fixture.
#[derive(Clone, Debug, PartialEq, Eq)]
pub struct RecommendationTarget {
    pub match_id: String,
    pub match_label: String,
}

/// `recommendation_matches_target`: same match id, or, when the fixture's
/// teams are known, the two sides of the label (the second side empty when
/// the label has no ` vs `) match them.
pub open spec fn recommendation_targets(
    item_id: Seq<char>,
    item_label: Seq<char>,
    match_id: Seq<char>,
    teams: Option<(Seq<char>, Seq<char>)>,
) -> bool {
    if item_id == match_id {
        true
    } else {
        match teams {
            None => false,
            Some((home, away)) => {
                let parts = split(item_label, " vs "@);
                let item_home = parts[0];
                let item_away = if parts.len() > 1 {
                    parts[1]
                } else {
                    Seq::<char>::empty()
                };
                team_matches_spec(item_home, home) && team_matches_spec(item_away, away)
            },
        }
    }
}

/// Whether a recommendation belongs to the fixture with the given id (or
/// the given teams).
pub fn recommendation_matches_target(
    item: &RecommendationTarget,
    match_id: &str,
    teams: Option<&(String, String)>,
) -> (r: bool)
    ensures
        r == recommendation_targets(
            item.match_id@,
            item.match_label@,
            match_id@,
            match teams {
                Some(t) => Some((t.0@, t.1@)),
                None => None,
            },
        ),
{
    if str_eq(item.match_id.as_str(), match_id) {
        return true;
    }
    let (home, away) = match teams {
        Some(t) => (&t.0, &t.1),
        None => {
            return false;
        },
    };
    let v = chars_of(item.match_label.as_str());
    let sep = chars_of(" vs ");
    proof {
        reveal_strlit(" vs ");
        lemma_split_nonempty(v@, sep@);
    }
    let parts = split_vec(&v, &sep);
    assert(views(parts@)[0] == parts@[0]@);
    let item_home = string_of(&parts[0]);
    let item_away = if parts.len() > 1 {
        assert(views(parts@)[1] == parts@[1]@);
        string_of(&parts[1])
    } else {
        String::new()
    };
    team_matches(item_home.as_str(), home.as_str()) && team_matches(item_away.as_str(), away.as_str())
}

/// The fields of an odds selection that tie it to a fixture.
#[derive(Clone, Debug, PartialEq, Eq)]
pub struct SelectionTarget {
    pub match_id: String,
    pub match_num: String,
    pub home: String,
    pub away: String,
}

/// `selection_matches_match_row`: same id, or same non-empty match number,
/// or both teams match.
pub open spec fn selection_targets(s: SelectionTarget, row: MatchRow) -> bool {
    ||| s.match_id@ == row.id@
    ||| (row.match_num@.len() > 0 && s.match_num@ == row.match_num@)
    ||| (team_matches_spec(s.home@, row.home@) && team_matches_spec(s.away@, row.away@))
}

/// Whether an odds selection belongs to a fixture row.
pub fn selection_matches_match_row(selection: &SelectionTarget, match_row: &MatchRow) -> (r: bool)
    ensures
        r == selection_targets(*selection, *match_row),
{
    str_eq(selection.match_id.as_str(), match_row.id.as_str()) || (
    match_row.match_num.as_str().unicode_len() > 0 && str_eq(
        selection.match_num.as_str(),
        match_row.match_num.as_str(),
    )) || (team_matches(selection.home.as_str(), match_row.home.as_str()) && team_matches(
        selection.away.as_str(),
        match_row.away.as_str(),
    ))
}

/// `selection_matches_snapshot`: same match id, or both teams match the
/// snapshot's teams.
pub open spec fn selection_fits_snapshot(
    s: SelectionTarget,
    match_id: Seq<char>,
    home: Seq<char>,
    away: Seq<char>,
) -> bool {
    s.match_id@ == match_id || (team_matches_spec(s.home@, home) && team_matches_spec(s.away@, away))
}

/// Whether an odds selection belongs to the fixture of a snapshot with the
/// given match id and teams.
pub fn selection_matches_snapshot(
    selection: &SelectionTarget,
    match_id: &str,
    home_team: &str,
    away_team: &str,
) -> (r: bool)
    ensures
        r == selection_fits_snapshot(*selection, match_id@, home_team@, away_team@),
{
    str_eq(selection.match_id.as_str(), match_id) || (team_matches(selection.home.as_str(), home_team)
        && team_matches(selection.away.as_str(), away_team))
}

/// The index of the first selection whose market starts with the prefix
/// and whose pick is the given one.
pub open spec fn first_selection(keys: Seq<(String, String)>, prefix: Seq<char>, pick: Seq<char>) -> Option<int>
    decreases keys.len(),
{
    if keys.len() == 0 {
        None
    } else if starts_with(keys[0].0@, prefix) && keys[0].1@ == pick {
        Some(0)
    } else {
        match first_selection(keys.drop_first(), prefix, pick) {
            Some(i) => Some(i + 1),
            None => None,
        }
    }
}

/// `find_selection`: the first selection, given as `(market, pick)`, in a
/// market with the prefix and with the pick.
pub fn find_selection(keys: &[(String, String)], market_prefix: &str, pick: &str) -> (r: Option<usize>)
    ensures
        match first_selection(keys@, market_prefix@, pick@) {
            Some(i) => r == Some(i as usize),
            None => r is None,
        },
{
    let mut i: usize = 0;
    assert(keys@.skip(0) =~= keys@);
    while i < keys.len()
        invariant
            i <= keys@.len(),
            first_selection(keys@, market_prefix@, pick@) == match first_selection(keys@.skip(i as int), market_prefix@, pick@) {
                Some(k) => Some(k + i),
                None => None,
            },
        decreases keys@.len() - i,
    {
        let ghost rest = keys@.skip(i as int);
        assert(rest[0] == keys@[i as int]);
        assert(rest.drop_first() =~= keys@.skip(i + 1));
        let m = chars_of(keys[i].0.as_str());
        if starts_with_str(&m, market_prefix) && str_eq(keys[i].1.as_str(), pick) {
            return Some(i);
        }
        i = i + 1;
    }
    None
}

/// `has_market`: some selection's market starts with the prefix.
pub fn has_market(markets: &[String], prefix: &str) -> (r: bool)
    ensures
        r == exists|i: int| 0 <= i < markets@.len() && starts_with(#[trigger] markets@[i]@, prefix@),
{
    let mut i: usize = 0;
    while i < markets.len()
        invariant
            i <= markets@.len(),
            forall|j: int| 0 <= j < i ==> !starts_with(#[trigger] markets@[j]@, prefix@),
        decreases markets@.len() - i,
    {
        let m = chars_of(markets[i].as_str());
        if starts_with_str(&m, prefix) {
            return true;
        }
        i = i + 1;
    }
    false
}

/// What a pre-match snapshot needs of the first recommendation of a fixture
/// when the match feeds do not list it.
#[derive(Clone, Debug, PartialEq, Eq)]
pub struct RecommendedFixture {
    pub match_id: String,
    pub match_num: String,
    pub match_time: String,
    pub match_label: String,
}

/// The fixture row a pre-match snapshot stands on, if its kickoff time is
/// not blank.
pub open spec fn with_kickoff(row: RowFields, match_id: Seq<char>) -> Result<RowFields, Seq<char>> {
    if trim(row.3).len() == 0 {
        Err(match_id + " 缺少 kickoff_time，不能生成赛前快照。"@)
    } else {
        Ok(row)
    }
}

/// The fixture a pre-match snapshot is taken of: the listed fixture, else
/// one built from the first recommendation (teams from its `home vs away`
/// label, league 世界杯, status 赛前); an error when there is neither, or
/// when the fixture has no kickoff time.
pub open spec fn snapshot_fixture_spec(
    match_id: Seq<char>,
    target: Option<RowFields>,
    first: Option<(Seq<char>, Seq<char>, Seq<char>, Seq<char>)>,
) -> Result<RowFields, Seq<char>> {
    match target {
        Some(t) => with_kickoff(t, match_id),
        None => match first {
            None => Err("match_id 不存在："@ + match_id + "，请先同步今日比赛。"@),
            Some(f) => {
                let parts = split(f.3, " vs "@);
                let away = if parts.len() > 1 {
                    parts[1]
                } else {
                    Seq::<char>::empty()
                };
                with_kickoff((f.0, f.1, "世界杯"@, f.2, parts[0], away, "赛前"@), match_id)
            },
        },
    }
}

fn concat3(a: &str, b: &str, c: &str) -> (r: String)
    ensures
        r@ == a@ + b@ + c@,
{
    let mut v = chars_of(a);
    let bv = chars_of(b);
    let cv = chars_of(c);
    push_all(&mut v, &bv);
    push_all(&mut v, &cv);
    string_of(&v)
}

fn check_kickoff(row: MatchRow, match_id: &str) -> (r: Result<MatchRow, String>)
    ensures
        match with_kickoff(row@, match_id@) {
            Ok(f) => r matches Ok(m) && m@ == f,
            Err(e) => r matches Err(x) && x@ == e,
        },
{
    let t = chars_of(row.time.as_str());
    let tt = trim_vec(&t);
    if tt.len() == 0 {
        let e = concat3(match_id, " 缺少 kickoff_time，不能生成赛前快照。", "");
        proof {
            reveal_strlit("");
            assert(match_id@ + " 缺少 kickoff_time，不能生成赛前快照。"@ + ""@ =~= match_id@
                + " 缺少 kickoff_time，不能生成赛前快照。"@);
        }
        Err(e)
    } else {
        Ok(row)
    }
}

/// The fixture of a pre-match snapshot, or the error that stops it.
pub fn snapshot_fixture(match_id: &str, target: Option<MatchRow>, first: Option<&RecommendedFixture>) -> (r:
    Result<MatchRow, String>)
    ensures
        match snapshot_fixture_spec(
            match_id@,
            match target {
                Some(t) => Some(t@),
                None => None,
            },
            match first {
                Some(f) => Some((f.match_id@, f.match_num@, f.match_time@, f.match_label@)),
                None => None,
            },
        ) {
            Ok(f) => r matches Ok(m) && m@ == f,
            Err(e) => r matches Err(x) && x@ == e,
        },
{
    proof {
        reveal_strlit("");
    }
    assert(""@ =~= Seq::<char>::empty());
    match target {
        Some(t) => check_kickoff(t, match_id),
        None => match first {
            None => {
                let e = concat3("match_id 不存在：", match_id, "，请先同步今日比赛。");
                Err(e)
            },
            Some(f) => {
                let label = chars_of(f.match_label.as_str());
                let sep = chars_of(" vs ");
                proof {
                    reveal_strlit(" vs ");
                }
                let parts = split_vec(&label, &sep);
                proof {
                    lemma_split_nonempty(label@, sep@);
                }
                let home = string_of(&parts[0]);
                let away = if parts.len() > 1 {
                    string_of(&parts[1])
                } else {
                    String::new()
                };
                let row = MatchRow {
                    id: f.match_id.clone(),
                    match_num: f.match_num.clone(),
                    league: owned("世界杯"),
                    time: f.match_time.clone(),
                    home,
                    away,
                    status: owned("赛前"),
                };
                check_kickoff(row, match_id)
            },
        },
    }
}

} // verus!
