//! The JSON match feeds: the fixtures that a lottery or football-data feed
//! lists, and the counts the data-source page shows.
use vstd::prelude::*;
use crate::fixtures::MatchRow;
use crate::results::{result_views, ResultFields};
use crate::settlement::MatchResult;
use crate::teams::{canonical_name, canonical_team_name, team_matches, team_matches_spec};
use crate::numbers::{decimal, decimal_vec};
use crate::snapshot::{text_before, text_less};
use crate::text::{chars_of, owned, push_all, str_eq, string_of};

verus! {

/// A JSON number: its text as the feed prints it, and its value when it is
/// an integer that fits an `i64`.
#[derive(Clone, Debug, PartialEq, Eq)]
pub struct JsonNumber {
    pub text: String,
    pub integer: Option<i64>,
}

/// A JSON document; an object keeps its members in the order the feed
/// reader gives them, each key once.
pub enum JsonValue {
    Null,
    Bool(bool),
    Number(JsonNumber),
    Str(String),
    Array(Vec<JsonValue>),
    Object(Vec<(String, JsonValue)>),
}

/// The value of the first member with the given key.
pub open spec fn member(pairs: Seq<(String, JsonValue)>, key: Seq<char>) -> Option<JsonValue>
    decreases pairs.len(),
{
    if pairs.len() == 0 {
        None
    } else if pairs[0].0@ == key {
        Some(pairs[0].1)
    } else {
        member(pairs.drop_first(), key)
    }
}

/// The member of an object with the given key (`Value::get`).
pub fn get_member<'a>(pairs: &'a Vec<(String, JsonValue)>, key: &str) -> (r: Option<&'a JsonValue>)
    ensures
        match member(pairs@, key@) {
            Some(v) => r matches Some(x) && *x == v,
            None => r is None,
        },
{
    let mut i: usize = 0;
    assert(pairs@.skip(0) =~= pairs@);
    while i < pairs.len()
        invariant
            i <= pairs@.len(),
            member(pairs@, key@) == member(pairs@.skip(i as int), key@),
        decreases pairs@.len() - i,
    {
        let ghost rest = pairs@.skip(i as int);
        assert(rest[0] == pairs@[i as int]);
        assert(rest.drop_first() =~= pairs@.skip(i + 1));
        if str_eq(pairs[i].0.as_str(), key) {
            return Some(&pairs[i].1);
        }
        i = i + 1;
    }
    None
}

/// The text of a value: a string as it is, a number as printed, anything
/// else empty.
pub open spec fn text_of(v: JsonValue) -> Seq<char> {
    match v {
        JsonValue::Str(s) => s@,
        JsonValue::Number(n) => n.text@,
        _ => Seq::empty(),
    }
}

/// `text_field`: the text of the first of `keys` that the object has.
pub open spec fn text_field_spec(pairs: Seq<(String, JsonValue)>, keys: Seq<Seq<char>>) -> Seq<char>
    decreases keys.len(),
{
    if keys.len() == 0 {
        Seq::empty()
    } else {
        match member(pairs, keys[0]) {
            Some(v) => text_of(v),
            None => text_field_spec(pairs, keys.drop_first()),
        }
    }
}

fn text_of_exec(v: &JsonValue) -> (r: String)
    ensures
        r@ == text_of(*v),
{
    match v {
        JsonValue::Str(s) => s.clone(),
        JsonValue::Number(n) => n.text.clone(),
        _ => String::new(),
    }
}

/// The text of the first of `keys` that an object has.
pub fn text_field(pairs: &Vec<(String, JsonValue)>, keys: &[&str]) -> (r: String)
    ensures
        r@ == text_field_spec(pairs@, keys@.map_values(|k: &str| k@)),
{
    let ghost kv = keys@.map_values(|k: &str| k@);
    let mut i: usize = 0;
    assert(kv.skip(0) =~= kv);
    while i < keys.len()
        invariant
            i <= keys@.len(),
            kv == keys@.map_values(|k: &str| k@),
            text_field_spec(pairs@, kv) == text_field_spec(pairs@, kv.skip(i as int)),
        decreases keys@.len() - i,
    {
        let ghost rest = kv.skip(i as int);
        assert(rest[0] == keys@[i as int]@);
        assert(rest.drop_first() =~= kv.skip(i + 1));
        match get_member(pairs, keys[i]) {
            Some(v) => {
                return text_of_exec(v);
            },
            None => {},
        }
        i = i + 1;
    }
    String::new()
}

/// The fields of a match row: id, number, league, time, home, away, status.
pub type RowFields = (Seq<char>, Seq<char>, Seq<char>, Seq<char>, Seq<char>, Seq<char>, Seq<char>);

impl View for MatchRow {
    type V = RowFields;

    open spec fn view(&self) -> RowFields {
        (self.id@, self.match_num@, self.league@, self.time@, self.home@, self.away@, self.status@)
    }
}

/// The views of a list of match rows.
pub open spec fn row_views(v: Seq<MatchRow>) -> Seq<RowFields> {
    v.map_values(|r: MatchRow| r@)
}

/// The non-empty parts of a list joined by single spaces.
pub open spec fn join_nonempty(a: Seq<char>, b: Seq<char>) -> Seq<char> {
    if a.len() == 0 {
        b
    } else if b.len() == 0 {
        a
    } else {
        a + " "@ + b
    }
}

/// The fixture that a lottery-feed object describes, when it names both
/// teams.
pub open spec fn sporttery_row(pairs: Seq<(String, JsonValue)>) -> Option<RowFields> {
    let home = text_field_spec(
        pairs,
        seq!["homeTeamAbbName"@, "homeTeamAllName"@, "homeAbbCnName"@, "homeAllCnName"@],
    );
    let away = text_field_spec(
        pairs,
        seq!["awayTeamAbbName"@, "awayTeamAllName"@, "awayAbbCnName"@, "awayAllCnName"@],
    );
    if home.len() == 0 || away.len() == 0 {
        None
    } else {
        let id = text_field_spec(pairs, seq!["matchId"@, "gmMatchId"@, "wbsjMatchId"@, "matchNumStr"@]);
        Some(
            (
                if id.len() == 0 {
                    home + "-"@ + away
                } else {
                    id
                },
                text_field_spec(pairs, seq!["matchNumStr"@, "matchNum"@]),
                text_field_spec(pairs, seq!["leagueAbbName"@, "leagueAllName"@, "leagueAbbCnName"@]),
                join_nonempty(
                    text_field_spec(pairs, seq!["matchDate"@]),
                    text_field_spec(pairs, seq!["matchTime"@]),
                ),
                home,
                away,
                text_field_spec(pairs, seq!["matchStatus"@, "status"@, "matchState"@]),
            ),
        )
    }
}

/// `collect_matches`: the fixtures of a lottery feed, depth first: an
/// object's own fixture before those of its members, in member order.
pub open spec fn collect_value(v: JsonValue) -> Seq<RowFields>
    decreases v,
{
    match v {
        JsonValue::Array(items) => collect_items(items@),
        JsonValue::Object(pairs) => match sporttery_row(pairs@) {
            Some(r) => seq![r] + collect_members(pairs@),
            None => collect_members(pairs@),
        },
        _ => Seq::empty(),
    }
}

/// The fixtures of a list of values, in order.
pub open spec fn collect_items(items: Seq<JsonValue>) -> Seq<RowFields>
    decreases items,
{
    if items.len() == 0 {
        Seq::empty()
    } else {
        collect_items(items.drop_last()) + collect_value(items.last())
    }
}

/// The fixtures of the members of an object, in order.
pub open spec fn collect_members(pairs: Seq<(String, JsonValue)>) -> Seq<RowFields>
    decreases pairs,
{
    if pairs.len() == 0 {
        Seq::empty()
    } else {
        collect_members(pairs.drop_last()) + collect_value(pairs.last().1)
    }
}

pub(crate) fn join_nonempty_exec(a: String, b: String) -> (r: String)
    ensures
        r@ == join_nonempty(a@, b@),
{
    let av = chars_of(a.as_str());
    let bv = chars_of(b.as_str());
    if av.len() == 0 {
        b
    } else if bv.len() == 0 {
        a
    } else {
        let mut v = av;
        let sp = chars_of(" ");
        push_all(&mut v, &sp);
        push_all(&mut v, &bv);
        string_of(&v)
    }
}

fn sporttery_row_exec(pairs: &Vec<(String, JsonValue)>) -> (r: Option<MatchRow>)
    ensures
        match sporttery_row(pairs@) {
            Some(f) => r matches Some(m) && m@ == f,
            None => r is None,
        },
{
    let hk = ["homeTeamAbbName", "homeTeamAllName", "homeAbbCnName", "homeAllCnName"];
    let ak = ["awayTeamAbbName", "awayTeamAllName", "awayAbbCnName", "awayAllCnName"];
    let home = text_field(pairs, &hk);
    let away = text_field(pairs, &ak);
    assert(hk@.map_values(|k: &str| k@) =~= seq!["homeTeamAbbName"@, "homeTeamAllName"@, "homeAbbCnName"@, "homeAllCnName"@]);
    assert(ak@.map_values(|k: &str| k@) =~= seq!["awayTeamAbbName"@, "awayTeamAllName"@, "awayAbbCnName"@, "awayAllCnName"@]);
    let hv = chars_of(home.as_str());
    let av = chars_of(away.as_str());
    if hv.len() == 0 || av.len() == 0 {
        return None;
    }
    let ik = ["matchId", "gmMatchId", "wbsjMatchId", "matchNumStr"];
    let nk = ["matchNumStr", "matchNum"];
    let lk = ["leagueAbbName", "leagueAllName", "leagueAbbCnName"];
    let dk = ["matchDate"];
    let tk = ["matchTime"];
    let sk = ["matchStatus", "status", "matchState"];
    assert(ik@.map_values(|k: &str| k@) =~= seq!["matchId"@, "gmMatchId"@, "wbsjMatchId"@, "matchNumStr"@]);
    assert(nk@.map_values(|k: &str| k@) =~= seq!["matchNumStr"@, "matchNum"@]);
    assert(lk@.map_values(|k: &str| k@) =~= seq!["leagueAbbName"@, "leagueAllName"@, "leagueAbbCnName"@]);
    assert(dk@.map_values(|k: &str| k@) =~= seq!["matchDate"@]);
    assert(tk@.map_values(|k: &str| k@) =~= seq!["matchTime"@]);
    assert(sk@.map_values(|k: &str| k@) =~= seq!["matchStatus"@, "status"@, "matchState"@]);
    let id_text = text_field(pairs, &ik);
    let idv = chars_of(id_text.as_str());
    let id = if idv.len() == 0 {
        let mut v = hv;
        let dash = chars_of("-");
        push_all(&mut v, &dash);
        push_all(&mut v, &av);
        string_of(&v)
    } else {
        id_text
    };
    let match_num = text_field(pairs, &nk);
    let league = text_field(pairs, &lk);
    let time = join_nonempty_exec(text_field(pairs, &dk), text_field(pairs, &tk));
    let status = text_field(pairs, &sk);
    Some(MatchRow { id, match_num, league, time, home, away, status })
}

/// Appends the fixtures that a lottery feed lists, depth first.
pub fn collect_matches(value: &JsonValue, rows: &mut Vec<MatchRow>)
    ensures
        row_views(final(rows)@) == row_views(old(rows)@) + collect_value(*value),
    decreases value,
{
    match value {
        JsonValue::Array(items) => {
            let mut i: usize = 0;
            assert(items@.take(0) =~= Seq::<JsonValue>::empty());
            assert(row_views(rows@) + collect_items(items@.take(0)) =~= row_views(rows@));
            let ghost start = row_views(rows@);
            while i < items.len()
                invariant
                    i <= items@.len(),
                    *value == JsonValue::Array(*items),
                    start == row_views(old(rows)@),
                    row_views(rows@) == start + collect_items(items@.take(i as int)),
                decreases items@.len() - i,
            {
                assert(items@.take(i + 1).drop_last() =~= items@.take(i as int));
                assert(items@.take(i + 1).last() == items@[i as int]);
                let ghost before = row_views(rows@);
                proof {
                    assert(decreases_to!(*value => (*value)->Array_0));
                    assert((*value)->Array_0 == *items);
                    assert(decreases_to!(*items => items@));
                    assert(decreases_to!(items@ => items@[i as int]));
                }
                collect_matches(&items[i], rows);
                assert(row_views(rows@) =~= start + collect_items(items@.take(i + 1)));
                i = i + 1;
            }
            assert(items@.take(items@.len() as int) =~= items@);
        },
        JsonValue::Object(pairs) => {
            let ghost start = row_views(rows@);
            match sporttery_row_exec(pairs) {
                Some(m) => {
                    rows.push(m);
                    assert(row_views(rows@) =~= start.push(m@));
                },
                None => {},
            }
            let ghost mid = row_views(rows@);
            let mut i: usize = 0;
            assert(pairs@.take(0) =~= Seq::<(String, JsonValue)>::empty());
            assert(mid + collect_members(pairs@.take(0)) =~= mid);
            while i < pairs.len()
                invariant
                    i <= pairs@.len(),
                    *value == JsonValue::Object(*pairs),
                    row_views(rows@) == mid + collect_members(pairs@.take(i as int)),
                decreases pairs@.len() - i,
            {
                assert(pairs@.take(i + 1).drop_last() =~= pairs@.take(i as int));
                assert(pairs@.take(i + 1).last() == pairs@[i as int]);
                proof {
                    assert(decreases_to!(*value => (*value)->Object_0));
                    assert((*value)->Object_0 == *pairs);
                    assert(decreases_to!(*pairs => pairs@));
                    assert(decreases_to!(pairs@ => pairs@[i as int]));
                    assert(decreases_to!(pairs@[i as int] => pairs@[i as int].1));
                }
                collect_matches(&pairs[i].1, rows);
                assert(row_views(rows@) =~= mid + collect_members(pairs@.take(i + 1)));
                i = i + 1;
            }
            assert(pairs@.take(pairs@.len() as int) =~= pairs@);
            proof {
                match sporttery_row(pairs@) {
                    Some(r) => {
                        assert(row_views(rows@) =~= start + (seq![r] + collect_members(pairs@)));
                    },
                    None => {},
                }
            }
        },
        _ => {
            assert(row_views(rows@) =~= row_views(rows@) + Seq::<RowFields>::empty());
        },
    }
}

/// `Value::get`: the member of an object with the given key; nothing for
/// other values.
pub open spec fn obj_get(v: Option<JsonValue>, key: Seq<char>) -> Option<JsonValue> {
    match v {
        Some(JsonValue::Object(pairs)) => member(pairs@, key),
        _ => None,
    }
}

/// `Value::as_str`.
pub open spec fn str_of(v: Option<JsonValue>) -> Option<Seq<char>> {
    match v {
        Some(JsonValue::Str(s)) => Some(s@),
        _ => None,
    }
}

/// A text with a default.
pub open spec fn or_text(o: Option<Seq<char>>, d: Seq<char>) -> Seq<char> {
    match o {
        Some(s) => s,
        None => d,
    }
}

/// The decimal text of a signed integer.
pub open spec fn signed_decimal(n: i64) -> Seq<char> {
    if n < 0 {
        "-"@ + decimal((-n) as nat)
    } else {
        decimal(n as nat)
    }
}

/// The id of a football-data.org match: an integer id printed, a string id
/// as it is, else empty.
pub open spec fn fdo_id(v: Option<JsonValue>) -> Seq<char> {
    match v {
        Some(JsonValue::Number(n)) => match n.integer {
            Some(i) => signed_decimal(i),
            None => Seq::empty(),
        },
        Some(JsonValue::Str(s)) => s@,
        _ => Seq::empty(),
    }
}

/// The fixture that one football-data.org match describes, with both team
/// names made canonical; `None` when a team name is missing.
pub open spec fn fdo_row(item: JsonValue) -> Option<RowFields> {
    let it = Some(item);
    let home = canonical_name(or_text(str_of(obj_get(obj_get(it, "homeTeam"@), "name"@)), ""@));
    let away = canonical_name(or_text(str_of(obj_get(obj_get(it, "awayTeam"@), "name"@)), ""@));
    if home.len() == 0 || away.len() == 0 {
        None
    } else {
        let id = fdo_id(obj_get(it, "id"@));
        Some(
            (
                if id.len() == 0 {
                    "football-data-org-"@ + home + "-"@ + away
                } else {
                    "football-data-org-"@ + id
                },
                or_text(str_of(obj_get(it, "stage"@)), "FDO"@),
                or_text(str_of(obj_get(obj_get(it, "competition"@), "name"@)), "football-data.org"@),
                or_text(str_of(obj_get(it, "utcDate"@)), ""@),
                home,
                away,
                or_text(str_of(obj_get(it, "status"@)), ""@),
            ),
        )
    }
}

/// The fixtures of a list of football-data.org matches, in order.
pub open spec fn fdo_rows(items: Seq<JsonValue>) -> Seq<RowFields>
    decreases items.len(),
{
    if items.len() == 0 {
        Seq::empty()
    } else {
        let prev = fdo_rows(items.drop_last());
        match fdo_row(items.last()) {
            Some(r) => prev.push(r),
            None => prev,
        }
    }
}

/// `collect_football_data_org_matches`: the fixtures of the `matches` array.
pub open spec fn fdo_feed(value: JsonValue) -> Seq<RowFields> {
    match obj_get(Some(value), "matches"@) {
        Some(JsonValue::Array(items)) => fdo_rows(items@),
        _ => Seq::empty(),
    }
}

pub(crate) fn obj_get_exec<'a>(v: Option<&'a JsonValue>, key: &str) -> (r: Option<&'a JsonValue>)
    ensures
        match obj_get(
            match v {
                Some(x) => Some(*x),
                None => None,
            },
            key@,
        ) {
            Some(x) => r matches Some(y) && *y == x,
            None => r is None,
        },
{
    match v {
        Some(JsonValue::Object(pairs)) => get_member(pairs, key),
        _ => None,
    }
}

pub(crate) fn str_or(v: Option<&JsonValue>, d: &str) -> (r: String)
    ensures
        r@ == or_text(
            str_of(
                match v {
                    Some(x) => Some(*x),
                    None => None,
                },
            ),
            d@,
        ),
{
    match v {
        Some(JsonValue::Str(s)) => s.clone(),
        _ => owned(d),
    }
}

fn signed_decimal_exec(n: i64) -> (r: Vec<char>)
    ensures
        r@ == signed_decimal(n),
{
    if n < 0 {
        let m = (0i128 - n as i128) as u64;
        let mut v = chars_of("-");
        let d = decimal_vec(m);
        push_all(&mut v, &d);
        v
    } else {
        decimal_vec(n as u64)
    }
}

fn fdo_row_exec(item: &JsonValue) -> (r: Option<MatchRow>)
    ensures
        match fdo_row(*item) {
            Some(f) => r matches Some(m) && m@ == f,
            None => r is None,
        },
{
    let it = Some(item);
    let home_name = str_or(obj_get_exec(obj_get_exec(it, "homeTeam"), "name"), "");
    let away_name = str_or(obj_get_exec(obj_get_exec(it, "awayTeam"), "name"), "");
    let home = canonical_team_name(home_name.as_str());
    let away = canonical_team_name(away_name.as_str());
    let hv = chars_of(home.as_str());
    let av = chars_of(away.as_str());
    if hv.len() == 0 || av.len() == 0 {
        return None;
    }
    let idv: Vec<char> = match obj_get_exec(it, "id") {
        Some(JsonValue::Number(n)) => match n.integer {
            Some(i) => signed_decimal_exec(i),
            None => Vec::new(),
        },
        Some(JsonValue::Str(s)) => chars_of(s.as_str()),
        _ => Vec::new(),
    };
    let mut idtext = chars_of("football-data-org-");
    if idv.len() == 0 {
        push_all(&mut idtext, &hv);
        let dash = chars_of("-");
        push_all(&mut idtext, &dash);
        push_all(&mut idtext, &av);
    } else {
        push_all(&mut idtext, &idv);
    }
    let id = string_of(&idtext);
    let match_num = str_or(obj_get_exec(it, "stage"), "FDO");
    let league = str_or(obj_get_exec(obj_get_exec(it, "competition"), "name"), "football-data.org");
    let time = str_or(obj_get_exec(it, "utcDate"), "");
    let status = str_or(obj_get_exec(it, "status"), "");
    Some(MatchRow { id, match_num, league, time, home, away, status })
}

/// Appends the fixtures of a football-data.org `matches` feed, with team
/// names made canonical; matches without both team names are skipped.
pub fn collect_football_data_org_matches(value: &JsonValue, rows: &mut Vec<MatchRow>)
    ensures
        row_views(final(rows)@) == row_views(old(rows)@) + fdo_feed(*value),
{
    let ghost start = row_views(rows@);
    let items = match obj_get_exec(Some(value), "matches") {
        Some(JsonValue::Array(items)) => items,
        _ => {
            assert(row_views(rows@) =~= start + Seq::<RowFields>::empty());
            return;
        },
    };
    let mut i: usize = 0;
    assert(items@.take(0) =~= Seq::<JsonValue>::empty());
    assert(start + fdo_rows(items@.take(0)) =~= start);
    while i < items.len()
        invariant
            i <= items@.len(),
            row_views(rows@) == start + fdo_rows(items@.take(i as int)),
        decreases items@.len() - i,
    {
        assert(items@.take(i + 1).drop_last() =~= items@.take(i as int));
        assert(items@.take(i + 1).last() == items@[i as int]);
        let ghost before = row_views(rows@);
        match fdo_row_exec(&items[i]) {
            Some(m) => {
                rows.push(m);
                assert(row_views(rows@) =~= before.push(m@));
            },
            None => {},
        }
        i = i + 1;
    }
    assert(items@.take(items@.len() as int) =~= items@);
}

/// `player_status_count`: the length of the `players` array, or zero.
pub open spec fn player_status_total(value: JsonValue) -> nat {
    match obj_get(Some(value), "players"@) {
        Some(JsonValue::Array(items)) => items@.len(),
        _ => 0,
    }
}

/// How many players a player-status feed lists.
pub fn player_status_count(value: &JsonValue) -> (r: usize)
    ensures
        r == player_status_total(*value),
{
    match obj_get_exec(Some(value), "players") {
        Some(JsonValue::Array(items)) => items.len(),
        _ => 0,
    }
}

/// The number of injury and suspension entries of one match.
pub open spec fn match_injuries(m: JsonValue) -> nat {
    match obj_get(Some(m), "injuriesAndSuspensionsList"@) {
        Some(JsonValue::Array(items)) => items@.len(),
        _ => 0,
    }
}

/// The entries of a list of matches.
pub open spec fn matches_injuries(ms: Seq<JsonValue>) -> nat
    decreases ms.len(),
{
    if ms.len() == 0 {
        0
    } else {
        matches_injuries(ms.drop_last()) + match_injuries(ms.last())
    }
}

/// The entries of one league's `matchList`.
pub open spec fn league_injuries(l: JsonValue) -> nat {
    match obj_get(Some(l), "matchList"@) {
        Some(JsonValue::Array(ms)) => matches_injuries(ms@),
        _ => 0,
    }
}

/// The entries of a list of leagues.
pub open spec fn leagues_injuries(ls: Seq<JsonValue>) -> nat
    decreases ls.len(),
{
    if ls.len() == 0 {
        0
    } else {
        leagues_injuries(ls.drop_last()) + league_injuries(ls.last())
    }
}

/// `injury_count`: all injury and suspension entries under
/// `/value/leagueList`, or zero.
pub open spec fn injury_total(value: JsonValue) -> nat {
    match obj_get(obj_get(Some(value), "value"@), "leagueList"@) {
        Some(JsonValue::Array(ls)) => leagues_injuries(ls@),
        _ => 0,
    }
}

proof fn lemma_matches_injuries_mono(ms: Seq<JsonValue>, k: int)
    requires
        0 <= k <= ms.len(),
    ensures
        matches_injuries(ms.take(k)) <= matches_injuries(ms),
    decreases ms.len(),
{
    if k < ms.len() {
        assert(ms.drop_last().take(k) =~= ms.take(k));
        lemma_matches_injuries_mono(ms.drop_last(), k);
    } else {
        assert(ms.take(k) =~= ms);
    }
}

proof fn lemma_leagues_injuries_mono(ls: Seq<JsonValue>, k: int)
    requires
        0 <= k <= ls.len(),
    ensures
        leagues_injuries(ls.take(k)) <= leagues_injuries(ls),
    decreases ls.len(),
{
    if k < ls.len() {
        assert(ls.drop_last().take(k) =~= ls.take(k));
        lemma_leagues_injuries_mono(ls.drop_last(), k);
    } else {
        assert(ls.take(k) =~= ls);
    }
}

fn league_injury_count(l: &JsonValue, bound: Ghost<nat>) -> (r: usize)
    requires
        league_injuries(*l) <= bound@,
        bound@ <= usize::MAX,
    ensures
        r == league_injuries(*l),
{
    match obj_get_exec(Some(l), "matchList") {
        Some(JsonValue::Array(ms)) => {
            let mut total: usize = 0;
            let mut i: usize = 0;
            assert(ms@.take(0) =~= Seq::<JsonValue>::empty());
            while i < ms.len()
                invariant
                    i <= ms@.len(),
                    matches_injuries(ms@) <= bound@ <= usize::MAX,
                    total == matches_injuries(ms@.take(i as int)),
                decreases ms@.len() - i,
            {
                assert(ms@.take(i + 1).drop_last() =~= ms@.take(i as int));
                assert(ms@.take(i + 1).last() == ms@[i as int]);
                proof {
                    lemma_matches_injuries_mono(ms@, i + 1);
                }
                let n = match obj_get_exec(Some(&ms[i]), "injuriesAndSuspensionsList") {
                    Some(JsonValue::Array(items)) => items.len(),
                    _ => 0,
                };
                total = total + n;
                i = i + 1;
            }
            assert(ms@.take(ms@.len() as int) =~= ms@);
            total
        },
        _ => 0,
    }
}

/// How many injury and suspension entries an injury feed holds.
pub fn injury_count(value: &JsonValue) -> (r: usize)
    requires
        injury_total(*value) <= usize::MAX,
    ensures
        r == injury_total(*value),
{
    match obj_get_exec(obj_get_exec(Some(value), "value"), "leagueList") {
        Some(JsonValue::Array(ls)) => {
            let mut total: usize = 0;
            let mut i: usize = 0;
            assert(ls@.take(0) =~= Seq::<JsonValue>::empty());
            while i < ls.len()
                invariant
                    i <= ls@.len(),
                    leagues_injuries(ls@) <= usize::MAX,
                    total == leagues_injuries(ls@.take(i as int)),
                decreases ls@.len() - i,
            {
                assert(ls@.take(i + 1).drop_last() =~= ls@.take(i as int));
                assert(ls@.take(i + 1).last() == ls@[i as int]);
                proof {
                    lemma_leagues_injuries_mono(ls@, i + 1);
                }
                let n = league_injury_count(&ls[i], Ghost(leagues_injuries(ls@)));
                total = total + n;
                i = i + 1;
            }
            assert(ls@.take(ls@.len() as int) =~= ls@);
            total
        },
        _ => 0,
    }
}

// ---------------------------------------------------------------------------
// Merging finished football-data.org matches into the cached results
// ---------------------------------------------------------------------------

/// A final result drawn from a feed: home, away, score, stage, status.
pub type FinalScore = (Seq<char>, Seq<char>, Seq<char>, Seq<char>, Seq<char>);

/// `Value::as_i64`.
pub open spec fn int_of(v: Option<JsonValue>) -> Option<i64> {
    match v {
        Some(JsonValue::Number(n)) => n.integer,
        _ => None,
    }
}

/// The result that a football-data.org match reports: both canonical team
/// names and a full-time score of two integers, printed `h:a`.
pub open spec fn fdo_final(item: JsonValue) -> Option<FinalScore> {
    let it = Some(item);
    let home = canonical_name(or_text(str_of(obj_get(obj_get(it, "homeTeam"@), "name"@)), ""@));
    let away = canonical_name(or_text(str_of(obj_get(obj_get(it, "awayTeam"@), "name"@)), ""@));
    let ft = obj_get(obj_get(it, "score"@), "fullTime"@);
    if home.len() == 0 || away.len() == 0 {
        None
    } else {
        match (int_of(obj_get(ft, "home"@)), int_of(obj_get(ft, "away"@))) {
            (Some(h), Some(a)) => Some(
                (
                    home,
                    away,
                    signed_decimal(h) + ":"@ + signed_decimal(a),
                    or_text(str_of(obj_get(it, "stage"@)), ""@),
                    or_text(str_of(obj_get(it, "status"@)), ""@),
                ),
            ),
            _ => None,
        }
    }
}

/// A row with these team names and score already records result `r`.
pub open spec fn lists_result(
    home: Seq<char>,
    away: Seq<char>,
    score: Option<Seq<char>>,
    r: FinalScore,
) -> bool {
    team_matches_spec(home, r.0) && team_matches_spec(away, r.1) && score == Some(r.2)
}

/// A cached row records result `r`.
pub open spec fn row_lists(row: JsonValue, r: FinalScore) -> bool {
    let v = Some(row);
    lists_result(
        or_text(str_of(obj_get(v, "home"@)), ""@),
        or_text(str_of(obj_get(v, "away"@)), ""@),
        str_of(obj_get(v, "score"@)),
        r,
    )
}

/// A result added earlier records result `r`.
pub open spec fn added_lists(a: FinalScore, r: FinalScore) -> bool {
    lists_result(a.0, a.1, Some(a.2), r)
}

/// Result `r` is recorded by a cached row or by a result added before it.
pub open spec fn already_listed(rows: Seq<JsonValue>, added: Seq<FinalScore>, r: FinalScore) -> bool {
    ||| exists|i: int| 0 <= i < rows.len() && #[trigger] row_lists(rows[i], r)
    ||| exists|k: int| 0 <= k < added.len() && #[trigger] added_lists(added[k], r)
}

/// The results of the feed's matches that are added, in feed order: each
/// one with a final score that no row so far records.
pub open spec fn added_results(rows: Seq<JsonValue>, items: Seq<JsonValue>) -> Seq<FinalScore>
    decreases items.len(),
{
    if items.len() == 0 {
        Seq::empty()
    } else {
        let prev = added_results(rows, items.drop_last());
        match fdo_final(items.last()) {
            Some(r) => if already_listed(rows, prev, r) {
                prev
            } else {
                prev.push(r)
            },
            None => prev,
        }
    }
}

/// The results added from a football-data.org feed, if there is one.
pub open spec fn fdo_added(rows: Seq<JsonValue>, feed: Option<JsonValue>) -> Seq<FinalScore> {
    match obj_get(feed, "matches"@) {
        Some(JsonValue::Array(items)) => added_results(rows, items@),
        _ => Seq::empty(),
    }
}

/// A member holding a string.
pub open spec fn str_member(p: (String, JsonValue), key: Seq<char>, value: Seq<char>) -> bool {
    p.0@ == key && str_of(Some(p.1)) == Some(value)
}

/// A result row object: home, away, score, an empty half-time score, stage
/// and status, in that order.
pub open spec fn result_row(v: JsonValue, r: FinalScore) -> bool {
    match v {
        JsonValue::Object(p) => {
            &&& p@.len() == 6
            &&& str_member(p@[0], "home"@, r.0)
            &&& str_member(p@[1], "away"@, r.1)
            &&& str_member(p@[2], "score"@, r.2)
            &&& str_member(p@[3], "half_score"@, ""@)
            &&& str_member(p@[4], "stage"@, r.3)
            &&& str_member(p@[5], "status"@, r.4)
        },
        _ => false,
    }
}

pub proof fn lemma_result_row_lists(v: JsonValue, a: FinalScore, r: FinalScore)
    requires
        result_row(v, a),
    ensures
        row_lists(v, r) == added_lists(a, r),
{
    reveal_strlit("home");
    reveal_strlit("away");
    reveal_strlit("score");
    if let JsonValue::Object(p) = v {
        let s = p@;
        assert(member(s, "home"@) == Some(s[0].1));
        assert("home"@[0] == 'h' && "away"@[0] == 'a' && "score"@[0] == 's');
        assert(s[0].0@[0] != "away"@[0]);
        assert(s[0].0@ != "away"@);
        assert(s.drop_first()[0] == s[1]);
        assert(s.drop_first().len() > 0);
        assert(member(s.drop_first(), "away"@) == Some(s[1].1));
        assert(member(s, "away"@) == member(s.drop_first(), "away"@));
        assert(member(s, "away"@) == Some(s[1].1));
        assert(s[0].0@[0] != "score"@[0]);
        assert(s[1].0@[0] != "score"@[0]);
        assert(s[0].0@ != "score"@);
        assert(s[1].0@ != "score"@);
        assert(s.drop_first().drop_first()[0] == s[2]);
        assert(member(s.drop_first().drop_first(), "score"@) == Some(s[2].1));
        assert(member(s.drop_first(), "score"@) == member(s.drop_first().drop_first(), "score"@));
        assert(member(s, "score"@) == Some(s[2].1));
    }
}

fn int_of_exec(v: Option<&JsonValue>) -> (r: Option<i64>)
    ensures
        r == int_of(
            match v {
                Some(x) => Some(*x),
                None => None,
            },
        ),
{
    match v {
        Some(JsonValue::Number(n)) => n.integer,
        _ => None,
    }
}

/// The owned fields of a final result.
struct Final {
    home: String,
    away: String,
    score: String,
    stage: String,
    status: String,
}

impl Final {
    spec fn view_of(&self) -> FinalScore {
        (self.home@, self.away@, self.score@, self.stage@, self.status@)
    }
}

fn fdo_final_exec(item: &JsonValue) -> (r: Option<Final>)
    ensures
        match fdo_final(*item) {
            Some(f) => r matches Some(x) && x.view_of() == f,
            None => r is None,
        },
{
    let it = Some(item);
    let home_name = str_or(obj_get_exec(obj_get_exec(it, "homeTeam"), "name"), "");
    let away_name = str_or(obj_get_exec(obj_get_exec(it, "awayTeam"), "name"), "");
    let home = canonical_team_name(home_name.as_str());
    let away = canonical_team_name(away_name.as_str());
    let hv = chars_of(home.as_str());
    let av = chars_of(away.as_str());
    if hv.len() == 0 || av.len() == 0 {
        return None;
    }
    let ft = obj_get_exec(obj_get_exec(it, "score"), "fullTime");
    let h = int_of_exec(obj_get_exec(ft, "home"));
    let a = int_of_exec(obj_get_exec(ft, "away"));
    match (h, a) {
        (Some(h), Some(a)) => {
            let mut sv = signed_decimal_exec(h);
            let colon = chars_of(":");
            let avs = signed_decimal_exec(a);
            push_all(&mut sv, &colon);
            push_all(&mut sv, &avs);
            let score = string_of(&sv);
            let stage = str_or(obj_get_exec(it, "stage"), "");
            let status = str_or(obj_get_exec(it, "status"), "");
            Some(Final { home, away, score, stage, status })
        },
        _ => None,
    }
}

fn row_lists_exec(row: &JsonValue, f: &Final) -> (b: bool)
    ensures
        b == row_lists(*row, f.view_of()),
{
    let v = Some(row);
    let home = str_or(obj_get_exec(v, "home"), "");
    let away = str_or(obj_get_exec(v, "away"), "");
    let same_score = match obj_get_exec(v, "score") {
        Some(JsonValue::Str(s)) => str_eq(s.as_str(), f.score.as_str()),
        _ => false,
    };
    team_matches(home.as_str(), f.home.as_str()) && team_matches(away.as_str(), f.away.as_str())
        && same_score
}

fn str_value(s: &str) -> (r: JsonValue)
    ensures
        str_of(Some(r)) == Some(s@),
{
    JsonValue::Str(owned(s))
}

fn result_row_exec(f: Final) -> (r: JsonValue)
    ensures
        result_row(r, f.view_of()),
{
    let Final { home, away, score, stage, status } = f;
    let pairs = vec![
        (owned("home"), JsonValue::Str(home)),
        (owned("away"), JsonValue::Str(away)),
        (owned("score"), JsonValue::Str(score)),
        (owned("half_score"), str_value("")),
        (owned("stage"), JsonValue::Str(stage)),
        (owned("status"), JsonValue::Str(status)),
    ];
    JsonValue::Object(pairs)
}

/// The merged results: the cached result rows, then a row for each
/// finished football-data.org match whose teams and score no row records
/// yet; `None` when there is no row at all.
pub fn merge_football_data_results(rows: Vec<JsonValue>, feed: Option<&JsonValue>) -> (r: Option<
    Vec<JsonValue>,
>)
    ensures
        ({
            let added = fdo_added(
                rows@,
                match feed {
                    Some(f) => Some(*f),
                    None => None,
                },
            );
            match r {
                Some(out) => {
                    &&& out@.len() == rows@.len() + added.len()
                    &&& out@.len() > 0
                    &&& out@.take(rows@.len() as int) == rows@
                    &&& forall|k: int|
                        0 <= k < added.len() ==> #[trigger] result_row(
                            out@[rows@.len() + k],
                            added[k],
                        )
                },
                None => rows@.len() == 0 && added.len() == 0,
            }
        }),
{
    let ghost orig = rows@;
    let n0 = rows.len();
    let mut out = rows;
    let ghost fv = match feed {
        Some(f) => Some(*f),
        None => None,
    };
    let items = match obj_get_exec(feed, "matches") {
        Some(JsonValue::Array(items)) => items,
        _ => {
            assert(out@.take(n0 as int) =~= orig);
            if out.len() == 0 {
                return None;
            }
            return Some(out);
        },
    };
    let mut i: usize = 0;
    assert(items@.take(0) =~= Seq::<JsonValue>::empty());
    assert(out@.take(n0 as int) =~= orig);
    while i < items.len()
        invariant
            i <= items@.len(),
            n0 == orig.len(),
            out@.len() == n0 + added_results(orig, items@.take(i as int)).len(),
            out@.take(n0 as int) == orig,
            forall|k: int|
                0 <= k < added_results(orig, items@.take(i as int)).len() ==> #[trigger] result_row(
                    out@[n0 + k],
                    added_results(orig, items@.take(i as int))[k],
                ),
        decreases items@.len() - i,
    {
        let ghost prev = added_results(orig, items@.take(i as int));
        assert(items@.take(i + 1).drop_last() =~= items@.take(i as int));
        assert(items@.take(i + 1).last() == items@[i as int]);
        match fdo_final_exec(&items[i]) {
            Some(f) => {
                let ghost fr = f.view_of();
                let mut j: usize = 0;
                let mut found = false;
                while j < out.len()
                    invariant
                        j <= out@.len(),
                        n0 == orig.len(),
                        out@.len() == n0 + prev.len(),
                        out@.take(n0 as int) == orig,
                        forall|k: int| 0 <= k < prev.len() ==> #[trigger] result_row(out@[n0 + k], prev[k]),
                        fr == f.view_of(),
                        found == exists|m: int| 0 <= m < j && #[trigger] row_lists(out@[m], fr),
                    decreases out@.len() - j,
                {
                    if row_lists_exec(&out[j], &f) {
                        found = true;
                    }
                    j = j + 1;
                }
                proof {
                    if found {
                        let m = choose|m: int| 0 <= m < out@.len() && #[trigger] row_lists(out@[m], fr);
                        if m < n0 {
                            assert(out@.take(n0 as int)[m] == orig[m]);
                            assert(row_lists(orig[m], fr));
                        } else {
                            let k = m - n0;
                            assert(result_row(out@[n0 + k], prev[k]));
                            lemma_result_row_lists(out@[m], prev[k], fr);
                            assert(added_lists(prev[k], fr));
                        }
                        assert(already_listed(orig, prev, fr));
                    } else {
                        assert forall|m: int| 0 <= m < orig.len() implies !#[trigger] row_lists(orig[m], fr) by {
                            assert(out@.take(n0 as int)[m] == orig[m]);
                            assert(!row_lists(out@[m], fr));
                        }
                        assert forall|k: int| 0 <= k < prev.len() implies !#[trigger] added_lists(prev[k], fr) by {
                            assert(result_row(out@[n0 + k], prev[k]));
                            lemma_result_row_lists(out@[n0 + k], prev[k], fr);
                            assert(!row_lists(out@[n0 + k], fr));
                        }
                        assert(!already_listed(orig, prev, fr));
                    }
                }
                if !found {
                    let row = result_row_exec(f);
                    let ghost before = out@;
                    out.push(row);
                    proof {
                        let next = prev.push(fr);
                        assert(added_results(orig, items@.take(i + 1)) == next);
                        assert(out@.take(n0 as int) =~= orig);
                        assert forall|k: int| 0 <= k < next.len() implies #[trigger] result_row(out@[n0 + k], next[k]) by {
                            if k < prev.len() {
                                assert(out@[n0 + k] == before[n0 + k]);
                            }
                        }
                    }
                }
            },
            None => {},
        }
        i = i + 1;
    }
    assert(items@.take(items@.len() as int) =~= items@);
    if out.len() == 0 {
        None
    } else {
        Some(out)
    }
}

// ---------------------------------------------------------------------------
// Bringing football-data.org results into the cached results
// ---------------------------------------------------------------------------

/// What a football-data.org match reports of a fixture: both canonical team
/// names, the full-time score `h:a` (empty without two integers), stage and
/// status; `None` when a team name is missing.
pub open spec fn fdo_report(item: JsonValue) -> Option<FinalScore> {
    let it = Some(item);
    let home = canonical_name(or_text(str_of(obj_get(obj_get(it, "homeTeam"@), "name"@)), ""@));
    let away = canonical_name(or_text(str_of(obj_get(obj_get(it, "awayTeam"@), "name"@)), ""@));
    let ft = obj_get(obj_get(it, "score"@), "fullTime"@);
    if home.len() == 0 || away.len() == 0 {
        None
    } else {
        Some(
            (
                home,
                away,
                match (int_of(obj_get(ft, "home"@)), int_of(obj_get(ft, "away"@))) {
                    (Some(h), Some(a)) => signed_decimal(h) + ":"@ + signed_decimal(a),
                    _ => Seq::empty(),
                },
                or_text(str_of(obj_get(it, "stage"@)), ""@),
                or_text(str_of(obj_get(it, "status"@)), ""@),
            ),
        )
    }
}

/// A cached result row is about the given home and away teams.
pub open spec fn same_teams_row(row: ResultFields, home: Seq<char>, away: Seq<char>) -> bool {
    team_matches_spec(row.0, home) && team_matches_spec(row.1, away)
}

/// The index of the first row about the given teams.
pub open spec fn first_same_teams(rows: Seq<ResultFields>, home: Seq<char>, away: Seq<char>) -> Option<int>
    decreases rows.len(),
{
    if rows.len() == 0 {
        None
    } else if same_teams_row(rows[0], home, away) {
        Some(0)
    } else {
        match first_same_teams(rows.drop_first(), home, away) {
            Some(i) => Some(i + 1),
            None => None,
        }
    }
}

proof fn lemma_first_same_teams(rows: Seq<ResultFields>, home: Seq<char>, away: Seq<char>)
    ensures
        match first_same_teams(rows, home, away) {
            Some(i) => 0 <= i < rows.len(),
            None => true,
        },
    decreases rows.len(),
{
    if rows.len() > 0 {
        lemma_first_same_teams(rows.drop_first(), home, away);
    }
}

/// A new value when there is one, else the old.
pub open spec fn keep_or(new: Seq<char>, old: Seq<char>) -> Seq<char> {
    if new.len() > 0 {
        new
    } else {
        old
    }
}

/// A cached row brought up to date by a report: the report's team names,
/// and its score, stage and status where it has them.
pub open spec fn refreshed_row(old: ResultFields, r: FinalScore) -> ResultFields {
    (r.0, r.1, keep_or(r.2, old.2), old.3, keep_or(r.3, old.4), keep_or(r.4, old.5))
}

/// Rows, and how many were added and updated so far.
pub type SyncState = (Seq<ResultFields>, nat, nat);

/// One report applied: the first row about its teams is refreshed;
/// without one, a report with a score or a status is added as a new row.
pub open spec fn sync_step(st: SyncState, item: JsonValue) -> SyncState {
    match fdo_report(item) {
        None => st,
        Some(r) => match first_same_teams(st.0, r.0, r.1) {
            Some(i) => (st.0.update(i, refreshed_row(st.0[i], r)), st.1, st.2 + 1),
            None => if r.2.len() > 0 || r.4.len() > 0 {
                (st.0.push((r.0, r.1, r.2, ""@, r.3, r.4)), st.1 + 1, st.2)
            } else {
                st
            },
        },
    }
}

/// Reports applied in feed order.
pub open spec fn sync_items(st: SyncState, items: Seq<JsonValue>) -> SyncState
    decreases items.len(),
{
    if items.len() == 0 {
        st
    } else {
        sync_step(sync_items(st, items.drop_last()), items.last())
    }
}

/// `sync_football_data_org_to_match_results`: the rows after applying every
/// match of the feed's `matches` array, with the counts added and updated.
pub open spec fn sync_feed(rows: Seq<ResultFields>, feed: JsonValue) -> SyncState {
    match obj_get(Some(feed), "matches"@) {
        Some(JsonValue::Array(items)) => sync_items((rows, 0, 0), items@),
        _ => (rows, 0, 0),
    }
}

fn fdo_report_exec(item: &JsonValue) -> (r: Option<Final>)
    ensures
        match fdo_report(*item) {
            Some(f) => r matches Some(x) && x.view_of() == f,
            None => r is None,
        },
{
    let it = Some(item);
    let home_name = str_or(obj_get_exec(obj_get_exec(it, "homeTeam"), "name"), "");
    let away_name = str_or(obj_get_exec(obj_get_exec(it, "awayTeam"), "name"), "");
    let home = canonical_team_name(home_name.as_str());
    let away = canonical_team_name(away_name.as_str());
    let hv = chars_of(home.as_str());
    let av = chars_of(away.as_str());
    if hv.len() == 0 || av.len() == 0 {
        return None;
    }
    let ft = obj_get_exec(obj_get_exec(it, "score"), "fullTime");
    let h = int_of_exec(obj_get_exec(ft, "home"));
    let a = int_of_exec(obj_get_exec(ft, "away"));
    let score = match (h, a) {
        (Some(h), Some(a)) => {
            let mut sv = signed_decimal_exec(h);
            let colon = chars_of(":");
            let avs = signed_decimal_exec(a);
            push_all(&mut sv, &colon);
            push_all(&mut sv, &avs);
            string_of(&sv)
        },
        _ => String::new(),
    };
    let stage = str_or(obj_get_exec(it, "stage"), "");
    let status = str_or(obj_get_exec(it, "status"), "");
    Some(Final { home, away, score, stage, status })
}

fn first_same_teams_exec(rows: &Vec<MatchResult>, home: &String, away: &String) -> (r: Option<usize>)
    ensures
        match first_same_teams(result_views(rows@), home@, away@) {
            Some(i) => r == Some(i as usize),
            None => r is None,
        },
{
    let ghost v = result_views(rows@);
    let mut j: usize = 0;
    assert(v.skip(0) =~= v);
    while j < rows.len()
        invariant
            j <= rows@.len(),
            v == result_views(rows@),
            first_same_teams(v, home@, away@) == match first_same_teams(v.skip(j as int), home@, away@) {
                Some(k) => Some(k + j),
                None => None,
            },
        decreases rows@.len() - j,
    {
        let ghost rest = v.skip(j as int);
        assert(rest[0] == v[j as int]);
        assert(rest.drop_first() =~= v.skip(j + 1));
        if team_matches(rows[j].home.as_str(), home.as_str()) && team_matches(
            rows[j].away.as_str(),
            away.as_str(),
        ) {
            return Some(j);
        }
        j = j + 1;
    }
    None
}

fn keep_or_exec(new: &String, old: &String) -> (r: String)
    ensures
        r@ == keep_or(new@, old@),
{
    let nv = chars_of(new.as_str());
    if nv.len() > 0 {
        new.clone()
    } else {
        old.clone()
    }
}

/// Brings the cached results up to date with a football-data.org feed:
/// each match refreshes the first row about its teams, or is added when no
/// row is and it has a score or a status. Returns how many rows were added
/// and how many updated.
pub fn sync_football_data_org_to_match_results(rows: &mut Vec<MatchResult>, feed: &JsonValue) -> (r: (
    usize,
    usize,
))
    ensures
        sync_feed(result_views(old(rows)@), *feed) == (
            result_views(final(rows)@),
            r.0 as nat,
            r.1 as nat,
        ),
{
    let ghost start = result_views(rows@);
    let items = match obj_get_exec(Some(feed), "matches") {
        Some(JsonValue::Array(items)) => items,
        _ => {
            return (0, 0);
        },
    };
    let mut added: usize = 0;
    let mut updated: usize = 0;
    let mut i: usize = 0;
    assert(items@.take(0) =~= Seq::<JsonValue>::empty());
    while i < items.len()
        invariant
            i <= items@.len(),
            sync_items((start, 0, 0), items@.take(i as int)) == (
                result_views(rows@),
                added as nat,
                updated as nat,
            ),
            added + updated <= i,
        decreases items@.len() - i,
    {
        assert(items@.take(i + 1).drop_last() =~= items@.take(i as int));
        assert(items@.take(i + 1).last() == items@[i as int]);
        let ghost before = result_views(rows@);
        let ghost prev_st: SyncState = (before, added as nat, updated as nat);
        assert(sync_items((start, 0, 0), items@.take(i + 1)) == sync_step(prev_st, items@[i as int]));
        match fdo_report_exec(&items[i]) {
            Some(f) => {
                proof {
                    lemma_first_same_teams(before, f.home@, f.away@);
                }
                let ghost fr = f.view_of();
                assert(fdo_report(items@[i as int]) == Some(fr));
                match first_same_teams_exec(rows, &f.home, &f.away) {
                    Some(k) => {
                        let n_rows = rows.len();
                        proof {
                            match first_same_teams(before, f.home@, f.away@) {
                                Some(j) => {
                                    assert(before.len() == rows@.len());
                                    assert(rows@.len() == n_rows);
                                    assert(0 <= j < before.len());
                                    assert(j as usize == k);
                                    assert(j == k as int);
                                },
                                None => {
                                    assert(false);
                                },
                            }
                        }
                        let old_row = &rows[k];
                        let row = MatchResult {
                            home: f.home.clone(),
                            away: f.away.clone(),
                            score: keep_or_exec(&f.score, &old_row.score),
                            half_score: old_row.half_score.clone(),
                            stage: keep_or_exec(&f.stage, &old_row.stage),
                            status: keep_or_exec(&f.status, &old_row.status),
                        };
                        assert(row@ == refreshed_row(before[k as int], f.view_of()));
                        rows.set(k, row);
                        assert(result_views(rows@) =~= before.update(
                            k as int,
                            refreshed_row(before[k as int], f.view_of()),
                        ));
                        updated = updated + 1;
                        assert(first_same_teams(prev_st.0, fr.0, fr.1) == Some(k as int));
                        assert(sync_step(prev_st, items@[i as int]) == (prev_st.0.update(k as int, refreshed_row(prev_st.0[k as int], fr)), prev_st.1, prev_st.2 + 1));
                        assert(sync_step(prev_st, items@[i as int]) == (result_views(rows@), added as nat, updated as nat));
                    },
                    None => {
                        assert(first_same_teams(before, fr.0, fr.1) is None);
                        let sv = chars_of(f.score.as_str());
                        let tv = chars_of(f.status.as_str());
                        if sv.len() > 0 || tv.len() > 0 {
                            let row = MatchResult {
                                home: f.home,
                                away: f.away,
                                score: f.score,
                                half_score: String::new(),
                                stage: f.stage,
                                status: f.status,
                            };
                            let ghost rv = row@;
                            proof {
                                reveal_strlit("");
                                assert(rv == (fr.0, fr.1, fr.2, ""@, fr.3, fr.4));
                            }
                            rows.push(row);
                            assert(result_views(rows@) =~= before.push(rv));
                            added = added + 1;
                        }
                        assert(sync_step(prev_st, items@[i as int]) == (result_views(rows@), added as nat, updated as nat));
                    },
                }
            },
            None => {},
        }
        i = i + 1;
    }
    assert(items@.take(items@.len() as int) =~= items@);
    (added, updated)
}

// ---------------------------------------------------------------------------
// The fixture list
// ---------------------------------------------------------------------------

/// Inserts a row after every row whose time does not come after its own:
/// one step of a stable sort by time.
pub open spec fn insert_by_time(sorted: Seq<RowFields>, x: RowFields) -> Seq<RowFields>
    decreases sorted.len(),
{
    if sorted.len() == 0 {
        seq![x]
    } else if text_before(x.3, sorted.last().3) {
        insert_by_time(sorted.drop_last(), x).push(sorted.last())
    } else {
        sorted.push(x)
    }
}

/// The rows stably sorted by time (rows with equal times keep their order).
pub open spec fn sort_by_time(rows: Seq<RowFields>) -> Seq<RowFields>
    decreases rows.len(),
{
    if rows.len() == 0 {
        Seq::empty()
    } else {
        insert_by_time(sort_by_time(rows.drop_last()), rows.last())
    }
}

/// A row repeats the row kept before it: same id and teams, or teams that
/// match and the same time.
pub open spec fn repeats(row: RowFields, kept: RowFields) -> bool {
    (row.0 == kept.0 && row.4 == kept.4 && row.5 == kept.5) || (team_matches_spec(row.4, kept.4)
        && team_matches_spec(row.5, kept.5) && row.3 == kept.3)
}

/// The rows without those that repeat the row kept just before them.
pub open spec fn drop_repeats(rows: Seq<RowFields>) -> Seq<RowFields>
    decreases rows.len(),
{
    if rows.len() == 0 {
        Seq::empty()
    } else {
        let d = drop_repeats(rows.drop_last());
        if d.len() > 0 && repeats(rows.last(), d.last()) {
            d
        } else {
            d.push(rows.last())
        }
    }
}

fn copy_row(r: &MatchRow) -> (c: MatchRow)
    ensures
        c@ == r@,
{
    MatchRow {
        id: r.id.clone(),
        match_num: r.match_num.clone(),
        league: r.league.clone(),
        time: r.time.clone(),
        home: r.home.clone(),
        away: r.away.clone(),
        status: r.status.clone(),
    }
}

proof fn lemma_insert_step(s: Seq<RowFields>, x: RowFields, p: int)
    requires
        0 < p <= s.len(),
        text_before(x.3, s[p - 1].3),
    ensures
        insert_by_time(s.take(p), x) == insert_by_time(s.take(p - 1), x).push(s[p - 1]),
{
    assert(s.take(p).drop_last() =~= s.take(p - 1));
    assert(s.take(p).last() == s[p - 1]);
}

fn insert_row(out: &mut Vec<MatchRow>, x: MatchRow)
    ensures
        row_views(final(out)@) == insert_by_time(row_views(old(out)@), x@),
{
    let ghost s = row_views(out@);
    let mut p: usize = out.len();
    assert(s.take(p as int) =~= s);
    assert(s.skip(p as int) =~= Seq::<RowFields>::empty());
    while p > 0 && text_less(&x.time, &out[p - 1].time)
        invariant
            p <= out@.len(),
            s == row_views(out@),
            insert_by_time(s, x@) == insert_by_time(s.take(p as int), x@) + s.skip(p as int),
        decreases p,
    {
        proof {
            assert(s[p - 1] == out@[p - 1]@);
            lemma_insert_step(s, x@, p as int);
            assert(seq![s[p - 1]] + s.skip(p as int) =~= s.skip(p - 1));
            assert(insert_by_time(s.take(p - 1), x@).push(s[p - 1]) + s.skip(p as int) =~= insert_by_time(
                s.take(p - 1),
                x@,
            ) + s.skip(p - 1));
        }
        p = p - 1;
    }
    proof {
        if p > 0 {
            assert(s.take(p as int).drop_last() =~= s.take(p - 1));
            assert(s.take(p as int).last() == s[p - 1]);
            assert(s[p - 1] == out@[p - 1]@);
            assert(insert_by_time(s.take(p as int), x@) == s.take(p as int).push(x@));
        } else {
            assert(s.take(0) =~= Seq::<RowFields>::empty());
            assert(insert_by_time(s.take(0), x@) == seq![x@]);
        }
    }
    let ghost xv = x@;
    out.insert(p, x);
    assert(row_views(out@) =~= s.take(p as int).push(xv) + s.skip(p as int));
}

/// The fixture list once the feeds are read: the fixtures stably sorted by
/// time, then each row dropped that repeats the row kept just before it.
pub fn ordered_distinct_fixtures(rows: &Vec<MatchRow>) -> (r: Vec<MatchRow>)
    ensures
        row_views(r@) == drop_repeats(sort_by_time(row_views(rows@))),
{
    let ghost v = row_views(rows@);
    let mut sorted: Vec<MatchRow> = Vec::new();
    let mut i: usize = 0;
    assert(v.take(0) =~= Seq::<RowFields>::empty());
    assert(row_views(sorted@) =~= Seq::<RowFields>::empty());
    while i < rows.len()
        invariant
            i <= rows@.len(),
            v == row_views(rows@),
            row_views(sorted@) == sort_by_time(v.take(i as int)),
        decreases rows@.len() - i,
    {
        assert(v.take(i + 1).drop_last() =~= v.take(i as int));
        assert(v.take(i + 1).last() == rows@[i as int]@);
        let x = copy_row(&rows[i]);
        insert_row(&mut sorted, x);
        i = i + 1;
    }
    assert(v.take(v.len() as int) =~= v);
    let ghost sv = row_views(sorted@);
    let mut out: Vec<MatchRow> = Vec::new();
    let mut j: usize = 0;
    assert(sv.take(0) =~= Seq::<RowFields>::empty());
    assert(row_views(out@) =~= Seq::<RowFields>::empty());
    while j < sorted.len()
        invariant
            j <= sorted@.len(),
            sv == row_views(sorted@),
            row_views(out@) == drop_repeats(sv.take(j as int)),
        decreases sorted@.len() - j,
    {
        assert(sv.take(j + 1).drop_last() =~= sv.take(j as int));
        assert(sv.take(j + 1).last() == sorted@[j as int]@);
        let row = &sorted[j];
        let n = out.len();
        let repeat = n > 0 && {
            let kept = &out[n - 1];
            (str_eq(row.id.as_str(), kept.id.as_str()) && str_eq(row.home.as_str(), kept.home.as_str())
                && str_eq(row.away.as_str(), kept.away.as_str())) || (team_matches(
                row.home.as_str(),
                kept.home.as_str(),
            ) && team_matches(row.away.as_str(), kept.away.as_str()) && str_eq(
                row.time.as_str(),
                kept.time.as_str(),
            ))
        };
        proof {
            if n > 0 {
                assert(row_views(out@).last() == out@[n - 1]@);
            }
        }
        if !repeat {
            let c = copy_row(row);
            let ghost before = row_views(out@);
            out.push(c);
            assert(row_views(out@) =~= before.push(sorted@[j as int]@));
        }
        j = j + 1;
    }
    assert(sv.take(sv.len() as int) =~= sv);
    out
}

} // verus!
