//! Player availability from the player-status feed: which of a team's
//! players start, which are out or doubtful, and in which line they play.
use vstd::prelude::*;
use crate::feeds::{obj_get, obj_get_exec, str_of, JsonValue};
use crate::odds::{array_of, number_text_of, or_empty};
use crate::teams::{lowercase_text, team_matches, team_matches_spec, to_lowercase};
use crate::text::{ascii_lower, ascii_lower_vec, chars_of, contains, contains_str, eq_vec, str_eq};

verus! {

/// The line a player's position puts him in.
#[derive(Clone, Copy, Debug, PartialEq, Eq)]
pub enum PositionLine {
    Forward,
    Midfield,
    Defence,
    Goalkeeper,
    Unknown,
}

/// The line of a position text: a forward (`前`, `fw`, `fwd`), midfielder
/// (`中`, `mf`, `mid`), defender (`后`, `df`, `def`) or goalkeeper (`门`,
/// `gk`), the English codes in any ASCII case; checked in that order.
pub open spec fn position_line(p: Seq<char>) -> PositionLine {
    let l = ascii_lower(p);
    if contains(p, "前"@) || l == "fw"@ || l == "fwd"@ {
        PositionLine::Forward
    } else if contains(p, "中"@) || l == "mf"@ || l == "mid"@ {
        PositionLine::Midfield
    } else if contains(p, "后"@) || l == "df"@ || l == "def"@ {
        PositionLine::Defence
    } else if contains(p, "门"@) || l == "gk"@ {
        PositionLine::Goalkeeper
    } else {
        PositionLine::Unknown
    }
}

/// A lowercased status that says the player starts.
pub open spec fn starting_status(status: Seq<char>) -> bool {
    status == "starting"@ || status == "start"@ || status == "首发"@
}

/// A lowercased starter flag that says the player starts.
pub open spec fn starter_flag(flag: Seq<char>) -> bool {
    flag == "1"@ || flag == "true"@ || flag == "yes"@ || flag == "首发"@
}

/// A lowercased status that says the player may miss the match: out,
/// injured, suspended, or doubtful.
pub open spec fn unavailable_status(status: Seq<char>) -> bool {
    contains(status, "out"@) || contains(status, "inj"@) || contains(status, "suspend"@) || contains(
        status,
        "停"@,
    ) || contains(status, "伤"@) || doubtful_status(status)
}

/// A lowercased status that says the player is doubtful.
pub open spec fn doubtful_status(status: Seq<char>) -> bool {
    contains(status, "doubt"@) || contains(status, "疑"@)
}

/// What the feed says of one player of the team: whether he starts, whether
/// he may miss the match and only doubtfully so, his line, and the text of
/// his importance when it is a number.
pub type PlayerView = (bool, bool, bool, PositionLine, Option<Seq<char>>);

/// The entry of one player object.
pub open spec fn player_entry(p: JsonValue) -> PlayerView {
    let v = Some(p);
    let status = lowercase_text(or_empty(str_of(obj_get(v, "status"@))));
    let flag = lowercase_text(or_empty(str_of(obj_get(v, "starter"@))));
    (
        starting_status(status) || starter_flag(flag),
        unavailable_status(status),
        doubtful_status(status),
        position_line(or_empty(str_of(obj_get(v, "position"@)))),
        number_text_of(obj_get(v, "importance"@)),
    )
}

/// The player belongs to the team.
pub open spec fn plays_for(p: JsonValue, team: Seq<char>) -> bool {
    team_matches_spec(or_empty(str_of(obj_get(Some(p), "team"@))), team)
}

/// The entries of the players of a list that belong to the team, in order.
pub open spec fn team_entries(players: Seq<JsonValue>, team: Seq<char>) -> Seq<PlayerView>
    decreases players.len(),
{
    if players.len() == 0 {
        Seq::empty()
    } else {
        let prev = team_entries(players.drop_last(), team);
        if plays_for(players.last(), team) {
            prev.push(player_entry(players.last()))
        } else {
            prev
        }
    }
}

/// A team's player-status entries, before weighting: the entries of the
/// team's players in the feed's `players` list; none without that list.
pub open spec fn feed_team_entries(value: JsonValue, team: Seq<char>) -> Seq<PlayerView> {
    match array_of(obj_get(Some(value), "players"@)) {
        Some(ps) => team_entries(ps, team),
        None => Seq::empty(),
    }
}

/// One player's entry.
#[derive(Clone, Debug, PartialEq, Eq)]
pub struct PlayerEntry {
    pub starter: bool,
    pub unavailable: bool,
    pub doubtful: bool,
    pub line: PositionLine,
    pub importance: Option<String>,
}

/// The view of an entry.
pub open spec fn entry_view(e: PlayerEntry) -> PlayerView {
    (
        e.starter,
        e.unavailable,
        e.doubtful,
        e.line,
        match e.importance {
            Some(t) => Some(t@),
            None => None,
        },
    )
}

/// The views of a list of entries.
pub open spec fn entry_views(v: Seq<PlayerEntry>) -> Seq<PlayerView> {
    v.map_values(|e: PlayerEntry| entry_view(e))
}

fn text_member(v: &JsonValue, key: &str) -> (r: String)
    ensures
        r@ == or_empty(str_of(obj_get(Some(*v), key@))),
{
    match obj_get_exec(Some(v), key) {
        Some(JsonValue::Str(s)) => s.clone(),
        _ => String::new(),
    }
}

fn is_code(lower: &Vec<char>, code: &str) -> (b: bool)
    ensures
        b == (lower@ == code@),
{
    let c = chars_of(code);
    eq_vec(lower, &c)
}

fn position_line_exec(p: &String) -> (r: PositionLine)
    ensures
        r == position_line(p@),
{
    let v = chars_of(p.as_str());
    let l = ascii_lower_vec(&v);
    if contains_str(&v, "前") || is_code(&l, "fw") || is_code(&l, "fwd") {
        PositionLine::Forward
    } else if contains_str(&v, "中") || is_code(&l, "mf") || is_code(&l, "mid") {
        PositionLine::Midfield
    } else if contains_str(&v, "后") || is_code(&l, "df") || is_code(&l, "def") {
        PositionLine::Defence
    } else if contains_str(&v, "门") || is_code(&l, "gk") {
        PositionLine::Goalkeeper
    } else {
        PositionLine::Unknown
    }
}

fn player_entry_exec(p: &JsonValue) -> (r: PlayerEntry)
    ensures
        entry_view(r) == player_entry(*p),
{
    let status_text = text_member(p, "status");
    let flag_text = text_member(p, "starter");
    let status = to_lowercase(status_text.as_str());
    let flag = to_lowercase(flag_text.as_str());
    let s = status.as_str();
    let f = flag.as_str();
    let starter = str_eq(s, "starting") || str_eq(s, "start") || str_eq(s, "首发") || str_eq(f, "1")
        || str_eq(f, "true") || str_eq(f, "yes") || str_eq(f, "首发");
    let sv = chars_of(s);
    let doubtful = contains_str(&sv, "doubt") || contains_str(&sv, "疑");
    let unavailable = contains_str(&sv, "out") || contains_str(&sv, "inj") || contains_str(
        &sv,
        "suspend",
    ) || contains_str(&sv, "停") || contains_str(&sv, "伤") || doubtful;
    let position = text_member(p, "position");
    let line = position_line_exec(&position);
    let importance = match obj_get_exec(Some(p), "importance") {
        Some(JsonValue::Number(n)) => Some(n.text.clone()),
        _ => None,
    };
    PlayerEntry { starter, unavailable, doubtful, line, importance }
}

/// The entries of a team's players in a player-status feed, in feed order.
pub fn team_player_entries(value: &JsonValue, team: &str) -> (r: Vec<PlayerEntry>)
    ensures
        entry_views(r@) == feed_team_entries(*value, team@),
{
    let mut out: Vec<PlayerEntry> = Vec::new();
    let players = match obj_get_exec(Some(value), "players") {
        Some(JsonValue::Array(ps)) => ps,
        _ => {
            assert(entry_views(out@) =~= Seq::<PlayerView>::empty());
            return out;
        },
    };
    let mut i: usize = 0;
    assert(players@.take(0) =~= Seq::<JsonValue>::empty());
    assert(entry_views(out@) =~= Seq::<PlayerView>::empty());
    while i < players.len()
        invariant
            i <= players@.len(),
            entry_views(out@) == team_entries(players@.take(i as int), team@),
        decreases players@.len() - i,
    {
        assert(players@.take(i + 1).drop_last() =~= players@.take(i as int));
        assert(players@.take(i + 1).last() == players@[i as int]);
        let p = &players[i];
        let team_name = text_member(p, "team");
        if team_matches(team_name.as_str(), team) {
            let e = player_entry_exec(p);
            let ghost before = entry_views(out@);
            out.push(e);
            assert(entry_views(out@) =~= before.push(player_entry(players@[i as int])));
        }
        i = i + 1;
    }
    assert(players@.take(players@.len() as int) =~= players@);
    out
}

/// How many entries may miss the match.
pub open spec fn unavailable_count(v: Seq<PlayerView>) -> nat
    decreases v.len(),
{
    if v.len() == 0 {
        0
    } else {
        unavailable_count(v.drop_last()) + if v.last().1 {
            1nat
        } else {
            0nat
        }
    }
}

/// How many entries start.
pub open spec fn starter_count(v: Seq<PlayerView>) -> nat
    decreases v.len(),
{
    if v.len() == 0 {
        0
    } else {
        starter_count(v.drop_last()) + if v.last().0 {
            1nat
        } else {
            0nat
        }
    }
}

/// How many of a team's players may miss the match, and how many start.
pub fn team_player_counts(value: &JsonValue, team: &str) -> (r: (usize, usize))
    ensures
        r.0 == unavailable_count(feed_team_entries(*value, team@)),
        r.1 == starter_count(feed_team_entries(*value, team@)),
{
    let entries = team_player_entries(value, team);
    let ghost v = entry_views(entries@);
    let mut unavailable: usize = 0;
    let mut starters: usize = 0;
    let mut i: usize = 0;
    while i < entries.len()
        invariant
            i <= entries@.len(),
            v == entry_views(entries@),
            unavailable == unavailable_count(v.take(i as int)),
            starters == starter_count(v.take(i as int)),
            unavailable <= i,
            starters <= i,
        decreases entries@.len() - i,
    {
        assert(v.take(i + 1).drop_last() =~= v.take(i as int));
        assert(v.take(i + 1).last() == entry_view(entries@[i as int]));
        if entries[i].unavailable {
            unavailable = unavailable + 1;
        }
        if entries[i].starter {
            starters = starters + 1;
        }
        i = i + 1;
    }
    assert(v.take(v.len() as int) =~= v);
    (unavailable, starters)
}

/// `player_status_covered`: the feed says something of either team — an
/// absence or a starter.
pub open spec fn status_covered(value: Option<JsonValue>, home: Seq<char>, away: Seq<char>) -> bool {
    match value {
        Some(v) => {
            let h = feed_team_entries(v, home);
            let a = feed_team_entries(v, away);
            unavailable_count(h) + starter_count(h) + unavailable_count(a) + starter_count(a) > 0
        },
        None => false,
    }
}

/// Whether a player-status feed covers a fixture's teams.
pub fn player_status_covered(value: Option<&JsonValue>, home: &str, away: &str) -> (r: bool)
    ensures
        r == status_covered(
            match value {
                Some(v) => Some(*v),
                None => None,
            },
            home@,
            away@,
        ),
{
    match value {
        None => false,
        Some(v) => {
            let (hu, hs) = team_player_counts(v, home);
            let (au, as_) = team_player_counts(v, away);
            hu > 0 || hs > 0 || au > 0 || as_ > 0
        },
    }
}

} // verus!
