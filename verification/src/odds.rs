//! The odds a lottery feed offers: which fixtures carry markets, and, for
//! each market, the picks it lists with the odds text of each. Turning the
//! odds into numbers and fair probabilities is left to the caller.
use vstd::prelude::*;
use crate::feeds::{
    get_member, join_nonempty, join_nonempty_exec, member, text_field, text_field_spec, JsonValue,
};
use crate::feeds::{obj_get, obj_get_exec, str_of};
use crate::numbers::digit_char;
use crate::teams::{team_matches, team_matches_spec};
use crate::text::{
    ascii_lower, ascii_lower_vec, chars_of, eq_vec, owned, push_all, push_char, string_of,
    string_views,
};

verus! {

/// The odds text of a member: a string as it is, a number as printed;
/// nothing when the member is missing or holds anything else.
pub open spec fn odds_text(pairs: Seq<(String, JsonValue)>, key: Seq<char>) -> Option<Seq<char>> {
    match member(pairs, key) {
        Some(JsonValue::Str(s)) => Some(s@),
        Some(JsonValue::Number(n)) => Some(n.text@),
        _ => None,
    }
}

/// A pick and the odds text the feed gives for it.
pub type PickView = (Seq<char>, Option<Seq<char>>);

/// The picks of a market: each name with the odds text under its key.
pub open spec fn picks_of(
    obj: Seq<(String, JsonValue)>,
    names: Seq<Seq<char>>,
    keys: Seq<Seq<char>>,
) -> Seq<PickView> {
    Seq::new(names.len(), |i: int| (names[i], odds_text(obj, keys[i])))
}

/// The name of the `i`-th total-goals pick: `0球` to `6球`, then `7+球`.
pub open spec fn ttg_name(i: int) -> Seq<char> {
    if i == 7 {
        "7+球"@
    } else {
        seq![digit_char(i as nat)] + "球"@
    }
}

/// The key of the `i`-th total-goals pick: `s0` to `s7`.
pub open spec fn ttg_key(i: int) -> Seq<char> {
    seq!['s', digit_char(i as nat)]
}

/// The name of the `i`-th correct-score pick: `h:a` with `h = i / 6`,
/// `a = i % 6`.
pub open spec fn crs_name(i: int) -> Seq<char> {
    seq![digit_char((i / 6) as nat), ':', digit_char((i % 6) as nat)]
}

/// The key of the `i`-th correct-score pick: `s0hs0a`.
pub open spec fn crs_key(i: int) -> Seq<char> {
    seq!['s', '0', digit_char((i / 6) as nat), 's', '0', digit_char((i % 6) as nat)]
}

/// The names of the total-goals picks.
pub open spec fn ttg_names() -> Seq<Seq<char>> {
    Seq::new(8, |i: int| ttg_name(i))
}

/// The keys of the total-goals picks.
pub open spec fn ttg_keys() -> Seq<Seq<char>> {
    Seq::new(8, |i: int| ttg_key(i))
}

/// The names of the correct-score picks, `0:0` to `5:5`.
pub open spec fn crs_names() -> Seq<Seq<char>> {
    Seq::new(36, |i: int| crs_name(i))
}

/// The keys of the correct-score picks.
pub open spec fn crs_keys() -> Seq<Seq<char>> {
    Seq::new(36, |i: int| crs_key(i))
}

/// The keys of the three-way markets: home, draw, away.
pub open spec fn three_way_keys() -> Seq<Seq<char>> {
    seq!["h"@, "d"@, "a"@]
}

/// The picks of the win-draw-win market.
pub open spec fn had_names() -> Seq<Seq<char>> {
    seq!["主胜"@, "平局"@, "客胜"@]
}

/// The picks of the handicap win-draw-win market.
pub open spec fn hhad_names() -> Seq<Seq<char>> {
    seq!["让胜"@, "让平"@, "让负"@]
}

/// One market of a fixture: id, number, time, home, away, market label,
/// goal line, and the picks.
pub type BlockView = (
    Seq<char>,
    Seq<char>,
    Seq<char>,
    Seq<char>,
    Seq<char>,
    Seq<char>,
    Seq<char>,
    Seq<PickView>,
);

/// The head of a fixture's markets: id, number, time, home, away.
pub type HeadView = (Seq<char>, Seq<char>, Seq<char>, Seq<char>, Seq<char>);

/// The home team of a lottery-feed fixture.
pub open spec fn feed_home(pairs: Seq<(String, JsonValue)>) -> Seq<char> {
    text_field_spec(pairs, seq!["homeTeamAbbName"@, "homeTeamAllName"@])
}

/// The away team of a lottery-feed fixture.
pub open spec fn feed_away(pairs: Seq<(String, JsonValue)>) -> Seq<char> {
    text_field_spec(pairs, seq!["awayTeamAbbName"@, "awayTeamAllName"@])
}

/// Whether the object has a member with the key.
pub open spec fn has_key(pairs: Seq<(String, JsonValue)>, key: Seq<char>) -> bool {
    member(pairs, key) is Some
}

/// A priced lottery fixture: an object that names both teams and offers
/// a win-draw-win, handicap or total-goals market.
pub open spec fn priced_fixture(pairs: Seq<(String, JsonValue)>) -> bool {
    feed_home(pairs).len() > 0 && feed_away(pairs).len() > 0 && (has_key(pairs, "had"@)
        || has_key(pairs, "hhad"@) || has_key(pairs, "ttg"@))
}

/// The id, number, time and teams that every market of a fixture carries.
pub open spec fn fixture_head(pairs: Seq<(String, JsonValue)>) -> HeadView {
    let home = feed_home(pairs);
    let away = feed_away(pairs);
    let id = text_field_spec(pairs, seq!["matchId"@, "gmMatchId"@, "wbsjMatchId"@, "matchNumStr"@]);
    (
        if id.len() == 0 {
            home + "-"@ + away
        } else {
            id
        },
        text_field_spec(pairs, seq!["matchNumStr"@, "matchNum"@]),
        join_nonempty(text_field_spec(pairs, seq!["matchDate"@]), text_field_spec(pairs, seq!["matchTime"@])),
        home,
        away,
    )
}

/// A market block with the given head.
pub open spec fn block(
    head: HeadView,
    market: Seq<char>,
    goal_line: Seq<char>,
    picks: Seq<PickView>,
) -> BlockView {
    (head.0, head.1, head.2, head.3, head.4, market, goal_line, picks)
}

/// The object under a key, when the member is an object.
pub open spec fn sub_object(pairs: Seq<(String, JsonValue)>, key: Seq<char>) -> Option<
    Seq<(String, JsonValue)>,
> {
    match member(pairs, key) {
        Some(JsonValue::Object(o)) => Some(o@),
        _ => None,
    }
}

/// The win-draw-win block of a fixture, if it has that market.
pub open spec fn had_block(pairs: Seq<(String, JsonValue)>) -> Seq<BlockView> {
    match sub_object(pairs, "had"@) {
        Some(o) => seq![block(fixture_head(pairs), "HAD 胜平负"@, Seq::empty(), picks_of(o, had_names(), three_way_keys()))],
        None => Seq::empty(),
    }
}

/// The goal line of a handicap market.
pub open spec fn goal_line_of(o: Seq<(String, JsonValue)>) -> Seq<char> {
    text_field_spec(o, seq!["goalLine"@, "goalLineValue"@])
}

/// The handicap block of a fixture; its label ends with the goal line.
pub open spec fn hhad_block(pairs: Seq<(String, JsonValue)>) -> Seq<BlockView> {
    match sub_object(pairs, "hhad"@) {
        Some(o) => seq![block(fixture_head(pairs), "HHAD 让球胜平负 "@ + goal_line_of(o), goal_line_of(o), picks_of(o, hhad_names(), three_way_keys()))],
        None => Seq::empty(),
    }
}

/// The total-goals block of a fixture.
pub open spec fn ttg_block(pairs: Seq<(String, JsonValue)>) -> Seq<BlockView> {
    match sub_object(pairs, "ttg"@) {
        Some(o) => seq![block(fixture_head(pairs), "TTG 总进球"@, Seq::empty(), picks_of(o, ttg_names(), ttg_keys()))],
        None => Seq::empty(),
    }
}

/// The correct-score block of a fixture.
pub open spec fn crs_block(pairs: Seq<(String, JsonValue)>) -> Seq<BlockView> {
    match sub_object(pairs, "crs"@) {
        Some(o) => seq![block(fixture_head(pairs), "CRS 比分"@, Seq::empty(), picks_of(o, crs_names(), crs_keys()))],
        None => Seq::empty(),
    }
}

/// The markets of one fixture, in the order HAD, HHAD, TTG, CRS.
pub open spec fn fixture_blocks(pairs: Seq<(String, JsonValue)>) -> Seq<BlockView> {
    had_block(pairs) + hhad_block(pairs) + ttg_block(pairs) + crs_block(pairs)
}

/// The lottery feed's market blocks, before pricing: those of every priced
/// fixture, depth first, an object before its members.
pub open spec fn feed_blocks(v: JsonValue) -> Seq<BlockView>
    decreases v,
{
    match v {
        JsonValue::Array(items) => item_blocks(items@),
        JsonValue::Object(pairs) => if priced_fixture(pairs@) {
            fixture_blocks(pairs@) + member_blocks(pairs@)
        } else {
            member_blocks(pairs@)
        },
        _ => Seq::empty(),
    }
}

/// The blocks of a list of values, in order.
pub open spec fn item_blocks(items: Seq<JsonValue>) -> Seq<BlockView>
    decreases items,
{
    if items.len() == 0 {
        Seq::empty()
    } else {
        item_blocks(items.drop_last()) + feed_blocks(items.last())
    }
}

/// The blocks of the members of an object, in order.
pub open spec fn member_blocks(pairs: Seq<(String, JsonValue)>) -> Seq<BlockView>
    decreases pairs,
{
    if pairs.len() == 0 {
        Seq::empty()
    } else {
        member_blocks(pairs.drop_last()) + feed_blocks(pairs.last().1)
    }
}

/// One market of a fixture with the picks it lists.
pub struct OddsBlock {
    pub match_id: String,
    pub match_num: String,
    pub match_time: String,
    pub home: String,
    pub away: String,
    pub market: String,
    pub goal_line: String,
    pub picks: Vec<(String, Option<String>)>,
}

/// The view of a pick.
pub open spec fn pick_view(p: (String, Option<String>)) -> PickView {
    (
        p.0@,
        match p.1 {
            Some(s) => Some(s@),
            None => None,
        },
    )
}

impl View for OddsBlock {
    type V = BlockView;

    open spec fn view(&self) -> BlockView {
        (
            self.match_id@,
            self.match_num@,
            self.match_time@,
            self.home@,
            self.away@,
            self.market@,
            self.goal_line@,
            self.picks@.map_values(|p: (String, Option<String>)| pick_view(p)),
        )
    }
}

/// The views of a list of blocks.
pub open spec fn block_views(v: Seq<OddsBlock>) -> Seq<BlockView> {
    v.map_values(|b: OddsBlock| b@)
}

fn odds_text_exec(pairs: &Vec<(String, JsonValue)>, key: &str) -> (r: Option<String>)
    ensures
        match r {
            Some(s) => odds_text(pairs@, key@) == Some(s@),
            None => odds_text(pairs@, key@) is None,
        },
{
    match get_member(pairs, key) {
        Some(JsonValue::Str(s)) => Some(s.clone()),
        Some(JsonValue::Number(n)) => Some(n.text.clone()),
        _ => None,
    }
}

fn picks_from(obj: &Vec<(String, JsonValue)>, names: &Vec<String>, keys: &Vec<String>) -> (r: Vec<
    (String, Option<String>),
>)
    requires
        names@.len() == keys@.len(),
    ensures
        r@.map_values(|p: (String, Option<String>)| pick_view(p)) == picks_of(
            obj@,
            string_views(names@),
            string_views(keys@),
        ),
{
    let mut out: Vec<(String, Option<String>)> = Vec::new();
    let mut i: usize = 0;
    while i < names.len()
        invariant
            i <= names@.len(),
            names@.len() == keys@.len(),
            out@.len() == i,
            forall|j: int|
                0 <= j < i ==> #[trigger] pick_view(out@[j]) == (names@[j]@, odds_text(obj@, keys@[j]@)),
        decreases names@.len() - i,
    {
        let o = odds_text_exec(obj, keys[i].as_str());
        let p = (names[i].clone(), o);
        proof {
            assert(pick_view(p) == (names@[i as int]@, odds_text(obj@, keys@[i as int]@)));
        }
        out.push(p);
        i = i + 1;
    }
    assert(out@.map_values(|p: (String, Option<String>)| pick_view(p)) =~= picks_of(
        obj@,
        string_views(names@),
        string_views(keys@),
    ));
    out
}

fn texts3(a: &str, b: &str, c: &str) -> (r: Vec<String>)
    ensures
        string_views(r@) == seq![a@, b@, c@],
        r@.len() == 3,
{
    let r = vec![owned(a), owned(b), owned(c)];
    assert(string_views(r@) =~= seq![a@, b@, c@]);
    r
}

fn had_names_exec() -> (r: Vec<String>)
    ensures
        string_views(r@) == had_names(),
        r@.len() == 3,
{
    texts3("主胜", "平局", "客胜")
}

fn hhad_names_exec() -> (r: Vec<String>)
    ensures
        string_views(r@) == hhad_names(),
        r@.len() == 3,
{
    texts3("让胜", "让平", "让负")
}

fn three_way_keys_exec() -> (r: Vec<String>)
    ensures
        string_views(r@) == three_way_keys(),
        r@.len() == 3,
{
    texts3("h", "d", "a")
}

fn digit_exec(d: u32) -> (c: char)
    requires
        d < 10,
    ensures
        c == digit_char(d as nat),
{
    ((d + '0' as u32) as u8) as char
}

fn ttg_tables() -> (r: (Vec<String>, Vec<String>))
    ensures
        string_views(r.0@) == ttg_names(),
        string_views(r.1@) == ttg_keys(),
        r.0@.len() == 8,
        r.1@.len() == 8,
{
    let mut names: Vec<String> = Vec::new();
    let mut keys: Vec<String> = Vec::new();
    let mut i: u32 = 0;
    while i < 8
        invariant
            i <= 8,
            names@.len() == i,
            keys@.len() == i,
            forall|j: int| 0 <= j < i ==> #[trigger] names@[j]@ == ttg_name(j),
            forall|j: int| 0 <= j < i ==> #[trigger] keys@[j]@ == ttg_key(j),
        decreases 8 - i,
    {
        let d = digit_exec(i);
        let name = if i == 7 {
            owned("7+球")
        } else {
            let mut n = String::new();
            push_char(&mut n, d);
            let mut v = chars_of(n.as_str());
            let tail = chars_of("球");
            push_all(&mut v, &tail);
            string_of(&v)
        };
        let mut key = String::new();
        push_char(&mut key, 's');
        push_char(&mut key, d);
        assert(key@ =~= ttg_key(i as int));
        assert(name@ =~= ttg_name(i as int));
        names.push(name);
        keys.push(key);
        i = i + 1;
    }
    assert(string_views(names@) =~= ttg_names());
    assert(string_views(keys@) =~= ttg_keys());
    (names, keys)
}

fn crs_tables() -> (r: (Vec<String>, Vec<String>))
    ensures
        string_views(r.0@) == crs_names(),
        string_views(r.1@) == crs_keys(),
        r.0@.len() == 36,
        r.1@.len() == 36,
{
    let mut names: Vec<String> = Vec::new();
    let mut keys: Vec<String> = Vec::new();
    let mut h: u32 = 0;
    while h < 6
        invariant
            h <= 6,
            names@.len() == 6 * h,
            keys@.len() == 6 * h,
            forall|j: int| 0 <= j < 6 * h ==> #[trigger] names@[j]@ == crs_name(j),
            forall|j: int| 0 <= j < 6 * h ==> #[trigger] keys@[j]@ == crs_key(j),
        decreases 6 - h,
    {
        let mut a: u32 = 0;
        while a < 6
            invariant
                h < 6,
                a <= 6,
                names@.len() == 6 * h + a,
                keys@.len() == 6 * h + a,
                forall|j: int| 0 <= j < 6 * h + a ==> #[trigger] names@[j]@ == crs_name(j),
                forall|j: int| 0 <= j < 6 * h + a ==> #[trigger] keys@[j]@ == crs_key(j),
            decreases 6 - a,
        {
            let dh = digit_exec(h);
            let da = digit_exec(a);
            let mut name = String::new();
            push_char(&mut name, dh);
            push_char(&mut name, ':');
            push_char(&mut name, da);
            let mut key = String::new();
            push_char(&mut key, 's');
            push_char(&mut key, '0');
            push_char(&mut key, dh);
            push_char(&mut key, 's');
            push_char(&mut key, '0');
            push_char(&mut key, da);
            let ghost j: int = 6 * h + a;
            assert(j / 6 == h && j % 6 == a);
            assert(name@ =~= crs_name(j));
            assert(key@ =~= crs_key(j));
            names.push(name);
            keys.push(key);
            a = a + 1;
        }
        h = h + 1;
    }
    assert(string_views(names@) =~= crs_names());
    assert(string_views(keys@) =~= crs_keys());
    (names, keys)
}

/// The owned head of a fixture's markets.
struct Head {
    id: String,
    num: String,
    time: String,
    home: String,
    away: String,
}

impl Head {
    spec fn view_of(&self) -> HeadView {
        (self.id@, self.num@, self.time@, self.home@, self.away@)
    }
}

fn fixture_head_exec(pairs: &Vec<(String, JsonValue)>) -> (r: Head)
    ensures
        r.view_of() == fixture_head(pairs@),
{
    let hk = ["homeTeamAbbName", "homeTeamAllName"];
    let ak = ["awayTeamAbbName", "awayTeamAllName"];
    let ik = ["matchId", "gmMatchId", "wbsjMatchId", "matchNumStr"];
    let nk = ["matchNumStr", "matchNum"];
    let dk = ["matchDate"];
    let tk = ["matchTime"];
    assert(hk@.map_values(|k: &str| k@) =~= seq!["homeTeamAbbName"@, "homeTeamAllName"@]);
    assert(ak@.map_values(|k: &str| k@) =~= seq!["awayTeamAbbName"@, "awayTeamAllName"@]);
    assert(ik@.map_values(|k: &str| k@) =~= seq!["matchId"@, "gmMatchId"@, "wbsjMatchId"@, "matchNumStr"@]);
    assert(nk@.map_values(|k: &str| k@) =~= seq!["matchNumStr"@, "matchNum"@]);
    assert(dk@.map_values(|k: &str| k@) =~= seq!["matchDate"@]);
    assert(tk@.map_values(|k: &str| k@) =~= seq!["matchTime"@]);
    let home = text_field(pairs, &hk);
    let away = text_field(pairs, &ak);
    let id_text = text_field(pairs, &ik);
    let idv = chars_of(id_text.as_str());
    let id = if idv.len() == 0 {
        let mut v = chars_of(home.as_str());
        let dash = chars_of("-");
        let av = chars_of(away.as_str());
        push_all(&mut v, &dash);
        push_all(&mut v, &av);
        string_of(&v)
    } else {
        id_text
    };
    let num = text_field(pairs, &nk);
    let time = join_nonempty_exec(text_field(pairs, &dk), text_field(pairs, &tk));
    Head { id, num, time, home, away }
}

fn has_key_exec(pairs: &Vec<(String, JsonValue)>, key: &str) -> (r: bool)
    ensures
        r == has_key(pairs@, key@),
{
    get_member(pairs, key).is_some()
}

fn sub_object_exec<'a>(pairs: &'a Vec<(String, JsonValue)>, key: &str) -> (r: Option<
    &'a Vec<(String, JsonValue)>,
>)
    ensures
        match sub_object(pairs@, key@) {
            Some(o) => r matches Some(x) && x@ == o,
            None => r is None,
        },
{
    match get_member(pairs, key) {
        Some(JsonValue::Object(o)) => Some(o),
        _ => None,
    }
}

fn priced_fixture_exec(pairs: &Vec<(String, JsonValue)>) -> (r: bool)
    ensures
        r == priced_fixture(pairs@),
{
    let hk = ["homeTeamAbbName", "homeTeamAllName"];
    let ak = ["awayTeamAbbName", "awayTeamAllName"];
    assert(hk@.map_values(|k: &str| k@) =~= seq!["homeTeamAbbName"@, "homeTeamAllName"@]);
    assert(ak@.map_values(|k: &str| k@) =~= seq!["awayTeamAbbName"@, "awayTeamAllName"@]);
    let home = text_field(pairs, &hk);
    let away = text_field(pairs, &ak);
    let hv = chars_of(home.as_str());
    let av = chars_of(away.as_str());
    hv.len() > 0 && av.len() > 0 && (has_key_exec(pairs, "had") || has_key_exec(pairs, "hhad")
        || has_key_exec(pairs, "ttg"))
}

fn make_block(
    head: &Head,
    market: String,
    goal_line: String,
    picks: Vec<(String, Option<String>)>,
) -> (r: OddsBlock)
    ensures
        r@ == block(head.view_of(), market@, goal_line@, picks@.map_values(|p: (String, Option<String>)| pick_view(p))),
{
    OddsBlock {
        match_id: head.id.clone(),
        match_num: head.num.clone(),
        match_time: head.time.clone(),
        home: head.home.clone(),
        away: head.away.clone(),
        market,
        goal_line,
        picks,
    }
}

fn goal_line_exec(o: &Vec<(String, JsonValue)>) -> (r: String)
    ensures
        r@ == goal_line_of(o@),
{
    let gk = ["goalLine", "goalLineValue"];
    assert(gk@.map_values(|k: &str| k@) =~= seq!["goalLine"@, "goalLineValue"@]);
    text_field(o, &gk)
}

/// Appends the market blocks of one fixture.
fn push_fixture_blocks(pairs: &Vec<(String, JsonValue)>, blocks: &mut Vec<OddsBlock>)
    ensures
        block_views(final(blocks)@) == block_views(old(blocks)@) + fixture_blocks(pairs@),
{
    let ghost start = block_views(blocks@);
    let head = fixture_head_exec(pairs);
    let three = three_way_keys_exec();
    match sub_object_exec(pairs, "had") {
        Some(o) => {
            let names = had_names_exec();
            let picks = picks_from(o, &names, &three);
            let b = make_block(&head, owned("HAD 胜平负"), String::new(), picks);
            blocks.push(b);
        },
        None => {},
    }
    assert(block_views(blocks@) =~= start + had_block(pairs@));
    let ghost s1 = block_views(blocks@);
    match sub_object_exec(pairs, "hhad") {
        Some(o) => {
            let names = hhad_names_exec();
            let picks = picks_from(o, &names, &three);
            let gl = goal_line_exec(o);
            let mut label = chars_of("HHAD 让球胜平负 ");
            let glv = chars_of(gl.as_str());
            push_all(&mut label, &glv);
            let b = make_block(&head, string_of(&label), gl, picks);
            blocks.push(b);
        },
        None => {},
    }
    assert(block_views(blocks@) =~= s1 + hhad_block(pairs@));
    let ghost s2 = block_views(blocks@);
    match sub_object_exec(pairs, "ttg") {
        Some(o) => {
            let (names, keys) = ttg_tables();
            let picks = picks_from(o, &names, &keys);
            let b = make_block(&head, owned("TTG 总进球"), String::new(), picks);
            blocks.push(b);
        },
        None => {},
    }
    assert(block_views(blocks@) =~= s2 + ttg_block(pairs@));
    let ghost s3 = block_views(blocks@);
    match sub_object_exec(pairs, "crs") {
        Some(o) => {
            let (names, keys) = crs_tables();
            let picks = picks_from(o, &names, &keys);
            let b = make_block(&head, owned("CRS 比分"), String::new(), picks);
            blocks.push(b);
        },
        None => {},
    }
    assert(block_views(blocks@) =~= s3 + crs_block(pairs@));
    assert(block_views(blocks@) =~= start + fixture_blocks(pairs@));
}

/// Appends the market blocks of every priced fixture in a lottery feed,
/// depth first: an object's own markets before those of its members.
pub fn collect_odds_blocks(value: &JsonValue, blocks: &mut Vec<OddsBlock>)
    ensures
        block_views(final(blocks)@) == block_views(old(blocks)@) + feed_blocks(*value),
    decreases value,
{
    match value {
        JsonValue::Array(items) => {
            let ghost start = block_views(blocks@);
            let mut i: usize = 0;
            assert(items@.take(0) =~= Seq::<JsonValue>::empty());
            assert(start + item_blocks(items@.take(0)) =~= start);
            while i < items.len()
                invariant
                    i <= items@.len(),
                    *value == JsonValue::Array(*items),
                    start == block_views(old(blocks)@),
                    block_views(blocks@) == start + item_blocks(items@.take(i as int)),
                decreases items@.len() - i,
            {
                assert(items@.take(i + 1).drop_last() =~= items@.take(i as int));
                assert(items@.take(i + 1).last() == items@[i as int]);
                proof {
                    assert(decreases_to!(*value => (*value)->Array_0));
                    assert((*value)->Array_0 == *items);
                    assert(decreases_to!(*items => items@));
                    assert(decreases_to!(items@ => items@[i as int]));
                }
                collect_odds_blocks(&items[i], blocks);
                assert(block_views(blocks@) =~= start + item_blocks(items@.take(i + 1)));
                i = i + 1;
            }
            assert(items@.take(items@.len() as int) =~= items@);
        },
        JsonValue::Object(pairs) => {
            let ghost start = block_views(blocks@);
            if priced_fixture_exec(pairs) {
                push_fixture_blocks(pairs, blocks);
            }
            let ghost mid = block_views(blocks@);
            let mut i: usize = 0;
            assert(pairs@.take(0) =~= Seq::<(String, JsonValue)>::empty());
            assert(mid + member_blocks(pairs@.take(0)) =~= mid);
            while i < pairs.len()
                invariant
                    i <= pairs@.len(),
                    *value == JsonValue::Object(*pairs),
                    block_views(blocks@) == mid + member_blocks(pairs@.take(i as int)),
                decreases pairs@.len() - i,
            {
                assert(pairs@.take(i + 1).drop_last() =~= pairs@.take(i as int));
                assert(pairs@.take(i + 1).last() == pairs@[i as int]);
                proof {
                    assert(decreases_to!(*value => (*value)->Object_0));
                    assert((*value)->Object_0 == *pairs);
                    assert(decreases_to!(*pairs => pairs@));
                    assert(decreases_to!(pairs@ => pairs@[i as int]));
                    assert(decreases_to!(pairs@[i as int] => pairs@[i as int].1));
                }
                collect_odds_blocks(&pairs[i].1, blocks);
                assert(block_views(blocks@) =~= mid + member_blocks(pairs@.take(i + 1)));
                i = i + 1;
            }
            assert(pairs@.take(pairs@.len() as int) =~= pairs@);
            proof {
                if priced_fixture(pairs@) {
                    assert(block_views(blocks@) =~= start + (fixture_blocks(pairs@) + member_blocks(pairs@)));
                }
            }
        },
        _ => {
            assert(block_views(blocks@) =~= block_views(blocks@) + Seq::<BlockView>::empty());
        },
    }
}

/// The market blocks that a lottery feed offers, in feed order.
pub fn sporttery_blocks(value: &JsonValue) -> (r: Vec<OddsBlock>)
    ensures
        block_views(r@) == feed_blocks(*value),
{
    let mut blocks: Vec<OddsBlock> = Vec::new();
    collect_odds_blocks(value, &mut blocks);
    assert(block_views(Seq::<OddsBlock>::empty()) =~= Seq::<BlockView>::empty());
    assert(block_views(blocks@) =~= feed_blocks(*value));
    blocks
}

// ---------------------------------------------------------------------------
// Bookmaker prices of a fixture
// ---------------------------------------------------------------------------

/// Which result a bookmaker outcome prices.
#[derive(Clone, Copy, Debug, PartialEq, Eq)]
pub enum OutcomeSide {
    Home,
    Draw,
    Away,
    /// An outcome naming neither team nor the draw.
    Other,
}

/// `Value::as_array`.
pub open spec fn array_of(v: Option<JsonValue>) -> Option<Seq<JsonValue>> {
    match v {
        Some(JsonValue::Array(items)) => Some(items@),
        _ => None,
    }
}

/// The text of a JSON number; nothing for any other value.
pub open spec fn number_text_of(v: Option<JsonValue>) -> Option<Seq<char>> {
    match v {
        Some(JsonValue::Number(n)) => Some(n.text@),
        _ => None,
    }
}

/// A game of a bookmaker feed names the fixture's teams, home first.
pub open spec fn game_direct(game: JsonValue, home: Seq<char>, away: Seq<char>) -> bool {
    let g = Some(game);
    team_matches_spec(or_empty(str_of(obj_get(g, "home_team"@))), home) && team_matches_spec(
        or_empty(str_of(obj_get(g, "away_team"@))),
        away,
    )
}

/// A game of a bookmaker feed names the fixture's teams, away first.
pub open spec fn game_reversed(game: JsonValue, home: Seq<char>, away: Seq<char>) -> bool {
    let g = Some(game);
    team_matches_spec(or_empty(str_of(obj_get(g, "home_team"@))), away) && team_matches_spec(
        or_empty(str_of(obj_get(g, "away_team"@))),
        home,
    )
}

/// A text, or empty.
pub open spec fn or_empty(o: Option<Seq<char>>) -> Seq<char> {
    match o {
        Some(s) => s,
        None => Seq::empty(),
    }
}

/// The side an outcome name prices: the draw (any ASCII case), else the
/// home team, else the away team.
pub open spec fn side_of(name: Seq<char>, home: Seq<char>, away: Seq<char>) -> OutcomeSide {
    if ascii_lower(name) == "draw"@ {
        OutcomeSide::Draw
    } else if team_matches_spec(name, home) {
        OutcomeSide::Home
    } else if team_matches_spec(name, away) {
        OutcomeSide::Away
    } else {
        OutcomeSide::Other
    }
}

/// An outcome as plain values: its side and the text of its price.
pub type OutcomeView = (OutcomeSide, Option<Seq<char>>);

/// The priced outcome of one outcome object.
pub open spec fn outcome_of(o: JsonValue, home: Seq<char>, away: Seq<char>) -> OutcomeView {
    let v = Some(o);
    (side_of(or_empty(str_of(obj_get(v, "name"@))), home, away), number_text_of(obj_get(v, "price"@)))
}

/// The index of the first market with key `h2h`.
pub open spec fn first_h2h(markets: Seq<JsonValue>) -> Option<int>
    decreases markets.len(),
{
    if markets.len() == 0 {
        None
    } else if str_of(obj_get(Some(markets[0]), "key"@)) == Some("h2h"@) {
        Some(0)
    } else {
        match first_h2h(markets.drop_first()) {
            Some(i) => Some(i + 1),
            None => None,
        }
    }
}

/// The win-draw-win outcomes one bookmaker offers: those of its first
/// `h2h` market; none without markets, such a market or its outcomes.
pub open spec fn bookmaker_outcomes(b: JsonValue) -> Seq<JsonValue> {
    match array_of(obj_get(Some(b), "markets"@)) {
        Some(ms) => match first_h2h(ms) {
            Some(i) => match array_of(obj_get(Some(ms[i]), "outcomes"@)) {
                Some(os) => os,
                None => Seq::empty(),
            },
            None => Seq::empty(),
        },
        None => Seq::empty(),
    }
}

/// The outcomes of all bookmakers, in order, with their sides and prices.
pub open spec fn bookmakers_outcomes(bs: Seq<JsonValue>, home: Seq<char>, away: Seq<char>) -> Seq<OutcomeView>
    decreases bs.len(),
{
    if bs.len() == 0 {
        Seq::empty()
    } else {
        bookmakers_outcomes(bs.drop_last(), home, away) + bookmaker_outcomes(bs.last()).map_values(
            |o: JsonValue| outcome_of(o, home, away),
        )
    }
}

/// The index of the first game about the fixture, either way round.
pub open spec fn first_game(games: Seq<JsonValue>, home: Seq<char>, away: Seq<char>) -> Option<int>
    decreases games.len(),
{
    if games.len() == 0 {
        None
    } else if game_direct(games[0], home, away) || game_reversed(games[0], home, away) {
        Some(0)
    } else {
        match first_game(games.drop_first(), home, away) {
            Some(i) => Some(i + 1),
            None => None,
        }
    }
}

/// The bookmaker outcomes of a fixture, before averaging: those of the first
/// game about the fixture; `None` when the feed is not a list or no game
/// is about it.
pub open spec fn fixture_outcomes(feed: JsonValue, home: Seq<char>, away: Seq<char>) -> Option<Seq<OutcomeView>> {
    match feed {
        JsonValue::Array(games) => match first_game(games@, home, away) {
            Some(i) => Some(
                match array_of(obj_get(Some(games@[i]), "bookmakers"@)) {
                    Some(bs) => bookmakers_outcomes(bs, home, away),
                    None => Seq::empty(),
                },
            ),
            None => None,
        },
        _ => None,
    }
}

/// The views of a list of outcomes.
pub open spec fn outcome_views(v: Seq<(OutcomeSide, Option<String>)>) -> Seq<OutcomeView> {
    v.map_values(|o: (OutcomeSide, Option<String>)| (o.0, match o.1 {
        Some(t) => Some(t@),
        None => None,
    }))
}

fn str_member_or_empty(v: &JsonValue, key: &str) -> (r: String)
    ensures
        r@ == or_empty(str_of(obj_get(Some(*v), key@))),
{
    match obj_get_exec(Some(v), key) {
        Some(JsonValue::Str(s)) => s.clone(),
        _ => String::new(),
    }
}

fn side_of_exec(name: &String, home: &str, away: &str) -> (r: OutcomeSide)
    ensures
        r == side_of(name@, home@, away@),
{
    let lower = ascii_lower_vec(&chars_of(name.as_str()));
    let draw = chars_of("draw");
    if eq_vec(&lower, &draw) {
        OutcomeSide::Draw
    } else if team_matches(name.as_str(), home) {
        OutcomeSide::Home
    } else if team_matches(name.as_str(), away) {
        OutcomeSide::Away
    } else {
        OutcomeSide::Other
    }
}

proof fn lemma_first_h2h(markets: Seq<JsonValue>)
    ensures
        match first_h2h(markets) {
            Some(i) => 0 <= i < markets.len(),
            None => true,
        },
    decreases markets.len(),
{
    if markets.len() > 0 {
        lemma_first_h2h(markets.drop_first());
    }
}

fn first_h2h_exec(markets: &Vec<JsonValue>) -> (r: Option<usize>)
    ensures
        match first_h2h(markets@) {
            Some(i) => 0 <= i < markets@.len() && r == Some(i as usize),
            None => r is None,
        },
        r matches Some(x) ==> x < markets@.len(),
{
    proof {
        lemma_first_h2h(markets@);
    }
    let mut i: usize = 0;
    assert(markets@.skip(0) =~= markets@);
    while i < markets.len()
        invariant
            i <= markets@.len(),
            first_h2h(markets@) == match first_h2h(markets@.skip(i as int)) {
                Some(k) => Some(k + i),
                None => None,
            },
        decreases markets@.len() - i,
    {
        let ghost rest = markets@.skip(i as int);
        assert(rest[0] == markets@[i as int]);
        assert(rest.drop_first() =~= markets@.skip(i + 1));
        let is_h2h = match obj_get_exec(Some(&markets[i]), "key") {
            Some(JsonValue::Str(k)) => crate::text::str_eq(k.as_str(), "h2h"),
            _ => false,
        };
        if is_h2h {
            return Some(i);
        }
        i = i + 1;
    }
    None
}

fn push_bookmaker_outcomes(
    b: &JsonValue,
    home: &str,
    away: &str,
    out: &mut Vec<(OutcomeSide, Option<String>)>,
)
    ensures
        outcome_views(final(out)@) == outcome_views(old(out)@) + bookmaker_outcomes(*b).map_values(
            |o: JsonValue| outcome_of(o, home@, away@),
        ),
{
    let ghost start = outcome_views(out@);
    let ghost empty = Seq::<JsonValue>::empty().map_values(|o: JsonValue| outcome_of(o, home@, away@));
    assert(empty =~= Seq::<OutcomeView>::empty());
    let markets = obj_get_exec(Some(b), "markets");
    let ms = match markets {
        Some(JsonValue::Array(ms)) => ms,
        _ => {
            assert(array_of(obj_get(Some(*b), "markets"@)) is None);
            assert(outcome_views(out@) =~= start + empty);
            return;
        },
    };
    assert(array_of(obj_get(Some(*b), "markets"@)) == Some(ms@));
    let i = match first_h2h_exec(ms) {
        Some(i) => i,
        None => {
            assert(outcome_views(out@) =~= start + empty);
            return;
        },
    };
    let n_ms = ms.len();
    proof {
        match first_h2h(ms@) {
            Some(k) => {
                assert(ms@.len() == n_ms);
                assert(k == i as int);
            },
            None => {},
        }
    }
    assert(first_h2h(ms@) == Some(i as int));
    let outcomes: &Vec<JsonValue> = match obj_get_exec(Some(&ms[i]), "outcomes") {
        Some(JsonValue::Array(os)) => os,
        _ => {
            assert(array_of(obj_get(Some(ms@[i as int]), "outcomes"@)) is None);
            assert(outcome_views(out@) =~= start + empty);
            return;
        },
    };
    assert(array_of(obj_get(Some(ms@[i as int]), "outcomes"@)) == Some(outcomes@));
    assert(outcomes@ == bookmaker_outcomes(*b));
    let mut j: usize = 0;
    while j < outcomes.len()
        invariant
            j <= outcomes@.len(),
            outcome_views(out@) == start + outcomes@.take(j as int).map_values(
                |o: JsonValue| outcome_of(o, home@, away@),
            ),
        decreases outcomes@.len() - j,
    {
        let o = &outcomes[j];
        let name = str_member_or_empty(o, "name");
        let side = side_of_exec(&name, home, away);
        let price = match obj_get_exec(Some(o), "price") {
            Some(JsonValue::Number(n)) => Some(n.text.clone()),
            _ => None,
        };
        let ghost before = outcome_views(out@);
        out.push((side, price));
        assert(outcomes@.take(j + 1).map_values(|o: JsonValue| outcome_of(o, home@, away@))
            =~= outcomes@.take(j as int).map_values(|o: JsonValue| outcome_of(o, home@, away@)).push(
            outcome_of(outcomes@[j as int], home@, away@),
        ));
        assert(outcome_views(out@) =~= before.push(outcome_of(outcomes@[j as int], home@, away@)));
        j = j + 1;
    }
    assert(outcomes@.take(outcomes@.len() as int) =~= outcomes@);
}

/// The bookmaker outcomes of a fixture in an odds feed: for the first game
/// about its teams (either way round), each outcome of each bookmaker's
/// `h2h` market with the side it prices and the text of its price.
pub fn fixture_bookmaker_outcomes(feed: &JsonValue, home: &str, away: &str) -> (r: Option<
    Vec<(OutcomeSide, Option<String>)>,
>)
    ensures
        match fixture_outcomes(*feed, home@, away@) {
            Some(v) => r matches Some(x) && outcome_views(x@) == v,
            None => r is None,
        },
{
    let games = match feed {
        JsonValue::Array(games) => games,
        _ => {
            return None;
        },
    };
    let mut g: usize = 0;
    assert(games@.skip(0) =~= games@);
    while g < games.len()
        invariant
            g <= games@.len(),
            *feed == JsonValue::Array(*games),
            first_game(games@, home@, away@) == match first_game(games@.skip(g as int), home@, away@) {
                Some(k) => Some(k + g),
                None => None,
            },
        decreases games@.len() - g,
    {
        let ghost rest = games@.skip(g as int);
        assert(rest[0] == games@[g as int]);
        assert(rest.drop_first() =~= games@.skip(g + 1));
        let game = &games[g];
        let gh = str_member_or_empty(game, "home_team");
        let ga = str_member_or_empty(game, "away_team");
        let direct = team_matches(gh.as_str(), home) && team_matches(ga.as_str(), away);
        let reversed = team_matches(gh.as_str(), away) && team_matches(ga.as_str(), home);
        if direct || reversed {
            let mut out: Vec<(OutcomeSide, Option<String>)> = Vec::new();
            match obj_get_exec(Some(game), "bookmakers") {
                Some(JsonValue::Array(bs)) => {
                    let mut k: usize = 0;
                    assert(bs@.take(0) =~= Seq::<JsonValue>::empty());
                    assert(outcome_views(out@) =~= Seq::<OutcomeView>::empty());
                    while k < bs.len()
                        invariant
                            k <= bs@.len(),
                            outcome_views(out@) == bookmakers_outcomes(bs@.take(k as int), home@, away@),
                        decreases bs@.len() - k,
                    {
                        assert(bs@.take(k + 1).drop_last() =~= bs@.take(k as int));
                        assert(bs@.take(k + 1).last() == bs@[k as int]);
                        push_bookmaker_outcomes(&bs[k], home, away, &mut out);
                        k = k + 1;
                    }
                    assert(bs@.take(bs@.len() as int) =~= bs@);
                },
                _ => {
                    assert(outcome_views(out@) =~= Seq::<OutcomeView>::empty());
                },
            }
            return Some(out);
        }
        g = g + 1;
    }
    None
}

} // verus!
