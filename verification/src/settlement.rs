//! Settlement of a pick against a final score: score parsing, the handicap
//! line of a market, and the outcome of each play type.
use vstd::prelude::*;
use crate::numbers::{decimal, decimal_vec, lemma_decimal, parse_u32, parse_u32_vec};
use crate::line::{
    float_line, handicap_outcome, line_ok, line_outcome, line_view, parse_float_line, HandicapLine,
    LineValue,
};
use crate::text::{
    chars_of, contains, contains_str, digits_of, digits_vec, eq_vec, lemma_split_nonempty,
    owned, push_all, replace, replace_str, slice_of, split, split_vec, starts_with,
    starts_with_str, string_of, trim, trim_vec, views, words, words_vec,
};

verus! {

/// A final result as the results feeds report it. `score` is the score after
/// ninety minutes, written `home:away`.
#[derive(Clone, Debug, PartialEq, Eq)]
pub struct MatchResult {
    pub home: String,
    pub away: String,
    pub score: String,
    pub half_score: String,
    pub stage: String,
    pub status: String,
}

/// A score `h:a`: exactly one `:` after trimming, and a `u32` on each side
/// (each side trimmed).
pub open spec fn score_parse(text: Seq<char>) -> Option<(u32, u32)> {
    let parts = split(trim(text), seq![':']);
    if parts.len() != 2 {
        None
    } else {
        match (parse_u32(trim(parts[0])), parse_u32(trim(parts[1]))) {
            (Some(h), Some(a)) => Some((h, a)),
            _ => None,
        }
    }
}

/// Parses a score written `home:away`; other separators are refused.
pub fn parse_score(text: &str) -> (r: Option<(u32, u32)>)
    ensures
        r == score_parse(text@),
{
    let v = chars_of(text);
    let t = trim_vec(&v);
    let sep = vec![':'];
    assert(sep@ =~= seq![':']);
    let parts = split_vec(&t, &sep);
    if parts.len() != 2 {
        return None;
    }
    assert(views(parts@)[0] == parts@[0]@ && views(parts@)[1] == parts@[1]@);
    let left = trim_vec(&parts[0]);
    let right = trim_vec(&parts[1]);
    let h = parse_u32_vec(&left);
    let a = parse_u32_vec(&right);
    match (h, a) {
        (Some(h), Some(a)) => Some((h, a)),
        _ => None,
    }
}

/// `spf_from_score`: the full-time outcome of a score.
pub open spec fn spf_outcome(home: int, away: int) -> Seq<char> {
    if home > away {
        "主胜"@
    } else if home == away {
        "平局"@
    } else {
        "客胜"@
    }
}

/// The 1X2 outcome (home win, draw, away win) of a score.
pub fn spf_from_score(home_score: i64, away_score: i64) -> (r: &'static str)
    ensures
        r@ == spf_outcome(home_score as int, away_score as int),
{
    if home_score > away_score {
        "主胜"
    } else if home_score == away_score {
        "平局"
    } else {
        "客胜"
    }
}

/// The handicap text of a market label: its last white-space separated word,
/// with every `+` removed.
pub open spec fn handicap_token(market: Seq<char>) -> Seq<char> {
    let w = words(market);
    let last = if w.len() > 0 {
        w.last()
    } else {
        Seq::<char>::empty()
    };
    replace(last, seq!['+'], Seq::<char>::empty())
}

/// The handicap line of a market label such as `HHAD 让球胜平负 -1`, as
/// `str::parse::<f64>` reads its last word with every `+` removed.
pub open spec fn handicap_line(market: Seq<char>) -> Option<LineValue> {
    float_line(handicap_token(market))
}

/// The handicap line of a market label: its last word with every `+`
/// removed, read as `str::parse::<f64>` reads it; `None` when that word is
/// not such a number.
pub fn parse_handicap_opt(market: &str) -> (r: Option<HandicapLine>)
    ensures
        match handicap_line(market@) {
            Some(v) => r matches Some(l) && line_ok(l) && line_view(l) == v,
            None => r is None,
        },
{
    let m = chars_of(market);
    let w = words_vec(&m);
    let empty: Vec<char> = Vec::new();
    let last = if w.len() > 0 {
        &w[w.len() - 1]
    } else {
        &empty
    };
    assert(last@ == (if words(m@).len() > 0 {
        words(m@).last()
    } else {
        Seq::<char>::empty()
    }));
    let token = replace_str(last, "+", "");
    proof {
        reveal_strlit("+");
        reveal_strlit("");
        assert("+"@ =~= seq!['+']);
        assert(""@ =~= Seq::<char>::empty());
    }
    parse_float_line(&token)
}

/// Handicap market: the label starts with `HHAD` or mentions `让球`.
pub open spec fn is_hhad_market(m: Seq<char>) -> bool {
    starts_with(m, "HHAD"@) || contains(m, "让球"@)
}

/// 1X2 market: starts with `HAD` or mentions `胜平负`.
pub open spec fn is_had_market(m: Seq<char>) -> bool {
    starts_with(m, "HAD"@) || contains(m, "胜平负"@)
}

/// Total-goals market: starts with `TTG` or mentions `总进球`.
pub open spec fn is_ttg_market(m: Seq<char>) -> bool {
    starts_with(m, "TTG"@) || contains(m, "总进球"@)
}

/// Correct-score market: starts with `CRS` or mentions `比分`.
pub open spec fn is_crs_market(m: Seq<char>) -> bool {
    starts_with(m, "CRS"@) || contains(m, "比分"@)
}

/// A total-goals pick with the full-width forms, `球`, `总进球`, `TTG` and
/// spaces normalised away, as `ttg_pick_matches_total` reads it.
pub open spec fn ttg_normalize(pick: Seq<char>) -> Seq<char> {
    replace(
        replace(
            replace(
                replace(
                    replace(
                        replace(replace(trim(pick), "＋"@, "+"@), "６"@, "6"@),
                        "７"@,
                        "7"@,
                    ),
                    "球"@,
                    ""@,
                ),
                "总进球"@,
                ""@,
            ),
            "TTG"@,
            ""@,
        ),
        " "@,
        ""@,
    )
}

/// A total-goals pick covers `total`: `7+`/`7以上` means at least seven,
/// `6+`/`6以上` at least six, otherwise the number its digits spell.
pub open spec fn ttg_hit(pick: Seq<char>, total: nat) -> bool {
    let n = ttg_normalize(pick);
    if contains(n, "7+"@) || contains(n, "7以上"@) {
        total >= 7
    } else if contains(n, "6+"@) || contains(n, "6以上"@) {
        total >= 6
    } else {
        parse_u32(digits_of(n)) == Some(total as u32) && total <= u32::MAX
    }
}

/// Whether a total-goals pick such as `3球`, `7+球` or `６以上` covers the
/// total number of goals.
pub fn ttg_pick_matches_total(pick: &str, total: u32) -> (r: bool)
    ensures
        r == ttg_hit(pick@, total as nat),
{
    let p = chars_of(pick);
    let n0 = trim_vec(&p);
    let n1 = replace_str(&n0, "＋", "+");
    let n2 = replace_str(&n1, "６", "6");
    let n3 = replace_str(&n2, "７", "7");
    let n4 = replace_str(&n3, "球", "");
    let n5 = replace_str(&n4, "总进球", "");
    let n6 = replace_str(&n5, "TTG", "");
    let n = replace_str(&n6, " ", "");
    if contains_str(&n, "7+") || contains_str(&n, "7以上") {
        return total >= 7;
    }
    if contains_str(&n, "6+") || contains_str(&n, "6以上") {
        return total >= 6;
    }
    let d = digits_vec(&n);
    match parse_u32_vec(&d) {
        Some(v) => v == total,
        None => false,
    }
}

/// The settlement of a pick: `(hit, actual outcome)`, or `None` when the
/// score cannot be read, the handicap line is missing or the market is not
/// one of the four play types.
pub open spec fn settle(market: Seq<char>, pick: Seq<char>, score: Seq<char>) -> Option<
    (bool, Seq<char>),
> {
    match score_parse(score) {
        None => None,
        Some((h, a)) => if is_hhad_market(market) {
            match handicap_line(market) {
                None => None,
                Some(line) => {
                    let act = line_outcome(h, a, line);
                    Some((pick == act, act))
                },
            }
        } else if is_had_market(market) {
            let act = spf_outcome(h as int, a as int);
            Some((pick == act, act))
        } else if is_ttg_market(market) {
            let t = (h + a) as nat;
            let act = if t >= 7 {
                "7+球"@
            } else {
                decimal(t) + "球"@
            };
            Some((ttg_hit(pick, t), act))
        } else if is_crs_market(market) {
            let act = decimal(h as nat) + ":"@ + decimal(a as nat);
            Some((pick == act, act))
        } else {
            None
        },
    }
}

/// The total-goals branch adds the two scores as `u32`: the input is
/// admitted when that sum does not overflow.
pub open spec fn settle_admits(market: Seq<char>, score: Seq<char>) -> bool {
    match score_parse(score) {
        Some((h, a)) => !is_hhad_market(market) && !is_had_market(market) && is_ttg_market(market)
            ==> h + a <= u32::MAX,
        None => true,
    }
}

/// Settles a pick of the given market against a final result.
pub fn pick_hit_from_result(market: &str, pick: &str, result: &MatchResult) -> (r: Option<
    (bool, String),
>)
    requires
        settle_admits(market@, result.score@),
    ensures
        match settle(market@, pick@, result.score@) {
            Some((b, act)) => r matches Some((rb, ract)) && rb == b && ract@ == act,
            None => r is None,
        },
{
    let (home_goals, away_goals) = match parse_score(result.score.as_str()) {
        Some(s) => s,
        None => {
            return None;
        },
    };
    let m = chars_of(market);
    let pv = chars_of(pick);
    if starts_with_str(&m, "HHAD") || contains_str(&m, "让球") {
        let line = match parse_handicap_opt(market) {
            Some(l) => l,
            None => {
                return None;
            },
        };
        let act = handicap_outcome(home_goals, away_goals, &line);
        let av = chars_of(act);
        return Some((eq_vec(&pv, &av), owned(act)));
    }
    if starts_with_str(&m, "HAD") || contains_str(&m, "胜平负") {
        let act = spf_from_score(home_goals as i64, away_goals as i64);
        let av = chars_of(act);
        return Some((eq_vec(&pv, &av), owned(act)));
    }
    if starts_with_str(&m, "TTG") || contains_str(&m, "总进球") {
        let total = home_goals + away_goals;
        let act: Vec<char> = if total >= 7 {
            chars_of("7+球")
        } else {
            let mut v = decimal_vec(total as u64);
            let q = chars_of("球");
            push_all(&mut v, &q);
            v
        };
        return Some((ttg_pick_matches_total(pick, total), string_of(&act)));
    }
    if starts_with_str(&m, "CRS") || contains_str(&m, "比分") {
        let mut act = decimal_vec(home_goals as u64);
        let colon = chars_of(":");
        push_all(&mut act, &colon);
        let av = decimal_vec(away_goals as u64);
        push_all(&mut act, &av);
        return Some((eq_vec(&pv, &act), string_of(&act)));
    }
    None
}

} // verus!
