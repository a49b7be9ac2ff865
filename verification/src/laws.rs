//! Properties that hold across the library's functions, stated over the
//! specifications that their contracts use.
use vstd::prelude::*;
use crate::numbers::{
    all_digits, decimal, digit_char, digit_val, digits_value, lemma_decimal, lemma_digit_char,
    lemma_parse_decimal, parse_u32,
};
use crate::results::{between, detag, strip_tags_spec, zgzcw_results, zgzcw_row, zgzcw_rows, ResultFields};
use crate::settlement::{
    handicap_line, is_crs_market, is_had_market, is_hhad_market, is_ttg_market, score_parse,
    settle, spf_outcome, ttg_hit, ttg_normalize,
};
use crate::snapshot::{
    csv_cell_spec, instant_before, kickoff_after, lemma_preferred_index, missing_columns,
    preferred_for, preferred_index, snapshot_candidate, snapshot_column_table, snapshot_note,
    text_before, SnapshotRef,
};
use crate::teams::{
    canonical_entry_hit, canonical_lookup, canonical_name, canonical_table, keep_for_name,
    normalize_spec, result_matches_label, team_matches_spec,
};
use crate::health::{startup_status, CheckFields};
use crate::audit::{
    all_snapshot_issues, content_issues, frozen_fields_broken, has_issue_type, issue, issue_if,
    missing_or_empty, snapshot_issues, timing_issues, unlinked, IssueView, SnapshotAuditFacts,
};
use crate::players::{feed_team_entries, player_entry, plays_for, team_entries, unavailable_count};
use crate::odds::{array_of, or_empty};
use crate::teams::lowercase_text;
use crate::feeds::{
    added_lists, added_results, already_listed, fdo_added, fdo_final, lemma_result_row_lists,
    obj_get, result_row, row_lists, str_of, FinalScore, JsonValue,
};
use crate::markets::pool_limit;
use crate::markets::score_pick_spec;
use crate::line::{lemma_zero_line, line_outcome, LineValue};
use crate::upset_lab::{count_of, kept_count, lemma_kept_count};
use crate::text::{
    contains, digits_of, is_digit, is_ws, join, lemma_contains_char, lemma_split_nonempty, lemma_squeeze_shape, lemma_contains_first,
    lemma_contains_len, lemma_join_chars, lemma_replace_absent, lemma_replace_chars,
    lemma_split_absent, lemma_split_first_piece, lemma_split_prefix, lemma_split_without_sep, lemma_trim_noop, lemma_words_chars, occurs_at,
    replace, split, squeeze, starts_with, trim, trim_end, trim_start, words,
};

verus! {

// ---------------------------------------------------------------------------
// Settlement
// ---------------------------------------------------------------------------

/// A text without the first character of a pattern does not contain it.
proof fn lemma_absent(s: Seq<char>, p: Seq<char>)
    requires
        p.len() > 0,
        !s.contains(p[0]),
    ensures
        !contains(s, p),
{
    if contains(s, p) {
        lemma_contains_first(s, p);
    }
}

/// A text shorter than a pattern does not contain it.
proof fn lemma_absent_short(s: Seq<char>, p: Seq<char>)
    requires
        s.len() < p.len(),
    ensures
        !contains(s, p),
{
    if contains(s, p) {
        lemma_contains_len(s, p);
    }
}

/// The total-goals label of a total below seven is a winning pick for it.
proof fn lemma_ttg_digit_label(t: nat)
    requires
        t < 7,
    ensures
        ttg_hit(decimal(t) + "球"@, t),
{
    reveal_strlit("球");
    reveal_strlit("＋");
    reveal_strlit("+");
    reveal_strlit("６");
    reveal_strlit("6");
    reveal_strlit("７");
    reveal_strlit("7");
    reveal_strlit("");
    reveal_strlit("总进球");
    reveal_strlit("TTG");
    reveal_strlit(" ");
    reveal_strlit("7+");
    reveal_strlit("7以上");
    reveal_strlit("6+");
    reveal_strlit("6以上");
    lemma_digit_char(t);
    let d = digit_char(t);
    assert(decimal(t) == seq![d]);
    let p = seq![d, '球'];
    assert(decimal(t) + "球"@ =~= p);
    assert(!is_ws(d) && !is_ws('球'));
    lemma_trim_noop(p);
    assert(trim(p) == p);
    lemma_absent(p, "＋"@);
    lemma_replace_absent(p, "＋"@, "+"@);
    lemma_absent(p, "６"@);
    lemma_replace_absent(p, "６"@, "6"@);
    lemma_absent(p, "７"@);
    lemma_replace_absent(p, "７"@, "7"@);
    let q = seq![d];
    assert(replace(p, "球"@, ""@) == q) by {
        let f = "球"@;
        assert(!(p.subrange(0, 1) =~= f)) by {
            assert(p.subrange(0, 1)[0] == d);
        }
        assert(!crate::text::starts_with(p, f));
        assert(p.drop_first() =~= seq!['球']);
        let r = p.drop_first();
        assert(r.subrange(0, 1) =~= f);
        assert(crate::text::starts_with(r, f));
        assert(r.skip(1) =~= Seq::<char>::empty());
        assert(replace(r.skip(1), f, ""@) == Seq::<char>::empty());
        assert(replace(r, f, ""@) =~= Seq::<char>::empty());
        assert(replace(p, f, ""@) =~= seq![d] + Seq::<char>::empty());
    }
    lemma_absent_short(q, "总进球"@);
    lemma_replace_absent(q, "总进球"@, ""@);
    lemma_absent_short(q, "TTG"@);
    lemma_replace_absent(q, "TTG"@, ""@);
    lemma_absent(q, " "@);
    lemma_replace_absent(q, " "@, ""@);
    assert(ttg_normalize(decimal(t) + "球"@) == q);
    lemma_absent_short(q, "7+"@);
    lemma_absent_short(q, "7以上"@);
    lemma_absent_short(q, "6+"@);
    lemma_absent_short(q, "6以上"@);
    assert(digits_of(q) == q) by {
        reveal_with_fuel(Seq::filter, 2);
        assert(q.drop_last() =~= Seq::<char>::empty());
    }
    lemma_parse_decimal(t as u32);
}

/// `7+球` is a winning pick for any total of seven or more.
proof fn lemma_ttg_seven_plus(t: nat)
    requires
        t >= 7,
    ensures
        ttg_hit("7+球"@, t),
{
    reveal_strlit("7+球");
    reveal_strlit("球");
    reveal_strlit("＋");
    reveal_strlit("+");
    reveal_strlit("６");
    reveal_strlit("6");
    reveal_strlit("７");
    reveal_strlit("7");
    reveal_strlit("");
    reveal_strlit("总进球");
    reveal_strlit("TTG");
    reveal_strlit(" ");
    reveal_strlit("7+");
    let p = "7+球"@;
    assert(p =~= seq!['7', '+', '球']);
    assert(!is_ws('7') && !is_ws('球'));
    lemma_trim_noop(p);
    lemma_absent(p, "＋"@);
    lemma_replace_absent(p, "＋"@, "+"@);
    lemma_absent(p, "６"@);
    lemma_replace_absent(p, "６"@, "6"@);
    lemma_absent(p, "７"@);
    lemma_replace_absent(p, "７"@, "7"@);
    let q = seq!['7', '+'];
    assert(replace(p, "球"@, ""@) == q) by {
        let f = "球"@;
        let r1 = p.drop_first();
        let r2 = r1.drop_first();
        assert(!(p.subrange(0, 1) =~= f)) by {
            assert(p.subrange(0, 1)[0] == '7');
        }
        assert(!(r1.subrange(0, 1) =~= f)) by {
            assert(r1.subrange(0, 1)[0] == '+');
        }
        assert(r2 =~= seq!['球']);
        assert(r2.subrange(0, 1) =~= f);
        assert(crate::text::starts_with(r2, f));
        assert(r2.skip(1) =~= Seq::<char>::empty());
        assert(replace(r2.skip(1), f, ""@) == Seq::<char>::empty());
        assert(replace(r2, f, ""@) =~= Seq::<char>::empty());
        assert(replace(r1, f, ""@) =~= seq!['+']);
        assert(replace(p, f, ""@) =~= q);
    }
    lemma_absent_short(q, "总进球"@);
    lemma_replace_absent(q, "总进球"@, ""@);
    lemma_absent_short(q, "TTG"@);
    lemma_replace_absent(q, "TTG"@, ""@);
    lemma_absent(q, " "@);
    lemma_replace_absent(q, " "@, ""@);
    assert(ttg_normalize("7+球"@) == q);
    assert(occurs_at(q, "7+"@, 0)) by {
        assert(q.subrange(0, 2) =~= "7+"@);
    }
    assert(contains(q, "7+"@));
}

/// The outcome that a settlement reports is itself a winning pick: settling
/// the reported outcome of any market against the same score hits, for
/// every market, pick and score that settle.
pub proof fn law_reported_outcome_hits(market: Seq<char>, pick: Seq<char>, score: Seq<char>)
    requires
        settle(market, pick, score) is Some,
    ensures
        match settle(market, pick, score) {
            Some((_, actual)) => settle(market, actual, score) == Some((true, actual)),
            None => true,
        },
{
    if let Some((h, a)) = score_parse(score) {
        if !is_hhad_market(market) && !is_had_market(market) && is_ttg_market(market) {
            let t = (h + a) as nat;
            if t >= 7 {
                lemma_ttg_seven_plus(t);
            } else {
                lemma_ttg_digit_label(t);
            }
        }
    }
}

/// One for a settlement that hits, zero otherwise.
pub open spec fn hit_count(r: Option<(bool, Seq<char>)>) -> int {
    match r {
        Some((true, _)) => 1,
        _ => 0,
    }
}

/// In a 1X2 market exactly one of home win, draw and away win hits, for
/// every readable score.
pub proof fn law_one_full_time_outcome_hits(market: Seq<char>, score: Seq<char>)
    requires
        is_had_market(market),
        !is_hhad_market(market),
        score_parse(score) is Some,
    ensures
        settle(market, "主胜"@, score) is Some,
        settle(market, "平局"@, score) is Some,
        settle(market, "客胜"@, score) is Some,
        hit_count(settle(market, "主胜"@, score)) + hit_count(settle(market, "平局"@, score))
            + hit_count(settle(market, "客胜"@, score)) == 1,
{
    reveal_strlit("主胜");
    reveal_strlit("平局");
    reveal_strlit("客胜");
    assert("主胜"@ != "平局"@) by {
        assert("主胜"@[0] != "平局"@[0]);
    }
    assert("主胜"@ != "客胜"@) by {
        assert("主胜"@[0] != "客胜"@[0]);
    }
    assert("平局"@ != "客胜"@) by {
        assert("平局"@[0] != "客胜"@[0]);
    }
}

/// A pick settles unless the score cannot be read, a handicap market has no
/// line, or the market is none of the four play types; outside total goals a
/// pick hits exactly when it names the reported outcome.
pub proof fn law_when_a_pick_settles(market: Seq<char>, pick: Seq<char>, score: Seq<char>)
    ensures
        settle(market, pick, score) is None <==> (score_parse(score) is None || (is_hhad_market(market)
            && handicap_line(market) is None) || !(is_hhad_market(market) || is_had_market(market)
            || is_ttg_market(market) || is_crs_market(market))),
        !is_ttg_market(market) ==> (settle(market, pick, score) matches Some((hit, act)) ==> hit == (
        pick == act)),
{
}

/// A level handicap (a zero line, however written) settles as the
/// full-time result: the home side covers exactly when it wins, pushes
/// exactly on a draw.
pub proof fn law_level_handicap_is_full_time_result(h: u32, a: u32, e: int)
    ensures
        (line_outcome(h, a, LineValue::Finite(0, e)) == "让胜"@) == (spf_outcome(h as int, a as int)
            == "主胜"@),
        (line_outcome(h, a, LineValue::Finite(0, e)) == "让平"@) == (spf_outcome(h as int, a as int)
            == "平局"@),
        (line_outcome(h, a, LineValue::Finite(0, e)) == "让负"@) == (spf_outcome(h as int, a as int)
            == "客胜"@),
{
    reveal_strlit("主胜");
    reveal_strlit("平局");
    reveal_strlit("客胜");
    reveal_strlit("让胜");
    reveal_strlit("让平");
    reveal_strlit("让负");
    assert("主胜"@[0] != "平局"@[0] && "主胜"@[0] != "客胜"@[0] && "平局"@[0] != "客胜"@[0]);
    assert("让胜"@[1] != "让平"@[1] && "让胜"@[1] != "让负"@[1] && "让平"@[1] != "让负"@[1]);
    let m = h - a;
    lemma_zero_line(e + 2, 1 - 100 * m);
    lemma_zero_line(e + 2, -1 - 100 * m);
}

/// The correct-score outcome text `h:a` that settlement reports reads back
/// as the same score.
pub proof fn law_printed_score_reads_back(h: u32, a: u32)
    ensures
        score_parse(decimal(h as nat) + ":"@ + decimal(a as nat)) == Some((h, a)),
{
    reveal_strlit(":");
    let dh = decimal(h as nat);
    let da = decimal(a as nat);
    lemma_decimal(h as nat);
    lemma_decimal(a as nat);
    let s = dh + seq![':'] + da;
    assert(":"@ =~= seq![':']);
    assert(dh + ":"@ + da == s);
    assert(!dh.contains(':')) by {
        if dh.contains(':') {
            let k = choose|k: int| 0 <= k < dh.len() && dh[k] == ':';
            assert(is_digit(dh[k]));
        }
    }
    assert(!da.contains(':')) by {
        if da.contains(':') {
            let k = choose|k: int| 0 <= k < da.len() && da[k] == ':';
            assert(is_digit(da[k]));
        }
    }
    assert(!is_ws(s[0])) by {
        assert(s[0] == dh[0]);
        assert(is_digit(dh[0]));
    }
    assert(!is_ws(s.last())) by {
        assert(s.last() == da[da.len() - 1]);
        assert(is_digit(da[da.len() - 1]));
    }
    lemma_trim_noop(s);
    lemma_split_prefix(dh, seq![':'], da);
    lemma_split_without_sep(da, seq![':']);
    assert(split(s, seq![':']) =~= seq![dh, da]);
    assert(!is_ws(dh[0]) && !is_ws(dh.last())) by {
        assert(is_digit(dh[0]));
        assert(is_digit(dh[dh.len() - 1]));
    }
    assert(!is_ws(da[0]) && !is_ws(da.last())) by {
        assert(is_digit(da[0]));
        assert(is_digit(da[da.len() - 1]));
    }
    lemma_trim_noop(dh);
    lemma_trim_noop(da);
    lemma_parse_decimal(h);
    lemma_parse_decimal(a);
}

/// A score written with spaces around the numbers and the colon,
/// ` h : a `, reads as `(h, a)`.
pub proof fn law_spaced_score_reads_back(h: u32, a: u32)
    ensures
        score_parse(" "@ + decimal(h as nat) + " : "@ + decimal(a as nat) + " "@) == Some((h, a)),
{
    reveal_strlit(" ");
    reveal_strlit(" : ");
    let dh = decimal(h as nat);
    let da = decimal(a as nat);
    lemma_decimal(h as nat);
    lemma_decimal(a as nat);
    assert(" "@ =~= seq![' ']);
    assert(" : "@ =~= seq![' ', ':', ' ']);
    let x = dh + seq![' '];
    let y = seq![' '] + da;
    let core = x + seq![':'] + y;
    let t = " "@ + dh + " : "@ + da + " "@;
    assert(t =~= seq![' '] + core + seq![' ']);
    assert(is_digit(dh[0]) && is_digit(dh[dh.len() - 1]));
    assert(is_digit(da[0]) && is_digit(da[da.len() - 1]));
    // the leading and trailing spaces are trimmed, nothing more
    assert(trim_start(t) == trim_start(t.drop_first()));
    assert(t.drop_first() =~= core + seq![' ']);
    assert((core + seq![' '])[0] == dh[0]);
    assert(trim_start(t) == core + seq![' ']);
    assert(trim_end(core + seq![' ']) == trim_end((core + seq![' ']).drop_last()));
    assert((core + seq![' ']).drop_last() =~= core);
    assert(core.last() == da[da.len() - 1]);
    assert(trim(t) == core);
    assert(!x.contains(':')) by {
        if x.contains(':') {
            let k = choose|k: int| 0 <= k < x.len() && x[k] == ':';
            if k < dh.len() {
                assert(is_digit(dh[k]));
            }
        }
    }
    assert(!y.contains(':')) by {
        if y.contains(':') {
            let k = choose|k: int| 0 <= k < y.len() && y[k] == ':';
            if k > 0 {
                assert(is_digit(da[k - 1]));
            }
        }
    }
    lemma_split_prefix(x, seq![':'], y);
    lemma_split_without_sep(y, seq![':']);
    assert(split(core, seq![':']) =~= seq![x, y]);
    assert(x[0] == dh[0]);
    assert(trim_start(x) == x);
    assert(trim_end(x) == trim_end(x.drop_last()));
    assert(x.drop_last() =~= dh);
    lemma_trim_noop(dh);
    assert(trim(x) == dh);
    assert(trim_start(y) == trim_start(y.drop_first()));
    assert(y.drop_first() =~= da);
    lemma_trim_noop(da);
    assert(trim(y) == da);
    lemma_parse_decimal(h);
    lemma_parse_decimal(a);
}

/// Replacing a pattern that only occurs at the end of a text.
proof fn lemma_replace_suffix(x: Seq<char>, f: Seq<char>, t: Seq<char>)
    requires
        f.len() > 0,
        !x.contains(f[0]),
    ensures
        replace(x + f, f, t) == x + t,
    decreases x.len(),
{
    let s = x + f;
    if x.len() == 0 {
        assert(s =~= f);
        assert(starts_with(s, f)) by {
            assert(s.subrange(0, f.len() as int) =~= f);
        }
        assert(s.skip(f.len() as int) =~= Seq::<char>::empty());
        assert(replace(s.skip(f.len() as int), f, t) == Seq::<char>::empty());
        assert(t + Seq::<char>::empty() =~= t);
        assert(x + t =~= t);
    } else {
        assert(x.contains(x[0]));
        assert(!starts_with(s, f)) by {
            if starts_with(s, f) {
                assert(s.subrange(0, f.len() as int)[0] == s[0]);
            }
        }
        assert(!x.drop_first().contains(f[0])) by {
            if x.drop_first().contains(f[0]) {
                let k = choose|k: int| 0 <= k < x.drop_first().len() && x.drop_first()[k] == f[0];
                assert(x[k + 1] == f[0]);
            }
        }
        lemma_replace_suffix(x.drop_first(), f, t);
        assert(s.drop_first() =~= x.drop_first() + f);
        assert(x + t =~= seq![x[0]] + (x.drop_first() + t));
    }
}

/// Every character of a pattern that occurs in a text is in the text.
proof fn lemma_contains_each(s: Seq<char>, p: Seq<char>, k: int)
    requires
        contains(s, p),
        0 <= k < p.len(),
    ensures
        s.contains(p[k]),
{
    let i = choose|i: int| occurs_at(s, p, i);
    assert(s.subrange(i, i + p.len())[k] == s[i + k]);
}

/// A text of ASCII digits is its own digits.
proof fn lemma_digits_of_digits(s: Seq<char>)
    requires
        forall|i: int| 0 <= i < s.len() ==> is_digit(#[trigger] s[i]),
    ensures
        digits_of(s) == s,
    decreases s.len(),
{
    reveal(Seq::filter);
    if s.len() > 0 {
        lemma_digits_of_digits(s.drop_last());
        assert(s.drop_last().push(s.last()) =~= s);
    }
}

/// The total-goals normalisation keeps a pick of digits and plus signs
/// followed by `球` as its digits and plus signs.
proof fn lemma_ttg_plain(x: Seq<char>)
    requires
        x.len() > 0,
        forall|i: int| 0 <= i < x.len() ==> is_digit(#[trigger] x[i]) || x[i] == '+',
    ensures
        ttg_normalize(x + "球"@) == x,
{
    reveal_strlit("球");
    reveal_strlit("＋");
    reveal_strlit("６");
    reveal_strlit("７");
    reveal_strlit("总进球");
    reveal_strlit("TTG");
    reveal_strlit(" ");
    reveal_strlit("+");
    reveal_strlit("6");
    reveal_strlit("7");
    reveal_strlit("");
    let p = x + "球"@;
    assert("球"@ =~= seq!['球']);
    assert(p.last() == '球');
    lemma_trim_noop(p);
    assert forall|c: char| p.contains(c) implies c == '球' || is_digit(c) || c == '+' by {
        let k = choose|k: int| 0 <= k < p.len() && p[k] == c;
        if k < x.len() {
            assert(p[k] == x[k]);
        }
    }
    assert forall|c: char| x.contains(c) implies is_digit(c) || c == '+' by {
        let k = choose|k: int| 0 <= k < x.len() && x[k] == c;
    }
    lemma_contains_char(p, '＋');
    lemma_contains_char(p, '６');
    lemma_contains_char(p, '７');
    lemma_replace_absent(p, seq!['＋'], "+"@);
    lemma_replace_absent(p, seq!['６'], "6"@);
    lemma_replace_absent(p, seq!['７'], "7"@);
    assert("＋"@ =~= seq!['＋']);
    assert("６"@ =~= seq!['６']);
    assert("７"@ =~= seq!['７']);
    lemma_replace_suffix(x, seq!['球'], ""@);
    assert(x + ""@ =~= x);
    assert(!contains(x, "总进球"@)) by {
        if contains(x, "总进球"@) {
            lemma_contains_first(x, "总进球"@);
        }
    }
    assert(!contains(x, "TTG"@)) by {
        if contains(x, "TTG"@) {
            lemma_contains_first(x, "TTG"@);
        }
    }
    assert(!contains(x, " "@)) by {
        if contains(x, " "@) {
            lemma_contains_first(x, " "@);
        }
    }
    lemma_replace_absent(x, "总进球"@, ""@);
    lemma_replace_absent(x, "TTG"@, ""@);
    lemma_replace_absent(x, " "@, ""@);
}

/// A total-goals pick `n球` covers exactly the total `n`.
pub proof fn law_counted_goals_pick(n: u32, t: u32)
    ensures
        ttg_hit(decimal(n as nat) + "球"@, t as nat) == (n == t),
{
    reveal_strlit("7+");
    reveal_strlit("7以上");
    reveal_strlit("6+");
    reveal_strlit("6以上");
    let d = decimal(n as nat);
    lemma_decimal(n as nat);
    lemma_ttg_plain(d);
    assert forall|c: char| d.contains(c) implies is_digit(c) by {
        let k = choose|k: int| 0 <= k < d.len() && d[k] == c;
    }
    assert(!contains(d, "7+"@)) by {
        if contains(d, "7+"@) {
            lemma_contains_each(d, "7+"@, 1);
        }
    }
    assert(!contains(d, "6+"@)) by {
        if contains(d, "6+"@) {
            lemma_contains_each(d, "6+"@, 1);
        }
    }
    assert(!contains(d, "7以上"@)) by {
        if contains(d, "7以上"@) {
            lemma_contains_each(d, "7以上"@, 1);
        }
    }
    assert(!contains(d, "6以上"@)) by {
        if contains(d, "6以上"@) {
            lemma_contains_each(d, "6以上"@, 1);
        }
    }
    lemma_digits_of_digits(d);
    lemma_parse_decimal(n);
}

/// `7+球` covers seven goals or more, `6+球` six or more, and an empty pick
/// covers nothing.
pub proof fn law_open_goals_picks(t: u32)
    ensures
        ttg_hit("7+球"@, t as nat) == (t >= 7),
        ttg_hit("6+球"@, t as nat) == (t >= 6),
        !ttg_hit(""@, t as nat),
{
    reveal_strlit("7+球");
    reveal_strlit("6+球");
    reveal_strlit("球");
    reveal_strlit("7+");
    reveal_strlit("7以上");
    reveal_strlit("6+");
    reveal_strlit("6以上");
    reveal_strlit("");
    let seven = seq!['7', '+'];
    let six = seq!['6', '+'];
    assert("7+球"@ =~= seven + "球"@);
    assert("6+球"@ =~= six + "球"@);
    lemma_ttg_plain(seven);
    lemma_ttg_plain(six);
    assert(occurs_at(seven, "7+"@, 0)) by {
        assert(seven.subrange(0, 2) =~= "7+"@);
    }
    assert(occurs_at(six, "6+"@, 0)) by {
        assert(six.subrange(0, 2) =~= "6+"@);
    }
    assert(!contains(six, "7+"@)) by {
        if contains(six, "7+"@) {
            lemma_contains_first(six, "7+"@);
        }
    }
    assert(!contains(six, "7以上"@)) by {
        if contains(six, "7以上"@) {
            lemma_contains_first(six, "7以上"@);
        }
    }
    reveal_strlit("＋");
    reveal_strlit("６");
    reveal_strlit("７");
    reveal_strlit("总进球");
    reveal_strlit("TTG");
    reveal_strlit(" ");
    reveal_strlit("+");
    reveal_strlit("6");
    reveal_strlit("7");
    assert(""@ =~= Seq::<char>::empty());
    let e = ttg_normalize(""@);
    assert(e =~= Seq::<char>::empty());
    assert(!contains(e, "7+"@) && !contains(e, "7以上"@) && !contains(e, "6+"@) && !contains(e, "6以上"@));
    assert(digits_of(e) =~= Seq::<char>::empty()) by {
        reveal(Seq::filter);
    }
}

/// Trimming a text with a white-space character in front or at the end
/// trims that character too.
proof fn lemma_trim_ws_ends(y: Seq<char>, w: char)
    requires
        is_ws(w),
    ensures
        trim(seq![w] + y) == trim(y),
        trim(y.push(w)) == trim(y),
    decreases y.len(),
{
    assert((seq![w] + y).drop_first() =~= y);
    if y.len() == 0 {
        assert(y.push(w).drop_first() =~= y);
        assert(trim_start(y.push(w)) == trim_start(y));
    } else if is_ws(y[0]) {
        lemma_trim_ws_ends(y.drop_first(), w);
        assert(y.push(w).drop_first() =~= y.drop_first().push(w));
    } else {
        assert(y.push(w)[0] == y[0]);
        assert(y.push(w).drop_last() =~= y);
    }
}

/// Appending a character other than `:` extends the last piece of a split
/// at `:`.
proof fn lemma_split_push(x: Seq<char>, c: char)
    requires
        c != ':',
    ensures
        split(x.push(c), seq![':']).len() == split(x, seq![':']).len(),
        forall|i: int|
            0 <= i < split(x, seq![':']).len() - 1 ==> #[trigger] split(x.push(c), seq![':'])[i]
                == split(x, seq![':'])[i],
        split(x.push(c), seq![':']).last() == split(x, seq![':']).last().push(c),
    decreases x.len(),
{
    let sep = seq![':'];
    lemma_split_nonempty(x, sep);
    let xc = x.push(c);
    if x.len() == 0 {
        assert(x =~= Seq::<char>::empty());
        assert(xc =~= seq![c]);
        assert(!starts_with(xc, sep)) by {
            assert(xc.subrange(0, 1)[0] == c);
        }
        assert(xc.drop_first() =~= Seq::<char>::empty());
        assert(split(Seq::<char>::empty(), sep) == seq![Seq::<char>::empty()]);
        assert(seq![c] + Seq::<char>::empty() =~= seq![c]);
        assert(split(xc, sep) =~= seq![seq![c]]);
        assert(split(x, sep) =~= seq![Seq::<char>::empty()]);
        assert(Seq::<char>::empty().push(c) =~= seq![c]);
    } else if starts_with(x, sep) {
        assert(xc.subrange(0, 1) =~= x.subrange(0, 1));
        assert(starts_with(xc, sep));
        assert(xc.skip(1) =~= x.skip(1).push(c));
        lemma_split_push(x.skip(1), c);
        lemma_split_nonempty(x.skip(1), sep);
        let a = split(x.skip(1), sep);
        let b = split(xc.skip(1), sep);
        assert forall|i: int| 0 <= i < split(x, sep).len() - 1 implies #[trigger] split(xc, sep)[i]
            == split(x, sep)[i] by {
            if i > 0 {
                assert(split(xc, sep)[i] == b[i - 1]);
                assert(split(x, sep)[i] == a[i - 1]);
            }
        }
    } else {
        assert(xc.subrange(0, 1) =~= x.subrange(0, 1));
        assert(!starts_with(xc, sep));
        assert(xc.drop_first() =~= x.drop_first().push(c));
        assert(xc[0] == x[0]);
        lemma_split_push(x.drop_first(), c);
        lemma_split_nonempty(x.drop_first(), sep);
        let a = split(x.drop_first(), sep);
        let b = split(xc.drop_first(), sep);
        assert forall|i: int| 0 <= i < split(x, sep).len() - 1 implies #[trigger] split(xc, sep)[i]
            == split(x, sep)[i] by {
            if i > 0 {
                assert(split(xc, sep)[i] == b[i]);
            }
        }
        if a.len() == 1 {
            assert(seq![x[0]] + a[0].push(c) =~= (seq![x[0]] + a[0]).push(c));
        }
    }
}

/// Splitting at `:` after trimming the front: the same pieces, the first
/// trimmed alike.
proof fn lemma_split_trim_start(s: Seq<char>)
    ensures
        split(trim_start(s), seq![':']).len() == split(s, seq![':']).len(),
        trim(split(trim_start(s), seq![':'])[0]) == trim(split(s, seq![':'])[0]),
        forall|i: int|
            1 <= i < split(s, seq![':']).len() ==> #[trigger] split(trim_start(s), seq![':'])[i]
                == split(s, seq![':'])[i],
    decreases s.len(),
{
    let sep = seq![':'];
    if s.len() > 0 && is_ws(s[0]) {
        let u = s.drop_first();
        lemma_split_trim_start(u);
        assert(s[0] != ':');
        assert(!starts_with(s, sep)) by {
            if starts_with(s, sep) {
                assert(s.subrange(0, 1)[0] == s[0]);
            }
        }
        lemma_split_nonempty(u, sep);
        lemma_trim_ws_ends(split(u, sep)[0], s[0]);
        let a = split(u, sep);
        assert forall|i: int| 1 <= i < split(s, sep).len() implies #[trigger] split(trim_start(s), sep)[i]
            == split(s, sep)[i] by {
            assert(split(s, sep)[i] == a[i]);
        }
    }
}

/// Splitting at `:` after trimming the end: the same pieces, the last
/// trimmed alike.
proof fn lemma_split_trim_end(s: Seq<char>)
    ensures
        split(trim_end(s), seq![':']).len() == split(s, seq![':']).len(),
        trim(split(trim_end(s), seq![':']).last()) == trim(split(s, seq![':']).last()),
        forall|i: int|
            0 <= i < split(s, seq![':']).len() - 1 ==> #[trigger] split(trim_end(s), seq![':'])[i]
                == split(s, seq![':'])[i],
    decreases s.len(),
{
    let sep = seq![':'];
    lemma_split_nonempty(s, sep);
    if s.len() > 0 && is_ws(s.last()) {
        let d = s.drop_last();
        lemma_split_trim_end(d);
        assert(d.push(s.last()) =~= s);
        assert(s.last() != ':');
        lemma_split_push(d, s.last());
        lemma_split_nonempty(d, sep);
        lemma_trim_ws_ends(split(d, sep).last(), s.last());
    }
}

/// A correct-score pick reads as the score its text gives with each `-`
/// written as `:`.
pub proof fn law_score_pick_is_dashed_score(pick: Seq<char>)
    ensures
        score_pick_spec(pick) == score_parse(replace(pick, "-"@, ":"@)),
{
    let u = replace(pick, "-"@, ":"@);
    let sep = seq![':'];
    let t = trim_start(u);
    lemma_split_trim_start(u);
    lemma_split_trim_end(t);
    assert(trim(u) == trim_end(t));
    lemma_split_nonempty(u, sep);
    if split(u, sep).len() == 2 {
        assert(trim(split(trim(u), sep)[0]) == trim(split(u, sep)[0]));
        assert(trim(split(trim(u), sep)[1]) == trim(split(u, sep)[1]));
    }
}

// ---------------------------------------------------------------------------
// Teams and labels
// ---------------------------------------------------------------------------

/// A normalised name is trimmed, holds only alphanumeric characters and
/// single spaces, and never two spaces in a row.
pub proof fn law_normalized_name_shape(name: Seq<char>)
    ensures
        ({
            let r = normalize_spec(name);
            &&& trim(r) == r
            &&& forall|i: int|
                0 <= i < r.len() ==> #[trigger] r[i] == ' ' || (crate::teams::char_is_alphanumeric(r[i])
                    && !is_ws(r[i]))
            &&& forall|i: int| 0 <= i < r.len() - 1 ==> !(#[trigger] r[i] == ' ' && r[i + 1] == ' ')
        }),
{
    broadcast use vstd::seq_lib::group_filter_ensures;

    let f = crate::teams::lowercase_text(name).filter(|c: char| keep_for_name(c));
    lemma_squeeze_shape(f);
    let r = normalize_spec(name);
    assert forall|i: int| 0 <= i < r.len() implies #[trigger] r[i] == ' ' || (
    crate::teams::char_is_alphanumeric(r[i]) && !is_ws(r[i])) by {
        if r[i] != ' ' {
            assert(f.contains(r[i]));
            let j = choose|j: int| 0 <= j < f.len() && f[j] == r[i];
            assert(keep_for_name(f[j]));
        }
    }
}

/// Every name refers to its own team.
pub proof fn law_team_matches_itself(name: Seq<char>)
    ensures
        team_matches_spec(name, name),
{
    let n = crate::teams::normalize_spec(name);
    assert(occurs_at(n, n, 0)) by {
        assert(n.subrange(0, n.len() as int) =~= n);
    }
}

/// A prediction labelled `home vs away` with a result's own team names
/// matches that result, whenever the label splits back into the two names:
/// ` vs ` occurs in neither name and the home name does not end in ` vs`.
pub proof fn law_own_label_matches_result(home: Seq<char>, away: Seq<char>)
    requires
        !contains(home + " vs"@, " vs "@),
        !contains(away, " vs "@),
    ensures
        result_matches_label(home, away, home + " vs "@ + away),
{
    reveal_strlit(" vs ");
    reveal_strlit(" vs");
    let sep = " vs "@;
    assert(sep.drop_last() =~= " vs"@);
    lemma_split_first_piece(home, sep, away);
    lemma_split_absent(away, sep);
    assert(split(home + sep + away, sep) =~= seq![home, away]);
    law_team_matches_itself(home);
    law_team_matches_itself(away);
}

/// `canonical_team_name` gives a Chinese name from its table, or the
/// trimmed input when no entry matches.
pub proof fn law_canonical_name_is_table_name_or_input(name: Seq<char>)
    ensures
        canonical_name(name) == trim(name) || exists|k: int|
            0 <= k < canonical_table().len() && canonical_name(name) == #[trigger] canonical_table()[k].0,
{
    lemma_lookup_in_table(canonical_table(), crate::teams::normalize_spec(name));
}

/// `canonical_team_name` gives the Chinese name of the first table entry
/// that the normalised name matches, and the trimmed input exactly when no
/// entry matches.
pub proof fn law_canonical_name_is_first_match_or_trimmed(name: Seq<char>)
    ensures
        (forall|k: int|
            0 <= k < canonical_table().len() ==> !#[trigger] canonical_entry_hit(
                normalize_spec(name),
                canonical_table()[k],
            )) ==> canonical_name(name) == trim(name),
        (exists|k: int|
            0 <= k < canonical_table().len() && #[trigger] canonical_entry_hit(
                normalize_spec(name),
                canonical_table()[k],
            )) ==> exists|k: int|
            0 <= k < canonical_table().len() && canonical_entry_hit(
                normalize_spec(name),
                #[trigger] canonical_table()[k],
            ) && canonical_name(name) == canonical_table()[k].0 && forall|j: int|
                0 <= j < k ==> !canonical_entry_hit(normalize_spec(name), #[trigger] canonical_table()[j]),
{
    lemma_lookup_first(canonical_table(), normalize_spec(name));
}

proof fn lemma_lookup_first(t: Seq<(Seq<char>, Seq<Seq<char>>)>, n: Seq<char>)
    ensures
        (forall|k: int| 0 <= k < t.len() ==> !#[trigger] canonical_entry_hit(n, t[k]))
            ==> canonical_lookup(t, n) is None,
        (exists|k: int| 0 <= k < t.len() && #[trigger] canonical_entry_hit(n, t[k])) ==> exists|k: int|
            0 <= k < t.len() && canonical_entry_hit(n, #[trigger] t[k]) && canonical_lookup(t, n)
                == Some(t[k].0) && forall|j: int| 0 <= j < k ==> !canonical_entry_hit(n, #[trigger] t[j]),
    decreases t.len(),
{
    if t.len() > 0 {
        let u = t.drop_first();
        lemma_lookup_first(u, n);
        if !canonical_entry_hit(n, t[0]) {
            assert forall|k: int| 0 <= k < u.len() && !canonical_entry_hit(n, t[k + 1]) implies !canonical_entry_hit(n, #[trigger] u[k]) by {
                assert(u[k] == t[k + 1]);
            }
            if exists|k: int| 0 <= k < t.len() && #[trigger] canonical_entry_hit(n, t[k]) {
                let k0 = choose|k: int| 0 <= k < t.len() && #[trigger] canonical_entry_hit(n, t[k]);
                assert(k0 > 0);
                assert(u[k0 - 1] == t[k0]);
                assert(canonical_entry_hit(n, u[k0 - 1]));
                let k1 = choose|k: int|
                    0 <= k < u.len() && canonical_entry_hit(n, #[trigger] u[k]) && canonical_lookup(u, n)
                        == Some(u[k].0) && forall|j: int| 0 <= j < k ==> !canonical_entry_hit(n, #[trigger] u[j]);
                assert(t[k1 + 1] == u[k1]);
                assert forall|j: int| 0 <= j < k1 + 1 implies !canonical_entry_hit(n, #[trigger] t[j]) by {
                    if j > 0 {
                        assert(t[j] == u[j - 1]);
                    }
                }
            } else {
                assert forall|k: int| 0 <= k < u.len() implies !#[trigger] canonical_entry_hit(n, u[k]) by {
                    assert(u[k] == t[k + 1]);
                }
            }
        }
    }
}

proof fn lemma_lookup_in_table(t: Seq<(Seq<char>, Seq<Seq<char>>)>, n: Seq<char>)
    ensures
        match canonical_lookup(t, n) {
            Some(cn) => exists|k: int| 0 <= k < t.len() && cn == #[trigger] t[k].0,
            None => true,
        },
    decreases t.len(),
{
    if t.len() > 0 {
        lemma_lookup_in_table(t.drop_first(), n);
        if let Some(cn) = canonical_lookup(t.drop_first(), n) {
            let k = choose|k: int| 0 <= k < t.drop_first().len() && cn == #[trigger] t.drop_first()[k].0;
            assert(t[k + 1] == t.drop_first()[k]);
        }
    }
}

// ---------------------------------------------------------------------------
// Results pages and exports
// ---------------------------------------------------------------------------

proof fn lemma_detag_no_brackets(s: Seq<char>, in_tag: bool)
    ensures
        !detag(s, in_tag).contains('<'),
        !detag(s, in_tag).contains('>'),
    decreases s.len(),
{
    if s.len() > 0 {
        let u = s.drop_first();
        lemma_detag_no_brackets(u, true);
        lemma_detag_no_brackets(u, false);
        let d = detag(s, in_tag);
        if s[0] == '<' {
            assert(d == seq![' '] + detag(u, true));
        } else if s[0] == '>' {
            assert(d == seq![' '] + detag(u, false));
        } else if !in_tag {
            assert(d == seq![s[0]] + detag(u, in_tag));
        }
        assert forall|c: char| c == '<' || c == '>' implies !d.contains(c) by {
            if d.contains(c) {
                let k = choose|k: int| 0 <= k < d.len() && d[k] == c;
                if s[0] == '<' || s[0] == '>' || !in_tag {
                    if k > 0 {
                        assert(d[k] == detag(u, s[0] == '<' || (s[0] != '>' && in_tag))[k - 1]);
                    }
                }
            }
        }
    }
}

/// The plain text of an HTML fragment never holds a tag bracket `<` or `>`.
pub proof fn law_stripped_text_has_no_tag_brackets(html: Seq<char>)
    ensures
        !strip_tags_spec(html).contains('<'),
        !strip_tags_spec(html).contains('>'),
{
    reveal_strlit("&nbsp;");
    reveal_strlit(" ");
    reveal_strlit("&amp;");
    reveal_strlit("&");
    let d = detag(html, false);
    lemma_detag_no_brackets(html, false);
    let r1 = replace(d, "&nbsp;"@, " "@);
    let r2 = replace(r1, "&amp;"@, "&"@);
    assert(!" "@.contains('<') && !" "@.contains('>')) by {
        assert(" "@ =~= seq![' ']);
    }
    assert(!"&"@.contains('<') && !"&"@.contains('>')) by {
        assert("&"@ =~= seq!['&']);
    }
    lemma_replace_chars(d, "&nbsp;"@, " "@, '<');
    lemma_replace_chars(d, "&nbsp;"@, " "@, '>');
    lemma_replace_chars(r1, "&amp;"@, "&"@, '<');
    lemma_replace_chars(r1, "&amp;"@, "&"@, '>');
    lemma_words_chars(r2, '<');
    lemma_words_chars(r2, '>');
    assert(!seq![' '].contains('<') && !seq![' '].contains('>'));
    lemma_join_chars(words(r2), seq![' '], '<');
    lemma_join_chars(words(r2), seq![' '], '>');
}

/// The plain text of an HTML fragment is trimmed, holds no white space but
/// single spaces, and never two spaces in a row.
pub proof fn law_stripped_text_is_collapsed(html: Seq<char>)
    ensures
        ({
            let r = strip_tags_spec(html);
            &&& trim(r) == r
            &&& forall|i: int| 0 <= i < r.len() ==> #[trigger] r[i] == ' ' || !is_ws(r[i])
            &&& forall|i: int| 0 <= i < r.len() - 1 ==> !(#[trigger] r[i] == ' ' && r[i + 1] == ' ')
        }),
{
    lemma_squeeze_shape(replace(replace(detag(html, false), "&nbsp;"@, " "@), "&amp;"@, "&"@));
}

/// A result read from the results page: both team names present, a score
/// that reads back, and no tag bracket in any field.
pub open spec fn well_read_result(r: ResultFields) -> bool {
    &&& r.0.len() > 0
    &&& r.1.len() > 0
    &&& score_parse(r.2) is Some
    &&& !r.0.contains('<') && !r.0.contains('>')
    &&& !r.1.contains('<') && !r.1.contains('>')
    &&& !r.2.contains('<') && !r.2.contains('>')
    &&& !r.3.contains('<') && !r.3.contains('>')
    &&& !r.4.contains('<') && !r.4.contains('>')
    &&& !r.5.contains('<') && !r.5.contains('>')
}

proof fn lemma_zgzcw_rows(rows: Seq<Seq<char>>)
    ensures
        zgzcw_rows(rows).len() <= rows.len(),
        forall|i: int| 0 <= i < zgzcw_rows(rows).len() ==> well_read_result(#[trigger] zgzcw_rows(rows)[i]),
    decreases rows.len(),
{
    if rows.len() > 0 {
        let prev = zgzcw_rows(rows.drop_last());
        lemma_zgzcw_rows(rows.drop_last());
        let row = rows.last();
        if let Some(r) = zgzcw_row(row) {
            let cells = between(row, "<td"@, "</td>"@);
            let plain = cells.map_values(|c: Seq<char>| strip_tags_spec(c));
            law_stripped_text_has_no_tag_brackets(cells[1]);
            law_stripped_text_has_no_tag_brackets(cells[2]);
            law_stripped_text_has_no_tag_brackets(cells[3]);
            law_stripped_text_has_no_tag_brackets(cells[4]);
            law_stripped_text_has_no_tag_brackets(cells[5]);
            if plain.len() > 6 {
                law_stripped_text_has_no_tag_brackets(cells[6]);
            }
            assert(well_read_result(r));
            assert forall|i: int| 0 <= i < prev.push(r).len() implies well_read_result(#[trigger] prev.push(r)[i]) by {
                if i < prev.len() {
                    assert(prev.push(r)[i] == prev[i]);
                }
            }
        }
    }
}

/// The results page gives at most one result per table row, and each has
/// both team names, a readable score and no tag bracket in any field.
pub proof fn law_page_results_are_well_read(html: Seq<char>)
    ensures
        zgzcw_results(html).len() <= between(html, "<tr>"@, "</tr>"@).len(),
        forall|i: int|
            0 <= i < zgzcw_results(html).len() ==> well_read_result(#[trigger] zgzcw_results(html)[i]),
{
    lemma_zgzcw_rows(between(html, "<tr>"@, "</tr>"@));
}

/// A cell without a comma, newline or quote is exported as it is.
pub proof fn law_plain_csv_cell_is_unchanged(value: Seq<char>)
    requires
        !value.contains(','),
        !value.contains('\n'),
        !value.contains('"'),
    ensures
        csv_cell_spec(value) == value,
{
    reveal_strlit("\"");
    reveal_strlit("\"\"");
    reveal_strlit(",");
    reveal_strlit("\n");
    assert("\""@ =~= seq!['"']);
    lemma_contains_char(value, '"');
    lemma_replace_absent(value, "\""@, "\"\""@);
    lemma_contains_char(value, ',');
    lemma_contains_char(value, '\n');
    assert(","@ =~= seq![',']);
    assert("\n"@ =~= seq!['\n']);
}

// ---------------------------------------------------------------------------
// Time
// ---------------------------------------------------------------------------

/// "Kickoff after snapshot" is a strict order on readable times: never true
/// of a time and itself, never true both ways, and transitive.
pub proof fn law_kickoff_order_is_strict(a: Seq<char>, b: Seq<char>, c: Seq<char>)
    ensures
        !kickoff_after(a, a),
        kickoff_after(a, b) ==> !kickoff_after(b, a),
        kickoff_after(a, b) && kickoff_after(b, c) ==> kickoff_after(a, c),
{
}

// ---------------------------------------------------------------------------
// Snapshots
// ---------------------------------------------------------------------------

/// The snapshot a fixture uses is the latest of its final snapshots when it
/// has one, else the latest of all its snapshots.
pub proof fn law_preferred_snapshot_is_latest(s: Seq<SnapshotRef>, match_id: Seq<char>)
    ensures
        match preferred_index(s, match_id, true) {
            Some(i) => s[i].is_final_pre_match && s[i].match_id@ == match_id && forall|j: int|
                0 <= j < s.len() && s[j].match_id@ == match_id && s[j].is_final_pre_match
                    ==> !text_before(s[i].snapshot_time@, #[trigger] s[j].snapshot_time@),
            None => forall|j: int|
                0 <= j < s.len() && #[trigger] s[j].match_id@ == match_id ==> !s[j].is_final_pre_match,
        },
        preferred_index(s, match_id, true) is None ==> match preferred_index(s, match_id, false) {
            Some(i) => s[i].match_id@ == match_id && forall|j: int|
                0 <= j < s.len() && s[j].match_id@ == match_id ==> !text_before(
                    s[i].snapshot_time@,
                    #[trigger] s[j].snapshot_time@,
                ),
            None => forall|j: int| 0 <= j < s.len() ==> (#[trigger] s[j].match_id@) != match_id,
        },
{
    lemma_preferred_index(s, match_id, true);
    lemma_preferred_index(s, match_id, false);
    if let Some(i) = preferred_index(s, match_id, true) {
        assert forall|j: int|
            0 <= j < s.len() && s[j].match_id@ == match_id && s[j].is_final_pre_match implies !text_before(
            s[i].snapshot_time@,
            #[trigger] s[j].snapshot_time@,
        ) by {
            assert(snapshot_candidate(s[j], match_id, true));
        }
    } else {
        assert forall|j: int|
            0 <= j < s.len() && #[trigger] s[j].match_id@ == match_id implies !s[j].is_final_pre_match by {
            assert(!snapshot_candidate(s[j], match_id, true));
        }
        if let Some(i) = preferred_index(s, match_id, false) {
            assert forall|j: int|
                0 <= j < s.len() && s[j].match_id@ == match_id implies !text_before(
                s[i].snapshot_time@,
                #[trigger] s[j].snapshot_time@,
            ) by {
                assert(snapshot_candidate(s[j], match_id, false));
            }
        } else {
            assert forall|j: int| 0 <= j < s.len() implies (#[trigger] s[j].match_id@) != match_id by {
                assert(!snapshot_candidate(s[j], match_id, false));
            }
        }
    }
}

/// The practical advice's note and the per-fixture snapshot choice agree:
/// the note names the snapshot that the fixture uses, and says "final"
/// exactly when that snapshot is a final one.
pub proof fn law_note_names_preferred_snapshot(s: Seq<SnapshotRef>, match_id: Seq<char>)
    ensures
        match preferred_for(s, match_id) {
            Some(i) => 0 <= i < s.len() && snapshot_note(s, match_id).1 == Some(s[i].id) && (
            snapshot_note(s, match_id).0 == "使用 final snapshot"@ <==> s[i].is_final_pre_match),
            None => snapshot_note(s, match_id).1 is None,
        },
{
    lemma_preferred_index(s, match_id, true);
    lemma_preferred_index(s, match_id, false);
    reveal_strlit("使用 final snapshot");
    reveal_strlit("非最终快照，建议临场前复查。");
    match preferred_index(s, match_id, true) {
        Some(i) => {},
        None => {
            if let Some(i) = preferred_index(s, match_id, false) {
                assert(snapshot_candidate(s[i], match_id, false));
                if s[i].is_final_pre_match {
                    assert(snapshot_candidate(s[i], match_id, true));
                }
                assert("使用 final snapshot"@[0] != "非最终快照，建议临场前复查。"@[0]);
            }
        },
    }
}

/// The migration completes the snapshot table without touching what is
/// there: every table column is either present already or added, and no
/// present column is added again.
pub proof fn law_migration_completes_schema(existing: Seq<Seq<char>>)
    ensures
        forall|k: int|
            0 <= k < snapshot_column_table().len() ==> existing.contains(
                (#[trigger] snapshot_column_table()[k]).0,
            ) || missing_columns(existing).contains(snapshot_column_table()[k]),
        forall|k: int|
            0 <= k < missing_columns(existing).len() ==> !existing.contains(
                (#[trigger] missing_columns(existing)[k]).0,
            ),
{
    let t = snapshot_column_table();
    let pred = |e: (Seq<char>, Seq<char>)| !existing.contains(e.0);
    assert(missing_columns(existing) == t.filter(pred));
    assert forall|k: int| 0 <= k < t.len() implies existing.contains((#[trigger] t[k]).0)
        || t.filter(pred).contains(t[k]) by {
        if !existing.contains(t[k].0) {
            t.lemma_filter_contains(pred, k);
        }
    }
    assert forall|k: int| 0 <= k < t.filter(pred).len() implies !existing.contains(
        (#[trigger] t.filter(pred)[k]).0,
    ) by {
        t.lemma_filter_pred(pred, k);
    }
}

// ---------------------------------------------------------------------------
// Startup
// ---------------------------------------------------------------------------

/// The startup status is `ok` exactly when every check passed, and
/// `critical` exactly when a critical check failed.
pub proof fn law_startup_status(checks: Seq<CheckFields>)
    ensures
        (startup_status(checks) == "ok"@) == (forall|i: int| 0 <= i < checks.len() ==> (#[trigger] checks[i]).1),
        (startup_status(checks) == "critical"@) == (exists|i: int|
            0 <= i < checks.len() && !(#[trigger] checks[i]).1 && checks[i].2 == "critical"@),
{
    reveal_strlit("ok");
    reveal_strlit("warning");
    reveal_strlit("critical");
    assert("ok"@.len() != "warning"@.len() && "ok"@.len() != "critical"@.len() && "warning"@.len()
        != "critical"@.len());
}

/// Listing results newest first twice gives back the order they came in.
pub proof fn law_latest_first_twice_restores<T>(rows: Seq<T>)
    ensures
        rows.reverse().reverse() == rows,
{
    assert(rows.reverse().reverse() =~= rows);
}

// ---------------------------------------------------------------------------
// Merging feed results
// ---------------------------------------------------------------------------

proof fn lemma_added_prefix(rows: Seq<JsonValue>, items: Seq<JsonValue>, i: int)
    requires
        0 <= i <= items.len(),
    ensures
        added_results(rows, items.take(i)).len() <= added_results(rows, items).len(),
        forall|k: int|
            0 <= k < added_results(rows, items.take(i)).len() ==> #[trigger] added_results(
                rows,
                items.take(i),
            )[k] == added_results(rows, items)[k],
    decreases items.len(),
{
    if i == items.len() {
        assert(items.take(i) =~= items);
    } else {
        assert(items.drop_last().take(i) =~= items.take(i));
        lemma_added_prefix(rows, items.drop_last(), i);
    }
}

proof fn lemma_merged_adds_none(
    rows: Seq<JsonValue>,
    merged: Seq<JsonValue>,
    its: Seq<JsonValue>,
    i: int,
)
    requires
        0 <= i <= its.len(),
        merged.len() == rows.len() + added_results(rows, its).len(),
        merged.take(rows.len() as int) == rows,
        forall|k: int|
            0 <= k < added_results(rows, its).len() ==> #[trigger] result_row(
                merged[rows.len() + k],
                added_results(rows, its)[k],
            ),
    ensures
        added_results(merged, its.take(i)).len() == 0,
    decreases i,
{
    if i == 0 {
        assert(its.take(0) =~= Seq::<JsonValue>::empty());
    } else {
        let j = i - 1;
        lemma_merged_adds_none(rows, merged, its, j);
        let t = its.take(i);
        assert(t.drop_last() =~= its.take(j));
        assert(t.last() == its[j]);
        let full = added_results(rows, its);
        let prev = added_results(rows, its.take(j));
        lemma_added_prefix(rows, its, j);
        lemma_added_prefix(rows, its, i);
        assert(added_results(merged, its.take(j)) =~= Seq::<FinalScore>::empty());
        match fdo_final(its[j]) {
            Some(r) => {
                let witness: int = if already_listed(rows, prev, r) {
                    if exists|m: int| 0 <= m < rows.len() && #[trigger] row_lists(rows[m], r) {
                        let m = choose|m: int| 0 <= m < rows.len() && #[trigger] row_lists(rows[m], r);
                        assert(merged.take(rows.len() as int)[m] == rows[m]);
                        m
                    } else {
                        let k = choose|k: int| 0 <= k < prev.len() && #[trigger] added_lists(prev[k], r);
                        assert(prev[k] == full[k]);
                        lemma_result_row_lists(merged[rows.len() + k], full[k], r);
                        rows.len() + k
                    }
                } else {
                    let k = prev.len() as int;
                    assert(added_results(rows, t) == prev.push(r));
                    assert(added_results(rows, t)[k] == full[k]);
                    lemma_result_row_lists(merged[rows.len() + k], full[k], r);
                    law_team_matches_itself(r.0);
                    law_team_matches_itself(r.1);
                    assert(added_lists(r, r));
                    rows.len() + k
                };
                assert(row_lists(merged[witness], r));
                assert(already_listed(merged, Seq::empty(), r));
            },
            None => {},
        }
    }
}

/// Merging the same football-data.org feed into rows that already hold its
/// merge adds nothing more: every result the feed reports is then recorded.
pub proof fn law_merge_adds_nothing_twice(
    rows: Seq<JsonValue>,
    merged: Seq<JsonValue>,
    feed: Option<JsonValue>,
)
    requires
        merged.len() == rows.len() + fdo_added(rows, feed).len(),
        merged.take(rows.len() as int) == rows,
        forall|k: int|
            0 <= k < fdo_added(rows, feed).len() ==> #[trigger] result_row(
                merged[rows.len() + k],
                fdo_added(rows, feed)[k],
            ),
    ensures
        fdo_added(merged, feed).len() == 0,
{
    match obj_get(feed, "matches"@) {
        Some(JsonValue::Array(items)) => {
            let its = items@;
            lemma_merged_adds_none(rows, merged, its, its.len() as int);
            assert(its.take(its.len() as int) =~= its);
        },
        _ => {},
    }
}

// ---------------------------------------------------------------------------
// Upset lab listing
// ---------------------------------------------------------------------------

/// The upset listing keeps of each pool as many candidates as it has, up to
/// the pool's limit: never more than the limit, and all of them when there
/// are no more than that.
pub proof fn law_listing_caps_each_pool(pools: Seq<Seq<char>>, p: Seq<char>)
    ensures
        kept_count(pools, pools.len() as int, p) <= pool_limit(p),
        count_of(pools, p) <= pool_limit(p) ==> kept_count(pools, pools.len() as int, p)
            == count_of(pools, p),
{
    lemma_kept_count(pools, pools.len() as int, p);
    assert(pools.take(pools.len() as int) =~= pools);
}

// ---------------------------------------------------------------------------
// Team names across feeds
// ---------------------------------------------------------------------------

/// A feed name matches a team whenever either normalised name contains the
/// other: a short name such as `沙特` matches the full `沙特阿拉伯`, and a
/// longer feed name matches the short team name it holds.
pub proof fn law_contained_names_match(candidate: Seq<char>, team: Seq<char>)
    requires
        contains(normalize_spec(team), normalize_spec(candidate)) || contains(
            normalize_spec(candidate),
            normalize_spec(team),
        ),
    ensures
        team_matches_spec(candidate, team),
{
}

// ---------------------------------------------------------------------------
// Snapshot audit
// ---------------------------------------------------------------------------

/// The types found in a concatenation are those of its two parts.
proof fn lemma_has_type_concat(a: Seq<IssueView>, b: Seq<IssueView>, t: Seq<char>)
    ensures
        has_issue_type(a + b, t) <==> has_issue_type(a, t) || has_issue_type(b, t),
{
    if has_issue_type(a + b, t) {
        let k = choose|k: int| 0 <= k < (a + b).len() && #[trigger] (a + b)[k].2 == t;
        if k < a.len() {
            assert(a[k].2 == t);
        } else {
            assert(b[k - a.len()].2 == t);
        }
    }
    if has_issue_type(a, t) {
        let k = choose|k: int| 0 <= k < a.len() && #[trigger] a[k].2 == t;
        assert((a + b)[k].2 == t);
    }
    if has_issue_type(b, t) {
        let k = choose|k: int| 0 <= k < b.len() && #[trigger] b[k].2 == t;
        assert((a + b)[a.len() + k].2 == t);
    }
}

/// A conditional issue has its own type exactly when it is raised.
proof fn lemma_has_type_issue_if(
    cond: bool,
    id: Option<i64>,
    m: Seq<char>,
    audit_type: Seq<char>,
    message: Seq<char>,
    t: Seq<char>,
)
    ensures
        has_issue_type(issue_if(cond, id, m, audit_type, message), t) <==> cond && audit_type == t,
        forall|k: int|
            #![trigger issue_if(cond, id, m, audit_type, message)[k]]
            0 <= k < issue_if(cond, id, m, audit_type, message).len() ==> issue_if(
                cond,
                id,
                m,
                audit_type,
                message,
            )[k].0 == id && issue_if(cond, id, m, audit_type, message)[k].1 == m,
{
    reveal(issue);
    let s = issue_if(cond, id, m, audit_type, message);
    if cond && audit_type == t {
        assert(s[0].2 == t);
    }
}

/// Which of the audit's issue types a snapshot raises, type by type.
proof fn lemma_snapshot_issue_types(f: SnapshotAuditFacts, t: Seq<char>)
    ensures
        has_issue_type(snapshot_issues(f), t) <==> {
            ||| (!f.created_before_kickoff || !kickoff_after(f.kickoff_time@, f.snapshot_time@))
                && t == "after_kickoff_snapshot"@
            ||| unlinked(f) && t == "match_id_missing_or_unmatched"@
            ||| f.odds_records == 0 && !missing_or_empty(f.odds_items) && t
                == "odds_match_id_unmatched"@
            ||| missing_or_empty(f.odds_items) && t == "missing_odds"@
            ||| missing_or_empty(f.model_prob_items) && t == "missing_model_probs"@
            ||| f.probability_sum_off && t == "invalid_probability_sum"@
            ||| f.quality_missing && t == "missing_data_quality"@
            ||| frozen_fields_broken(f) && t == "settlement_overwrite_risk"@
        },
        forall|k: int|
            #![trigger snapshot_issues(f)[k]]
            0 <= k < snapshot_issues(f).len() ==> snapshot_issues(f)[k].0 == Some(f.snapshot_id)
                && snapshot_issues(f)[k].1 == f.match_id@,
{
    let id = Some(f.snapshot_id);
    let m = f.match_id@;
    let a1 = issue_if(
        !f.created_before_kickoff || !kickoff_after(f.kickoff_time@, f.snapshot_time@),
        id,
        m,
        "after_kickoff_snapshot"@,
        "快照时间晚于开赛时间，不能进入 live_pre_match 纸面交易。"@,
    );
    let a2 = issue_if(unlinked(f), id, m, "match_id_missing_or_unmatched"@, "快照 match_id 为空或无法关联比赛。"@);
    let a3 = issue_if(
        f.odds_records == 0 && !missing_or_empty(f.odds_items),
        id,
        m,
        "odds_match_id_unmatched"@,
        "快照含赔率，但 odds_snapshots 中找不到同 match_id 的赔率记录。"@,
    );
    let b1 = issue_if(missing_or_empty(f.odds_items), id, m, "missing_odds"@, "赔率为空或关键赔率缺失。"@);
    let b2 = issue_if(missing_or_empty(f.model_prob_items), id, m, "missing_model_probs"@, "模型概率为空。"@);
    let b3 = issue_if(f.probability_sum_off, id, m, "invalid_probability_sum"@, "胜平负概率和不接近 1。"@);
    let b4 = issue_if(f.quality_missing, id, m, "missing_data_quality"@, "缺少数据质量评分。"@);
    let b5 = issue_if(
        frozen_fields_broken(f),
        id,
        m,
        "settlement_overwrite_risk"@,
        "赛后结算后发现冻结字段异常，存在覆盖风险。"@,
    );
    assert(timing_issues(f) == a1 + a2 + a3);
    assert(content_issues(f) == b1 + b2 + b3 + b4 + b5);
    lemma_has_type_issue_if(
        !f.created_before_kickoff || !kickoff_after(f.kickoff_time@, f.snapshot_time@),
        id,
        m,
        "after_kickoff_snapshot"@,
        "快照时间晚于开赛时间，不能进入 live_pre_match 纸面交易。"@,
        t,
    );
    lemma_has_type_issue_if(unlinked(f), id, m, "match_id_missing_or_unmatched"@, "快照 match_id 为空或无法关联比赛。"@, t);
    lemma_has_type_issue_if(
        f.odds_records == 0 && !missing_or_empty(f.odds_items),
        id,
        m,
        "odds_match_id_unmatched"@,
        "快照含赔率，但 odds_snapshots 中找不到同 match_id 的赔率记录。"@,
        t,
    );
    lemma_has_type_issue_if(missing_or_empty(f.odds_items), id, m, "missing_odds"@, "赔率为空或关键赔率缺失。"@, t);
    lemma_has_type_issue_if(missing_or_empty(f.model_prob_items), id, m, "missing_model_probs"@, "模型概率为空。"@, t);
    lemma_has_type_issue_if(f.probability_sum_off, id, m, "invalid_probability_sum"@, "胜平负概率和不接近 1。"@, t);
    lemma_has_type_issue_if(f.quality_missing, id, m, "missing_data_quality"@, "缺少数据质量评分。"@, t);
    lemma_has_type_issue_if(
        frozen_fields_broken(f),
        id,
        m,
        "settlement_overwrite_risk"@,
        "赛后结算后发现冻结字段异常，存在覆盖风险。"@,
        t,
    );
    lemma_has_type_concat(a1, a2, t);
    lemma_has_type_concat(a1 + a2, a3, t);
    lemma_has_type_concat(b1, b2, t);
    lemma_has_type_concat(b1 + b2, b3, t);
    lemma_has_type_concat(b1 + b2 + b3, b4, t);
    lemma_has_type_concat(b1 + b2 + b3 + b4, b5, t);
    lemma_has_type_concat(a1 + a2 + a3, b1 + b2 + b3 + b4 + b5, t);
    let all = snapshot_issues(f);
    assert forall|k: int| #![trigger all[k]] 0 <= k < all.len() implies all[k].0 == Some(f.snapshot_id)
        && all[k].1 == f.match_id@ by {
        lemma_has_type_issue_if(
            !f.created_before_kickoff || !kickoff_after(f.kickoff_time@, f.snapshot_time@),
            id,
            m,
            "after_kickoff_snapshot"@,
            "快照时间晚于开赛时间，不能进入 live_pre_match 纸面交易。"@,
            t,
        );
        lemma_issues_carry(a1, a2, id, m);
        lemma_issues_carry(a1 + a2, a3, id, m);
        lemma_issues_carry(b1, b2, id, m);
        lemma_issues_carry(b1 + b2, b3, id, m);
        lemma_issues_carry(b1 + b2 + b3, b4, id, m);
        lemma_issues_carry(b1 + b2 + b3 + b4, b5, id, m);
        lemma_issues_carry(a1 + a2 + a3, b1 + b2 + b3 + b4 + b5, id, m);
    }
}

/// Every issue of both parts carries a snapshot and match id, so does every
/// issue of their concatenation.
proof fn lemma_issues_carry(a: Seq<IssueView>, b: Seq<IssueView>, id: Option<i64>, m: Seq<char>)
    requires
        forall|k: int| #![trigger a[k]] 0 <= k < a.len() ==> a[k].0 == id && a[k].1 == m,
        forall|k: int| #![trigger b[k]] 0 <= k < b.len() ==> b[k].0 == id && b[k].1 == m,
    ensures
        forall|k: int| #![trigger (a + b)[k]] 0 <= k < (a + b).len() ==> (a + b)[k].0 == id && (a + b)[k].1 == m,
{
    assert forall|k: int| 0 <= k < (a + b).len() implies #[trigger] (a + b)[k].0 == id && (a
        + b)[k].1 == m by {
        if k < a.len() {
            assert((a + b)[k] == a[k]);
        } else {
            assert((a + b)[k] == b[k - a.len()]);
        }
    }
}

/// A snapshot raises `odds_match_id_unmatched` exactly when it froze a
/// non-empty odds list and no odds record shares its match id; a snapshot
/// that froze no odds at all gets `missing_odds` instead, never both.
pub proof fn law_unmatched_odds_needs_frozen_odds(f: SnapshotAuditFacts)
    ensures
        has_issue_type(snapshot_issues(f), "odds_match_id_unmatched"@) <==> (f.odds_records == 0
            && f.odds_items.is_some() && f.odds_items.unwrap() > 0),
        has_issue_type(snapshot_issues(f), "missing_odds"@) <==> !(f.odds_items.is_some()
            && f.odds_items.unwrap() > 0),
        !(has_issue_type(snapshot_issues(f), "odds_match_id_unmatched"@) && has_issue_type(
            snapshot_issues(f),
            "missing_odds"@,
        )),
{
    lemma_issue_types_distinct();
    lemma_snapshot_issue_types(f, "odds_match_id_unmatched"@);
    lemma_snapshot_issue_types(f, "missing_odds"@);
}

/// The audit's issue types are eight different texts.
proof fn lemma_issue_types_distinct()
    ensures
        "odds_match_id_unmatched"@ != "after_kickoff_snapshot"@,
        "odds_match_id_unmatched"@ != "match_id_missing_or_unmatched"@,
        "odds_match_id_unmatched"@ != "missing_odds"@,
        "odds_match_id_unmatched"@ != "missing_model_probs"@,
        "odds_match_id_unmatched"@ != "invalid_probability_sum"@,
        "odds_match_id_unmatched"@ != "missing_data_quality"@,
        "odds_match_id_unmatched"@ != "settlement_overwrite_risk"@,
        "missing_odds"@ != "after_kickoff_snapshot"@,
        "missing_odds"@ != "match_id_missing_or_unmatched"@,
        "missing_odds"@ != "missing_model_probs"@,
        "missing_odds"@ != "invalid_probability_sum"@,
        "missing_odds"@ != "missing_data_quality"@,
        "missing_odds"@ != "settlement_overwrite_risk"@,
{
    reveal_strlit("odds_match_id_unmatched");
    reveal_strlit("after_kickoff_snapshot");
    reveal_strlit("match_id_missing_or_unmatched");
    reveal_strlit("missing_odds");
    reveal_strlit("missing_model_probs");
    reveal_strlit("invalid_probability_sum");
    reveal_strlit("missing_data_quality");
    reveal_strlit("settlement_overwrite_risk");
    assert("odds_match_id_unmatched"@.len() != "after_kickoff_snapshot"@.len());
    assert("odds_match_id_unmatched"@.len() != "match_id_missing_or_unmatched"@.len());
    assert("odds_match_id_unmatched"@.len() != "missing_odds"@.len());
    assert("odds_match_id_unmatched"@.len() != "missing_model_probs"@.len());
    assert("odds_match_id_unmatched"@[0] != "invalid_probability_sum"@[0]);
    assert("odds_match_id_unmatched"@.len() != "missing_data_quality"@.len());
    assert("odds_match_id_unmatched"@.len() != "settlement_overwrite_risk"@.len());
    assert("missing_odds"@.len() != "after_kickoff_snapshot"@.len());
    assert("missing_odds"@.len() != "match_id_missing_or_unmatched"@.len());
    assert("missing_odds"@.len() != "missing_model_probs"@.len());
    assert("missing_odds"@.len() != "invalid_probability_sum"@.len());
    assert("missing_odds"@.len() != "missing_data_quality"@.len());
    assert("missing_odds"@.len() != "settlement_overwrite_risk"@.len());
}

/// Over a whole audit, every `odds_match_id_unmatched` issue names a
/// snapshot, by its id and match id, that froze a non-empty odds list and
/// has no odds record under its match id.
pub proof fn law_audit_unmatched_odds_issues(facts: Seq<SnapshotAuditFacts>)
    ensures
        forall|k: int|
            0 <= k < all_snapshot_issues(facts).len() && #[trigger] all_snapshot_issues(facts)[k].2
                == "odds_match_id_unmatched"@ ==> exists|q: int|
                0 <= q < facts.len() && all_snapshot_issues(facts)[k].0 == Some(
                    #[trigger] facts[q].snapshot_id,
                ) && all_snapshot_issues(facts)[k].1 == facts[q].match_id@ && facts[q].odds_records
                    == 0 && facts[q].odds_items.is_some() && facts[q].odds_items.unwrap() > 0,
    decreases facts.len(),
{
    if facts.len() > 0 {
        let prev = facts.drop_last();
        let f = facts.last();
        law_audit_unmatched_odds_issues(prev);
        law_unmatched_odds_needs_frozen_odds(f);
        lemma_snapshot_issue_types(f, "odds_match_id_unmatched"@);
        let a = all_snapshot_issues(prev);
        let b = snapshot_issues(f);
        assert(all_snapshot_issues(facts) == a + b);
        assert forall|k: int|
            0 <= k < all_snapshot_issues(facts).len() && #[trigger] all_snapshot_issues(facts)[k].2
                == "odds_match_id_unmatched"@ implies exists|q: int|
                0 <= q < facts.len() && all_snapshot_issues(facts)[k].0 == Some(
                    #[trigger] facts[q].snapshot_id,
                ) && all_snapshot_issues(facts)[k].1 == facts[q].match_id@ && facts[q].odds_records
                    == 0 && facts[q].odds_items.is_some() && facts[q].odds_items.unwrap() > 0 by {
            if k < a.len() {
                assert(all_snapshot_issues(facts)[k] == a[k]);
                let q = choose|q: int|
                    0 <= q < prev.len() && a[k].0 == Some(#[trigger] prev[q].snapshot_id) && a[k].1
                        == prev[q].match_id@ && prev[q].odds_records == 0
                        && prev[q].odds_items.is_some() && prev[q].odds_items.unwrap() > 0;
                assert(facts[q] == prev[q]);
            } else {
                let j = k - a.len();
                assert(all_snapshot_issues(facts)[k] == b[j]);
                assert(has_issue_type(b, "odds_match_id_unmatched"@));
                assert(facts[facts.len() - 1] == f);
            }
        }
    }
}

// ---------------------------------------------------------------------------
// Player availability
// ---------------------------------------------------------------------------

/// The lowercased status text of a player object.
pub open spec fn player_status(p: JsonValue) -> Seq<char> {
    lowercase_text(or_empty(str_of(obj_get(Some(p), "status"@))))
}

/// The markers of an absence in a lowercased status: out, injured,
/// suspended (`suspend`, `停`), hurt (`伤`), doubtful (`doubt`, `疑`).
pub open spec fn absence_marker(marker: Seq<char>) -> bool {
    marker == "out"@ || marker == "inj"@ || marker == "suspend"@ || marker == "停"@ || marker
        == "伤"@ || marker == "doubt"@ || marker == "疑"@
}

/// A player whose lowercased status holds an absence marker, `Suspended`
/// among them, may miss the match.
pub proof fn law_marked_player_is_unavailable(p: JsonValue, marker: Seq<char>)
    requires
        absence_marker(marker),
        contains(player_status(p), marker),
    ensures
        player_entry(p).1,
{
}

/// A team's unavailable count takes in every player of the team whose
/// lowercased status holds an absence marker: one such player in the feed's
/// `players` list makes it at least one.
pub proof fn law_marked_player_is_counted(
    value: JsonValue,
    team: Seq<char>,
    players: Seq<JsonValue>,
    k: int,
    marker: Seq<char>,
)
    requires
        array_of(obj_get(Some(value), "players"@)) == Some(players),
        0 <= k < players.len(),
        plays_for(players[k], team),
        absence_marker(marker),
        contains(player_status(players[k]), marker),
    ensures
        unavailable_count(feed_team_entries(value, team)) >= 1,
{
    law_marked_player_is_unavailable(players[k], marker);
    lemma_unavailable_entry_counted(players, team, k);
}

/// An unavailable player of the team is counted in the team's entries.
proof fn lemma_unavailable_entry_counted(players: Seq<JsonValue>, team: Seq<char>, k: int)
    requires
        0 <= k < players.len(),
        plays_for(players[k], team),
        player_entry(players[k]).1,
    ensures
        unavailable_count(team_entries(players, team)) >= 1,
    decreases players.len(),
{
    let prev = team_entries(players.drop_last(), team);
    if k == players.len() - 1 {
        let e = player_entry(players.last());
        assert(team_entries(players, team) == prev.push(e));
        assert(prev.push(e).drop_last() =~= prev);
    } else {
        assert(players.drop_last()[k] == players[k]);
        lemma_unavailable_entry_counted(players.drop_last(), team, k);
        if plays_for(players.last(), team) {
            let e = player_entry(players.last());
            assert(prev.push(e).drop_last() =~= prev);
        }
    }
}

} // verus!
