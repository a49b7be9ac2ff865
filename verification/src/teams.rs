//! Team names: normalisation, the canonical Chinese name of a team, its
//! ranking, its English aliases, and whether two names or match labels refer
//! to the same teams.
use vstd::prelude::*;
use crate::numbers::{decimal, decimal_vec};
use crate::settlement::MatchResult;
use crate::text::{
    chars_of, contains, contains_vec, eq_vec, lemma_split_nonempty, owned, push_all, replace,
    replace_str, split, split_vec, squeeze, squeeze_vec, string_of, trim, trim_vec, views,
};

verus! {

/// What `str::to_lowercase` returns for a string: the Unicode lowercase
/// mapping of the whole string.
pub uninterp spec fn lowercase_text(s: Seq<char>) -> Seq<char>;

/// What `char::is_alphanumeric` returns for a character.
pub uninterp spec fn char_is_alphanumeric(c: char) -> bool;

/// `str::to_lowercase`; its result is named `lowercase_text`.
#[verifier::external_body]
pub(crate) fn to_lowercase(s: &str) -> (r: String)
    ensures
        r@ == lowercase_text(s@),
{
    s.to_lowercase()
}

/// `char::is_alphanumeric`; its result is named `char_is_alphanumeric`.
#[verifier::external_body]
fn is_alphanumeric(c: char) -> (r: bool)
    ensures
        r == char_is_alphanumeric(c),
{
    c.is_alphanumeric()
}

/// Characters that a normalised name keeps: letters, digits and spaces.
pub open spec fn keep_for_name(c: char) -> bool {
    char_is_alphanumeric(c) || c == ' '
}

/// `normalize`: lowercase, keep letters, digits and spaces, then collapse
/// white space.
pub open spec fn normalize_spec(s: Seq<char>) -> Seq<char> {
    squeeze(lowercase_text(s).filter(|c: char| keep_for_name(c)))
}

/// Normalises a team name for loose comparison.
pub fn normalize(value: &str) -> (r: String)
    ensures
        r@ == normalize_spec(value@),
{
    let v = normalize_vec(value);
    string_of(&v)
}

fn normalize_vec(value: &str) -> (r: Vec<char>)
    ensures
        r@ == normalize_spec(value@),
{
    let lower = to_lowercase(value);
    let l = chars_of(lower.as_str());
    let mut kept: Vec<char> = Vec::new();
    let mut i: usize = 0;
    proof {
        reveal(Seq::filter);
        assert(l@.take(0) =~= Seq::<char>::empty());
    }
    while i < l.len()
        invariant
            i <= l.len(),
            kept@ == l@.take(i as int).filter(|c: char| keep_for_name(c)),
        decreases l.len() - i,
    {
        proof {
            reveal(Seq::filter);
            assert(l@.take(i + 1).drop_last() =~= l@.take(i as int));
        }
        let c = l[i];
        if is_alphanumeric(c) || c == ' ' {
            kept.push(c);
        }
        i = i + 1;
    }
    assert(l@.take(l.len() as int) =~= l@);
    squeeze_vec(&kept)
}

/// The views of a name table.
pub open spec fn table_view(r: Seq<(&str, Vec<&str>)>) -> Seq<(Seq<char>, Seq<Seq<char>>)> {
    r.map_values(|e: (&str, Vec<&str>)| (e.0@, e.1@.map_values(|a: &str| a@)))
}

/// The views of a ranking table.
pub open spec fn rank_view(r: Seq<(&str, i32)>) -> Seq<(Seq<char>, i32)> {
    r.map_values(|e: (&str, i32)| (e.0@, e.1))
}

/// The Chinese team names and the English names that `canonical_team_name`
/// maps to them, in lookup order.
pub open spec fn canonical_table() -> Seq<(Seq<char>, Seq<Seq<char>>)> {
    seq![
        ("法国"@, seq!["france"@]),
        ("西班牙"@, seq!["spain"@]),
        ("阿根廷"@, seq!["argentina"@]),
        ("英格兰"@, seq!["england"@]),
        ("葡萄牙"@, seq!["portugal"@]),
        ("巴西"@, seq!["brazil"@]),
        ("荷兰"@, seq!["netherlands"@, "holland"@]),
        ("摩洛哥"@, seq!["morocco"@]),
        ("比利时"@, seq!["belgium"@]),
        ("德国"@, seq!["germany"@]),
        ("克罗地亚"@, seq!["croatia"@]),
        ("哥伦比亚"@, seq!["colombia"@]),
        ("塞内加尔"@, seq!["senegal"@]),
        ("墨西哥"@, seq!["mexico"@]),
        ("美国"@, seq!["usa"@, "united states"@, "united states of america"@]),
        ("乌拉圭"@, seq!["uruguay"@]),
        ("日本"@, seq!["japan"@]),
        ("瑞士"@, seq!["switzerland"@]),
        ("伊朗"@, seq!["iran"@]),
        ("土耳其"@, seq!["turkey"@, "turkiye"@]),
        ("厄瓜多尔"@, seq!["ecuador"@]),
        ("奥地利"@, seq!["austria"@]),
        ("韩国"@, seq!["south korea"@, "korea republic"@, "republic of korea"@]),
        ("澳大利亚"@, seq!["australia"@]),
        ("阿尔及利亚"@, seq!["algeria"@]),
        ("埃及"@, seq!["egypt"@]),
        ("加拿大"@, seq!["canada"@]),
        ("挪威"@, seq!["norway"@]),
        ("巴拿马"@, seq!["panama"@]),
        ("科特迪瓦"@, seq!["ivory coast"@, "cote d ivoire"@, "cote d'ivoire"@]),
        ("瑞典"@, seq!["sweden"@]),
        ("巴拉圭"@, seq!["paraguay"@]),
        ("捷克"@, seq!["czech republic"@, "czechia"@]),
        ("苏格兰"@, seq!["scotland"@]),
        ("突尼斯"@, seq!["tunisia"@]),
        ("民主刚果"@, seq!["dr congo"@, "congo dr"@, "democratic republic of congo"@]),
        ("乌兹别克斯坦"@, seq!["uzbekistan"@]),
        ("卡塔尔"@, seq!["qatar"@]),
        ("伊拉克"@, seq!["iraq"@]),
        ("南非"@, seq!["south africa"@]),
        ("沙特"@, seq!["saudi arabia"@]),
        ("约旦"@, seq!["jordan"@]),
        ("波黑"@, seq!["bosnia and herzegovina"@, "bosnia"@]),
        ("佛得角"@, seq!["cape verde"@]),
        ("新西兰"@, seq!["new zealand"@]),
    ]
}

/// The alias table that `team_aliases` consults, in lookup order.
pub open spec fn alias_table() -> Seq<(Seq<char>, Seq<Seq<char>>)> {
    seq![
        ("法国"@, seq!["france"@]),
        ("西班牙"@, seq!["spain"@]),
        ("阿根廷"@, seq!["argentina"@]),
        ("英格兰"@, seq!["england"@]),
        ("葡萄牙"@, seq!["portugal"@]),
        ("巴西"@, seq!["brazil"@]),
        ("荷兰"@, seq!["netherlands"@, "holland"@]),
        ("摩洛哥"@, seq!["morocco"@]),
        ("比利时"@, seq!["belgium"@]),
        ("德国"@, seq!["germany"@]),
        ("克罗地亚"@, seq!["croatia"@]),
        ("哥伦比亚"@, seq!["colombia"@]),
        ("塞内加尔"@, seq!["senegal"@]),
        ("墨西哥"@, seq!["mexico"@]),
        ("美国"@, seq!["usa"@, "united states"@, "united states of america"@]),
        ("乌拉圭"@, seq!["uruguay"@]),
        ("日本"@, seq!["japan"@]),
        ("瑞士"@, seq!["switzerland"@]),
        ("伊朗"@, seq!["iran"@]),
        ("土耳其"@, seq!["turkey"@, "turkiye"@]),
        ("厄瓜多尔"@, seq!["ecuador"@]),
        ("奥地利"@, seq!["austria"@]),
        ("韩国"@, seq!["south korea"@, "korea republic"@, "republic of korea"@]),
        ("澳大利亚"@, seq!["australia"@]),
        ("阿尔及利亚"@, seq!["algeria"@]),
        ("埃及"@, seq!["egypt"@]),
        ("加拿大"@, seq!["canada"@]),
        ("挪威"@, seq!["norway"@]),
        ("巴拿马"@, seq!["panama"@]),
        ("科特迪瓦"@, seq!["ivory coast"@, "cote d ivoire"@, "cote d'ivoire"@]),
        ("瑞典"@, seq!["sweden"@]),
        ("巴拉圭"@, seq!["paraguay"@]),
        ("捷克"@, seq!["czech republic"@, "czechia"@]),
        ("苏格兰"@, seq!["scotland"@]),
        ("突尼斯"@, seq!["tunisia"@]),
        ("民主刚果"@, seq!["dr congo"@, "congo dr"@, "democratic republic of congo"@]),
        ("乌兹别克斯坦"@, seq!["uzbekistan"@]),
        ("卡塔尔"@, seq!["qatar"@]),
        ("伊拉克"@, seq!["iraq"@]),
        ("南非"@, seq!["south africa"@]),
        ("沙特"@, seq!["saudi arabia"@]),
        ("波黑"@, seq!["bosnia and herzegovina"@, "bosnia"@]),
        ("新西兰"@, seq!["new zealand"@]),
    ]
}

/// The FIFA ranking table that `team_rank` consults, in lookup order.
pub open spec fn rank_table() -> Seq<(Seq<char>, i32)> {
    seq![
        ("法国"@, 1),
        ("西班牙"@, 2),
        ("阿根廷"@, 3),
        ("英格兰"@, 4),
        ("葡萄牙"@, 5),
        ("巴西"@, 6),
        ("荷兰"@, 7),
        ("摩洛哥"@, 8),
        ("比利时"@, 9),
        ("德国"@, 10),
        ("克罗地亚"@, 11),
        ("哥伦比亚"@, 13),
        ("塞内加尔"@, 14),
        ("墨西哥"@, 15),
        ("美国"@, 16),
        ("乌拉圭"@, 17),
        ("日本"@, 18),
        ("瑞士"@, 19),
        ("伊朗"@, 21),
        ("土耳其"@, 22),
        ("厄瓜多尔"@, 23),
        ("奥地利"@, 24),
        ("韩国"@, 25),
        ("澳大利亚"@, 27),
        ("阿尔及利亚"@, 28),
        ("埃及"@, 29),
        ("加拿大"@, 30),
        ("挪威"@, 31),
        ("巴拿马"@, 33),
        ("科特迪瓦"@, 34),
        ("瑞典"@, 38),
        ("巴拉圭"@, 40),
        ("捷克"@, 41),
        ("苏格兰"@, 43),
        ("突尼斯"@, 44),
        ("民主刚果"@, 46),
        ("乌兹别克斯坦"@, 50),
        ("卡塔尔"@, 55),
        ("伊拉克"@, 57),
        ("南非"@, 60),
        ("沙特"@, 61),
        ("约旦"@, 63),
        ("波黑"@, 65),
        ("佛得角"@, 69),
        ("加纳"@, 74),
        ("库拉索"@, 82),
        ("海地"@, 83),
        ("新西兰"@, 85),
    ]
}

fn canonical_entries() -> (r: Vec<(&'static str, Vec<&'static str>)>)
    ensures
        table_view(r@) == canonical_table(),
{
    let r = vec![
        ("法国", vec!["france"]),
        ("西班牙", vec!["spain"]),
        ("阿根廷", vec!["argentina"]),
        ("英格兰", vec!["england"]),
        ("葡萄牙", vec!["portugal"]),
        ("巴西", vec!["brazil"]),
        ("荷兰", vec!["netherlands", "holland"]),
        ("摩洛哥", vec!["morocco"]),
        ("比利时", vec!["belgium"]),
        ("德国", vec!["germany"]),
        ("克罗地亚", vec!["croatia"]),
        ("哥伦比亚", vec!["colombia"]),
        ("塞内加尔", vec!["senegal"]),
        ("墨西哥", vec!["mexico"]),
        ("美国", vec!["usa", "united states", "united states of america"]),
        ("乌拉圭", vec!["uruguay"]),
        ("日本", vec!["japan"]),
        ("瑞士", vec!["switzerland"]),
        ("伊朗", vec!["iran"]),
        ("土耳其", vec!["turkey", "turkiye"]),
        ("厄瓜多尔", vec!["ecuador"]),
        ("奥地利", vec!["austria"]),
        ("韩国", vec!["south korea", "korea republic", "republic of korea"]),
        ("澳大利亚", vec!["australia"]),
        ("阿尔及利亚", vec!["algeria"]),
        ("埃及", vec!["egypt"]),
        ("加拿大", vec!["canada"]),
        ("挪威", vec!["norway"]),
        ("巴拿马", vec!["panama"]),
        ("科特迪瓦", vec!["ivory coast", "cote d ivoire", "cote d'ivoire"]),
        ("瑞典", vec!["sweden"]),
        ("巴拉圭", vec!["paraguay"]),
        ("捷克", vec!["czech republic", "czechia"]),
        ("苏格兰", vec!["scotland"]),
        ("突尼斯", vec!["tunisia"]),
        ("民主刚果", vec!["dr congo", "congo dr", "democratic republic of congo"]),
        ("乌兹别克斯坦", vec!["uzbekistan"]),
        ("卡塔尔", vec!["qatar"]),
        ("伊拉克", vec!["iraq"]),
        ("南非", vec!["south africa"]),
        ("沙特", vec!["saudi arabia"]),
        ("约旦", vec!["jordan"]),
        ("波黑", vec!["bosnia and herzegovina", "bosnia"]),
        ("佛得角", vec!["cape verde"]),
        ("新西兰", vec!["new zealand"]),
    ];
    assert(table_view(r@) =~~= canonical_table());
    r
}

fn alias_entries() -> (r: Vec<(&'static str, Vec<&'static str>)>)
    ensures
        table_view(r@) == alias_table(),
{
    let r = vec![
        ("法国", vec!["france"]),
        ("西班牙", vec!["spain"]),
        ("阿根廷", vec!["argentina"]),
        ("英格兰", vec!["england"]),
        ("葡萄牙", vec!["portugal"]),
        ("巴西", vec!["brazil"]),
        ("荷兰", vec!["netherlands", "holland"]),
        ("摩洛哥", vec!["morocco"]),
        ("比利时", vec!["belgium"]),
        ("德国", vec!["germany"]),
        ("克罗地亚", vec!["croatia"]),
        ("哥伦比亚", vec!["colombia"]),
        ("塞内加尔", vec!["senegal"]),
        ("墨西哥", vec!["mexico"]),
        ("美国", vec!["usa", "united states", "united states of america"]),
        ("乌拉圭", vec!["uruguay"]),
        ("日本", vec!["japan"]),
        ("瑞士", vec!["switzerland"]),
        ("伊朗", vec!["iran"]),
        ("土耳其", vec!["turkey", "turkiye"]),
        ("厄瓜多尔", vec!["ecuador"]),
        ("奥地利", vec!["austria"]),
        ("韩国", vec!["south korea", "korea republic", "republic of korea"]),
        ("澳大利亚", vec!["australia"]),
        ("阿尔及利亚", vec!["algeria"]),
        ("埃及", vec!["egypt"]),
        ("加拿大", vec!["canada"]),
        ("挪威", vec!["norway"]),
        ("巴拿马", vec!["panama"]),
        ("科特迪瓦", vec!["ivory coast", "cote d ivoire", "cote d'ivoire"]),
        ("瑞典", vec!["sweden"]),
        ("巴拉圭", vec!["paraguay"]),
        ("捷克", vec!["czech republic", "czechia"]),
        ("苏格兰", vec!["scotland"]),
        ("突尼斯", vec!["tunisia"]),
        ("民主刚果", vec!["dr congo", "congo dr", "democratic republic of congo"]),
        ("乌兹别克斯坦", vec!["uzbekistan"]),
        ("卡塔尔", vec!["qatar"]),
        ("伊拉克", vec!["iraq"]),
        ("南非", vec!["south africa"]),
        ("沙特", vec!["saudi arabia"]),
        ("波黑", vec!["bosnia and herzegovina", "bosnia"]),
        ("新西兰", vec!["new zealand"]),
    ];
    assert(table_view(r@) =~~= alias_table());
    r
}

fn rank_entries() -> (r: Vec<(&'static str, i32)>)
    ensures
        rank_view(r@) == rank_table(),
{
    let r = vec![
        ("法国", 1),
        ("西班牙", 2),
        ("阿根廷", 3),
        ("英格兰", 4),
        ("葡萄牙", 5),
        ("巴西", 6),
        ("荷兰", 7),
        ("摩洛哥", 8),
        ("比利时", 9),
        ("德国", 10),
        ("克罗地亚", 11),
        ("哥伦比亚", 13),
        ("塞内加尔", 14),
        ("墨西哥", 15),
        ("美国", 16),
        ("乌拉圭", 17),
        ("日本", 18),
        ("瑞士", 19),
        ("伊朗", 21),
        ("土耳其", 22),
        ("厄瓜多尔", 23),
        ("奥地利", 24),
        ("韩国", 25),
        ("澳大利亚", 27),
        ("阿尔及利亚", 28),
        ("埃及", 29),
        ("加拿大", 30),
        ("挪威", 31),
        ("巴拿马", 33),
        ("科特迪瓦", 34),
        ("瑞典", 38),
        ("巴拉圭", 40),
        ("捷克", 41),
        ("苏格兰", 43),
        ("突尼斯", 44),
        ("民主刚果", 46),
        ("乌兹别克斯坦", 50),
        ("卡塔尔", 55),
        ("伊拉克", 57),
        ("南非", 60),
        ("沙特", 61),
        ("约旦", 63),
        ("波黑", 65),
        ("佛得角", 69),
        ("加纳", 74),
        ("库拉索", 82),
        ("海地", 83),
        ("新西兰", 85),
    ];
    assert(rank_view(r@) =~~= rank_table());
    r
}

/// The views of a list of borrowed names.
pub open spec fn name_views(v: Seq<&str>) -> Seq<Seq<char>> {
    v.map_values(|a: &str| a@)
}

/// Some alias, normalised, occurs in the normalised name `n`.
pub open spec fn alias_hit(n: Seq<char>, aliases: Seq<Seq<char>>) -> bool {
    exists|j: int| 0 <= j < aliases.len() && contains(n, #[trigger] normalize_spec(aliases[j]))
}

/// An entry of the canonical table matches the normalised name `n`: one of
/// its aliases or its Chinese name occurs in `n`.
pub open spec fn canonical_entry_hit(n: Seq<char>, e: (Seq<char>, Seq<Seq<char>>)) -> bool {
    alias_hit(n, e.1) || contains(n, normalize_spec(e.0))
}

/// The Chinese name of the first entry of `t` that matches `n`.
pub open spec fn canonical_lookup(t: Seq<(Seq<char>, Seq<Seq<char>>)>, n: Seq<char>) -> Option<
    Seq<char>,
>
    decreases t.len(),
{
    if t.len() == 0 {
        None
    } else if canonical_entry_hit(n, t[0]) {
        Some(t[0].0)
    } else {
        canonical_lookup(t.drop_first(), n)
    }
}

/// `canonical_team_name`: the Chinese name of the first table entry that the
/// normalised name matches, else the trimmed name.
pub open spec fn canonical_name(name: Seq<char>) -> Seq<char> {
    match canonical_lookup(canonical_table(), normalize_spec(name)) {
        Some(cn) => cn,
        None => trim(name),
    }
}

fn any_alias_in(n: &Vec<char>, aliases: &Vec<&str>) -> (b: bool)
    ensures
        b == alias_hit(n@, name_views(aliases@)),
{
    let mut j: usize = 0;
    while j < aliases.len()
        invariant
            j <= aliases.len(),
            forall|k: int|
                0 <= k < j ==> !contains(n@, #[trigger] normalize_spec(name_views(aliases@)[k])),
        decreases aliases.len() - j,
    {
        let a = normalize_vec(aliases[j]);
        if contains_vec(n, &a) {
            assert(contains(n@, normalize_spec(name_views(aliases@)[j as int])));
            return true;
        }
        j = j + 1;
    }
    false
}

/// Maps a team name in English or Chinese to its Chinese name; names that no
/// table entry matches are returned trimmed.
pub fn canonical_team_name(name: &str) -> (r: String)
    ensures
        r@ == canonical_name(name@),
{
    let n = normalize_vec(name);
    let table = canonical_entries();
    let mut i: usize = 0;
    assert(table_view(table@).skip(0) =~= table_view(table@));
    while i < table.len()
        invariant
            i <= table.len(),
            table_view(table@) == canonical_table(),
            n@ == normalize_spec(name@),
            canonical_lookup(canonical_table(), n@) == canonical_lookup(
                table_view(table@).skip(i as int),
                n@,
            ),
        decreases table.len() - i,
    {
        let ghost t = table_view(table@).skip(i as int);
        assert(t[0] == table_view(table@)[i as int]);
        assert(t.drop_first() =~= table_view(table@).skip(i + 1));
        let hit_alias = any_alias_in(&n, &table[i].1);
        let cn = normalize_vec(table[i].0);
        if hit_alias || contains_vec(&n, &cn) {
            return owned(table[i].0);
        }
        i = i + 1;
    }
    let v = chars_of(name);
    let t = trim_vec(&v);
    string_of(&t)
}

/// A team name without a parenthesised suffix: full-width brackets made
/// ASCII, cut at the first `(`, trimmed.
pub open spec fn bare_team_name(team: Seq<char>) -> Seq<char> {
    let clean = replace(replace(team, "（"@, "("@), "）"@, ")"@);
    trim(split(clean, seq!['('])[0])
}

fn bare_team_name_vec(team: &str) -> (r: Vec<char>)
    ensures
        r@ == bare_team_name(team@),
{
    let v = chars_of(team);
    let c1 = replace_str(&v, "（", "(");
    let clean = replace_str(&c1, "）", ")");
    let sep = vec!['('];
    assert(sep@ =~= seq!['(']);
    let parts = split_vec(&clean, &sep);
    proof {
        lemma_split_nonempty(clean@, sep@);
        assert(views(parts@)[0] == parts@[0]@);
    }
    trim_vec(&parts[0])
}

/// The rank of the first table entry whose name contains `name` or is
/// contained in it.
pub open spec fn rank_lookup(t: Seq<(Seq<char>, i32)>, name: Seq<char>) -> Option<i32>
    decreases t.len(),
{
    if t.len() == 0 {
        None
    } else if contains(name, t[0].0) || contains(t[0].0, name) {
        Some(t[0].1)
    } else {
        rank_lookup(t.drop_first(), name)
    }
}

/// `team_rank`: the ranking of a team by its bare name.
pub open spec fn team_rank_spec(team: Seq<char>) -> Option<i32> {
    rank_lookup(rank_table(), bare_team_name(team))
}

/// The FIFA ranking of a team, looked up by its Chinese name.
pub fn team_rank(team: &str) -> (r: Option<i32>)
    ensures
        r == team_rank_spec(team@),
        r matches Some(k) ==> 1 <= k <= 100,
{
    let name = bare_team_name_vec(team);
    let table = rank_entries();
    let mut i: usize = 0;
    assert(rank_view(table@).skip(0) =~= rank_view(table@));
    while i < table.len()
        invariant
            i <= table.len(),
            rank_view(table@) == rank_table(),
            name@ == bare_team_name(team@),
            forall|k: int| 0 <= k < table.len() ==> 1 <= #[trigger] table@[k].1 <= 100,
            rank_lookup(rank_table(), name@) == rank_lookup(rank_view(table@).skip(i as int), name@),
        decreases table.len() - i,
    {
        let ghost t = rank_view(table@).skip(i as int);
        assert(t[0] == rank_view(table@)[i as int]);
        assert(t.drop_first() =~= rank_view(table@).skip(i + 1));
        let cand = chars_of(table[i].0);
        if contains_vec(&name, &cand) || contains_vec(&cand, &name) {
            return Some(table[i].1);
        }
        i = i + 1;
    }
    None
}

/// `ranked_team_label`: the bare name followed by `（第N）` when ranked.
pub open spec fn ranked_label(team: Seq<char>) -> Seq<char> {
    match team_rank_spec(team) {
        Some(k) => bare_team_name(team) + "（第"@ + decimal(k as nat) + "）"@,
        None => bare_team_name(team),
    }
}

/// The bare team name with its ranking, e.g. `巴西（第6）`.
pub fn ranked_team_label(team: &str) -> (r: String)
    ensures
        r@ == ranked_label(team@),
{
    let mut name = bare_team_name_vec(team);
    match team_rank(team) {
        Some(k) => {
            let open = chars_of("（第");
            push_all(&mut name, &open);
            let d = decimal_vec(k as u64);
            push_all(&mut name, &d);
            let close = chars_of("）");
            push_all(&mut name, &close);
            string_of(&name)
        },
        None => string_of(&name),
    }
}

/// `normalize_cn_name`: feed markup (`class="team1"`, `team1`, …) removed, cut
/// at the first bracket, trimmed.
pub open spec fn normalize_cn(value: Seq<char>) -> Seq<char> {
    let r = replace(
        replace(
            replace(
                replace(replace(value, "class=\"team1\""@, ""@), "class=\"team2\""@, ""@),
                "team1"@,
                ""@,
            ),
            "team2"@,
            ""@,
        ),
        "（"@,
        "("@,
    );
    trim(split(r, seq!['('])[0])
}

/// Strips result-feed markup and bracketed suffixes from a team name.
pub fn normalize_cn_name(value: &str) -> (r: String)
    ensures
        r@ == normalize_cn(value@),
{
    let v = normalize_cn_vec(value);
    string_of(&v)
}

fn normalize_cn_vec(value: &str) -> (r: Vec<char>)
    ensures
        r@ == normalize_cn(value@),
{
    let v = chars_of(value);
    let a = replace_str(&v, "class=\"team1\"", "");
    let b = replace_str(&a, "class=\"team2\"", "");
    let c = replace_str(&b, "team1", "");
    let d = replace_str(&c, "team2", "");
    let e = replace_str(&d, "（", "(");
    let sep = vec!['('];
    assert(sep@ =~= seq!['(']);
    let parts = split_vec(&e, &sep);
    proof {
        lemma_split_nonempty(e@, sep@);
        assert(views(parts@)[0] == parts@[0]@);
    }
    trim_vec(&parts[0])
}

/// The aliases of the first alias-table entry whose Chinese name contains
/// the normalised team name or is contained in it.
pub open spec fn alias_lookup(t: Seq<(Seq<char>, Seq<Seq<char>>)>, n: Seq<char>) -> Seq<Seq<char>>
    decreases t.len(),
{
    if t.len() == 0 {
        Seq::empty()
    } else if contains(n, t[0].0) || contains(t[0].0, n) {
        t[0].1
    } else {
        alias_lookup(t.drop_first(), n)
    }
}

/// `team_aliases`: the English aliases of a Chinese team name.
pub open spec fn team_aliases_spec(team: Seq<char>) -> Seq<Seq<char>> {
    alias_lookup(alias_table(), normalize_cn(team))
}

/// The English names under which a Chinese team name appears in the feeds.
pub fn team_aliases(team: &str) -> (r: Vec<&'static str>)
    ensures
        name_views(r@) == team_aliases_spec(team@),
{
    let n = normalize_cn_vec(team);
    let table = alias_entries();
    let mut i: usize = 0;
    assert(table_view(table@).skip(0) =~= table_view(table@));
    while i < table.len()
        invariant
            i <= table.len(),
            table_view(table@) == alias_table(),
            n@ == normalize_cn(team@),
            alias_lookup(alias_table(), n@) == alias_lookup(table_view(table@).skip(i as int), n@),
        decreases table.len() - i,
    {
        let ghost t = table_view(table@).skip(i as int);
        assert(t[0] == table_view(table@)[i as int]);
        assert(t.drop_first() =~= table_view(table@).skip(i + 1));
        let cn = chars_of(table[i].0);
        if contains_vec(&n, &cn) || contains_vec(&cn, &n) {
            let r = table[i].1.clone();
            assert(name_views(r@) =~= name_views(table@[i as int].1@));
            return r;
        }
        i = i + 1;
    }
    let r: Vec<&'static str> = Vec::new();
    assert(name_views(r@) =~= Seq::<Seq<char>>::empty());
    r
}

/// `team_matches`: the normalised names contain one another, or the
/// candidate and a normalised alias of the team contain one another.
pub open spec fn team_matches_spec(candidate: Seq<char>, team: Seq<char>) -> bool {
    let c = normalize_spec(candidate);
    let t = normalize_spec(team);
    let al = team_aliases_spec(team);
    ||| contains(c, t)
    ||| contains(t, c)
    ||| exists|j: int|
        0 <= j < al.len() && (contains(c, #[trigger] normalize_spec(al[j])) || contains(
            normalize_spec(al[j]),
            c,
        ))
}

/// Whether a name from a feed refers to the given team.
pub fn team_matches(candidate: &str, team: &str) -> (r: bool)
    ensures
        r == team_matches_spec(candidate@, team@),
{
    let c = normalize_vec(candidate);
    let t = normalize_vec(team);
    if contains_vec(&c, &t) || contains_vec(&t, &c) {
        return true;
    }
    let al = team_aliases(team);
    let mut j: usize = 0;
    while j < al.len()
        invariant
            j <= al.len(),
            name_views(al@) == team_aliases_spec(team@),
            c@ == normalize_spec(candidate@),
            forall|k: int|
                0 <= k < j ==> !(contains(c@, #[trigger] normalize_spec(name_views(al@)[k]))
                    || contains(normalize_spec(name_views(al@)[k]), c@)),
        decreases al.len() - j,
    {
        let a = normalize_vec(al[j]);
        if contains_vec(&c, &a) || contains_vec(&a, &c) {
            assert(normalize_spec(name_views(al@)[j as int]) == a@);
            return true;
        }
        j = j + 1;
    }
    false
}

/// `result_matches_prediction`: the label splits on ` vs ` into exactly two
/// teams, matched by the result's home and away names.
pub open spec fn result_matches_label(home: Seq<char>, away: Seq<char>, label: Seq<char>) -> bool {
    let parts = split(label, " vs "@);
    parts.len() == 2 && team_matches_spec(home, parts[0]) && team_matches_spec(away, parts[1])
}

/// Whether a final result belongs to a prediction labelled `home vs away`.
pub fn result_matches_prediction(result: &MatchResult, match_label: &str) -> (r: bool)
    ensures
        r == result_matches_label(result.home@, result.away@, match_label@),
{
    let parts = split_label(match_label);
    if parts.len() != 2 {
        return false;
    }
    let home = string_of(&parts[0]);
    let away = string_of(&parts[1]);
    team_matches(result.home.as_str(), home.as_str()) && team_matches(
        result.away.as_str(),
        away.as_str(),
    )
}

/// The pieces of a match label split on ` vs `.
fn split_label(label: &str) -> (r: Vec<Vec<char>>)
    ensures
        views(r@) == split(label@, " vs "@),
        r@.len() >= 1,
{
    let v = chars_of(label);
    let sep = chars_of(" vs ");
    proof {
        reveal_strlit(" vs ");
    }
    let r = split_vec(&v, &sep);
    proof {
        lemma_split_nonempty(v@, sep@);
    }
    r
}

/// `match_labels_refer_to_same_match`: both labels split into two teams and
/// the teams match side by side.
pub open spec fn same_match_labels(candidate: Seq<char>, target: Seq<char>) -> bool {
    let c = split(candidate, " vs "@);
    let t = split(target, " vs "@);
    c.len() == 2 && t.len() == 2 && team_matches_spec(c[0], t[0]) && team_matches_spec(c[1], t[1])
}

/// Whether two `home vs away` labels name the same fixture.
pub fn match_labels_refer_to_same_match(candidate: &str, target: &str) -> (r: bool)
    ensures
        r == same_match_labels(candidate@, target@),
{
    let c = split_label(candidate);
    let t = split_label(target);
    if c.len() != 2 || t.len() != 2 {
        return false;
    }
    let c0 = string_of(&c[0]);
    let c1 = string_of(&c[1]);
    let t0 = string_of(&t[0]);
    let t1 = string_of(&t[1]);
    team_matches(c0.as_str(), t0.as_str()) && team_matches(c1.as_str(), t1.as_str())
}

} // verus!
