//! Final results: the HTML results table of the results site, the results
//! CSV import, and the order in which the results centre lists them.
use vstd::prelude::*;
use vstd::string::StrSliceExecFns;
use crate::settlement::{parse_score, score_parse, MatchResult};
use crate::text::{
    ascii_lower, ascii_lower_vec, chars_of, contains, contains_str, eq_vec, find, find_from,
    lemma_find_occurs, occurs_at, owned, push_char, replace, replace_str, squeeze, squeeze_vec,
    string_of, string_views, trim, trim_vec,
};

verus! {

/// The fields of a result, in the order home, away, score, half-time score,
/// stage, status.
pub type ResultFields = (Seq<char>, Seq<char>, Seq<char>, Seq<char>, Seq<char>, Seq<char>);

impl View for MatchResult {
    type V = ResultFields;

    open spec fn view(&self) -> ResultFields {
        (self.home@, self.away@, self.score@, self.half_score@, self.stage@, self.status@)
    }
}

/// The views of a list of results.
pub open spec fn result_views(v: Seq<MatchResult>) -> Seq<ResultFields> {
    v.map_values(|r: MatchResult| r@)
}

// ---------------------------------------------------------------------------
// HTML
// ---------------------------------------------------------------------------

/// The text outside tags, each tag boundary `<` or `>` turned into a space.
pub open spec fn detag(s: Seq<char>, in_tag: bool) -> Seq<char>
    decreases s.len(),
{
    if s.len() == 0 {
        Seq::empty()
    } else if s[0] == '<' {
        seq![' '] + detag(s.drop_first(), true)
    } else if s[0] == '>' {
        seq![' '] + detag(s.drop_first(), false)
    } else if !in_tag {
        seq![s[0]] + detag(s.drop_first(), in_tag)
    } else {
        detag(s.drop_first(), in_tag)
    }
}

/// `strip_tags`: tags dropped, `&nbsp;` and `&amp;` decoded, white space
/// collapsed to single spaces.
pub open spec fn strip_tags_spec(s: Seq<char>) -> Seq<char> {
    squeeze(replace(replace(detag(s, false), "&nbsp;"@, " "@), "&amp;"@, "&"@))
}

fn strip_tags_vec(input: &Vec<char>) -> (r: Vec<char>)
    ensures
        r@ == strip_tags_spec(input@),
{
    let mut out: Vec<char> = Vec::new();
    let mut in_tag = false;
    let mut i: usize = 0;
    assert(input@.skip(0) =~= input@);
    assert(out@ + detag(input@, false) =~= detag(input@, false));
    while i < input.len()
        invariant
            i <= input.len(),
            detag(input@, false) == out@ + detag(input@.skip(i as int), in_tag),
        decreases input.len() - i,
    {
        let ghost rest = input@.skip(i as int);
        assert(rest.drop_first() =~= input@.skip(i + 1));
        let ch = input[i];
        if ch == '<' {
            in_tag = true;
            out.push(' ');
        } else if ch == '>' {
            in_tag = false;
            out.push(' ');
        } else if !in_tag {
            out.push(ch);
        }
        i = i + 1;
    }
    assert(input@.skip(i as int) =~= Seq::<char>::empty());
    assert(out@ + Seq::<char>::empty() =~= out@);
    let a = replace_str(&out, "&nbsp;", " ");
    let b = replace_str(&a, "&amp;", "&");
    squeeze_vec(&b)
}

/// Plain text of an HTML fragment: tags removed, `&nbsp;` and `&amp;`
/// decoded, white space collapsed.
pub fn strip_tags(input: &str) -> (r: String)
    ensures
        r@ == strip_tags_spec(input@),
{
    let v = chars_of(input);
    let r = strip_tags_vec(&v);
    string_of(&r)
}

/// `between_all`: the texts between each `a` and the next `b`, scanning from
/// the left; stops at the first `a` without a following `b`.
pub open spec fn between(s: Seq<char>, a: Seq<char>, b: Seq<char>) -> Seq<Seq<char>>
    decreases s.len(),
{
    if a.len() + b.len() == 0 {
        Seq::empty()
    } else {
        match find(s, a) {
            None => Seq::empty(),
            Some(i) => {
                let after = s.skip(i + a.len());
                match find(after, b) {
                    None => Seq::empty(),
                    Some(j) => {
                        proof {
                            lemma_find_occurs(s, a);
                            lemma_find_occurs(after, b);
                        }
                        seq![after.take(j)] + between(after.skip(j + b.len()), a, b)
                    },
                }
            },
        }
    }
}

/// The views of a list of borrowed strings.
pub open spec fn str_views(v: Seq<&str>) -> Seq<Seq<char>> {
    v.map_values(|x: &str| x@)
}

/// Every text that lies between an occurrence of `start` and the next
/// occurrence of `end`.
pub fn between_all<'a>(text: &'a str, start: &str, end: &str) -> (r: Vec<&'a str>)
    requires
        start@.len() + end@.len() > 0,
    ensures
        str_views(r@) == between(text@, start@, end@),
{
    let s = chars_of(text);
    let a = chars_of(start);
    let b = chars_of(end);
    between_vec(text, &s, &a, &b)
}

fn between_vec<'a>(text: &'a str, s: &Vec<char>, a: &Vec<char>, b: &Vec<char>) -> (r: Vec<&'a str>)
    requires
        s@ == text@,
        a.len() + b.len() > 0,
    ensures
        str_views(r@) == between(s@, a@, b@),
{
    let mut rows: Vec<&'a str> = Vec::new();
    let mut pos: usize = 0;
    assert(s@.skip(0) =~= s@);
    assert(str_views(rows@) + between(s@, a@, b@) =~= between(s@, a@, b@));
    while pos <= s.len()
        invariant
            pos <= s.len() + 1,
            a.len() + b.len() > 0,
            s@ == text@,
            pos <= s.len() ==> between(s@, a@, b@) == str_views(rows@) + between(
                s@.skip(pos as int),
                a@,
                b@,
            ),
            pos > s.len() ==> between(s@, a@, b@) == str_views(rows@),
        decreases s.len() + 1 - pos,
    {
        let ghost rest = s@.skip(pos as int);
        let si = match find_from(s, a, pos) {
            Some(i) => i,
            None => {
                return rows;
            },
        };
        proof {
            lemma_find_occurs(rest, a@);
        }
        let body = si + a.len();
        assert(rest.skip((si - pos) + a.len()) =~= s@.skip(body as int));
        let ei = match find_from(s, b, body) {
            Some(j) => j,
            None => {
                return rows;
            },
        };
        proof {
            lemma_find_occurs(s@.skip(body as int), b@);
        }
        let piece = text.substring_char(body, ei);
        let ghost old_rows = rows@;
        rows.push(piece);
        proof {
            let after = s@.skip(body as int);
            assert(after.take(ei - body) =~= s@.subrange(body as int, ei as int));
            assert(after.skip((ei - body) + b.len()) =~= s@.skip(ei + b.len()));
            assert(str_views(rows@) =~= str_views(old_rows) + seq![piece@]);
        }
        let next = ei + b.len();
        if next == s.len() {
            proof {
                assert(s@.skip(next as int) =~= Seq::<char>::empty());
            }
        }
        pos = next;
    }
    rows
}

/// The result that one table row of the results site describes: a row with
/// `team1` and `team2` markers and at least six cells; cells 1..6 hold stage,
/// status, home, score, away and (when present) the half-time score, as
/// plain text; the home and away names are non-empty and the score parses.
pub open spec fn zgzcw_row(row: Seq<char>) -> Option<ResultFields> {
    if !(contains(row, "team1"@) && contains(row, "team2"@)) {
        None
    } else {
        let cells = between(row, "<td"@, "</td>"@);
        if cells.len() < 6 {
            None
        } else {
            let plain = cells.map_values(|c: Seq<char>| strip_tags_spec(c));
            let half = if plain.len() > 6 {
                plain[6]
            } else {
                Seq::<char>::empty()
            };
            if plain[3].len() == 0 || plain[5].len() == 0 || score_parse(plain[4]) is None {
                None
            } else {
                Some((plain[3], plain[5], plain[4], half, plain[1], plain[2]))
            }
        }
    }
}

/// The results that a sequence of table rows describe, in row order.
pub open spec fn zgzcw_rows(rows: Seq<Seq<char>>) -> Seq<ResultFields>
    decreases rows.len(),
{
    if rows.len() == 0 {
        Seq::empty()
    } else {
        let prev = zgzcw_rows(rows.drop_last());
        match zgzcw_row(rows.last()) {
            Some(r) => prev.push(r),
            None => prev,
        }
    }
}

/// `parse_zgzcw_results`: the results of the `<tr>` rows of the page.
pub open spec fn zgzcw_results(html: Seq<char>) -> Seq<ResultFields> {
    zgzcw_rows(between(html, "<tr>"@, "</tr>"@))
}

fn zgzcw_row_exec(row: &str) -> (r: Option<MatchResult>)
    ensures
        match zgzcw_row(row@) {
            Some(f) => r matches Some(m) && m@ == f,
            None => r is None,
        },
{
    let rv = chars_of(row);
    if !(contains_str(&rv, "team1") && contains_str(&rv, "team2")) {
        return None;
    }
    proof {
        reveal_strlit("<td");
    }
    let cells = between_all(row, "<td", "</td>");
    if cells.len() < 6 {
        return None;
    }
    let mut plain: Vec<String> = Vec::new();
    let mut k: usize = 0;
    while k < cells.len()
        invariant
            k <= cells.len(),
            plain@.len() == k,
            forall|j: int| 0 <= j < k ==> #[trigger] plain@[j]@ == strip_tags_spec(cells@[j]@),
        decreases cells.len() - k,
    {
        plain.push(strip_tags(cells[k]));
        k = k + 1;
    }
    let ghost pl = str_views(cells@).map_values(|c: Seq<char>| strip_tags_spec(c));
    assert(forall|j: int| 0 <= j < cells@.len() ==> #[trigger] pl[j] == plain@[j]@);
    let stage = plain[1].clone();
    let status = plain[2].clone();
    let home = plain[3].clone();
    let score = plain[4].clone();
    let away = plain[5].clone();
    let half_score = if plain.len() > 6 {
        plain[6].clone()
    } else {
        String::new()
    };
    if home.as_str().unicode_len() == 0 || away.as_str().unicode_len() == 0 || parse_score(
        score.as_str(),
    ).is_none() {
        return None;
    }
    Some(MatchResult { home, away, score, half_score, stage, status })
}

/// Reads the results table of the results site: one result per `<tr>` row
/// that names both teams and holds a readable score.
pub fn parse_zgzcw_results(html: &str) -> (r: Vec<MatchResult>)
    ensures
        result_views(r@) == zgzcw_results(html@),
{
    proof {
        reveal_strlit("<tr>");
    }
    let rows = between_all(html, "<tr>", "</tr>");
    let mut results: Vec<MatchResult> = Vec::new();
    let mut i: usize = 0;
    assert(str_views(rows@).take(0) =~= Seq::<Seq<char>>::empty());
    while i < rows.len()
        invariant
            i <= rows.len(),
            result_views(results@) == zgzcw_rows(str_views(rows@).take(i as int)),
        decreases rows.len() - i,
    {
        let ghost rv = str_views(rows@);
        assert(rv.take(i + 1).drop_last() =~= rv.take(i as int));
        assert(rv.take(i + 1).last() == rows@[i as int]@);
        let ghost old = results@;
        match zgzcw_row_exec(rows[i]) {
            Some(m) => {
                results.push(m);
                assert(result_views(results@) =~= result_views(old).push(m@));
            },
            None => {},
        }
        i = i + 1;
    }
    assert(str_views(rows@).take(rows.len() as int) =~= str_views(rows@));
    results
}

/// The results centre lists the newest rows of the source first: the rows in
/// reverse order.
pub fn results_latest_first(results: Vec<MatchResult>) -> (r: Vec<MatchResult>)
    ensures
        r@ == results@.reverse(),
{
    let mut out: Vec<MatchResult> = Vec::new();
    let mut src = results;
    let ghost orig = src@;
    while src.len() > 0
        invariant
            orig.len() == out@.len() + src@.len(),
            src@ == orig.take(src@.len() as int),
            out@ == orig.skip(src@.len() as int).reverse(),
        decreases src.len(),
    {
        let ghost n = src@.len();
        let item = src.pop().unwrap();
        out.push(item);
        assert(orig.skip(n - 1).reverse() =~= orig.skip(n as int).reverse().push(orig[n - 1]));
    }
    assert(orig.skip(0) =~= orig);
    out
}

// ---------------------------------------------------------------------------
// CSV import
// ---------------------------------------------------------------------------

/// The error type of the `csv` crate.
#[verifier::external_type_specification]
#[verifier::external_body]
pub struct ExCsvError(csv::Error);

/// What the `csv` crate reads as the header row of a text, with flexible
/// record lengths and every field trimmed; `None` when it reports an error.
pub uninterp spec fn csv_header_row(text: Seq<char>) -> Option<Seq<Seq<char>>>;

/// What the `csv` crate reads as the data records of a text (the rows after
/// the header), configured as for `csv_header_row`; `None` when it reports an
/// error on some row.
pub uninterp spec fn csv_data_rows(text: Seq<char>) -> Option<Seq<Seq<Seq<char>>>>;

/// The views of a list of string lists.
pub open spec fn record_views(v: Seq<Vec<String>>) -> Seq<Seq<Seq<char>>> {
    v.map_values(|x: Vec<String>| string_views(x@))
}

/// `csv::ReaderBuilder` (flexible, `Trim::All`) and `Reader::headers`: the
/// header row; its fields are named by `csv_header_row`.
#[verifier::external_body]
fn read_csv_headers(text: &str) -> (r: Result<Vec<String>, csv::Error>)
    ensures
        match csv_header_row(text@) {
            Some(h) => r matches Ok(v) && string_views(v@) == h,
            None => r is Err,
        },
{
    let mut reader = csv::ReaderBuilder::new().flexible(true).trim(csv::Trim::All).from_reader(
        text.as_bytes(),
    );
    reader.headers().map(|h| h.iter().map(|f| f.to_string()).collect())
}

/// `csv::ReaderBuilder` (flexible, `Trim::All`) and `Reader::records`: the
/// data records, or the first error; the records are named by
/// `csv_data_rows`.
#[verifier::external_body]
fn read_csv_records(text: &str) -> (r: Result<Vec<Vec<String>>, csv::Error>)
    ensures
        match csv_data_rows(text@) {
            Some(rows) => r matches Ok(v) && record_views(v@) == rows,
            None => r is Err,
        },
{
    let mut reader = csv::ReaderBuilder::new().flexible(true).trim(csv::Trim::All).from_reader(
        text.as_bytes(),
    );
    reader.records().map(|rec| rec.map(|r| r.iter().map(|f| f.to_string()).collect())).collect()
}

/// Why a results CSV was refused.
pub enum ResultsCsvError {
    /// The `csv` crate could not read the text.
    Csv(csv::Error),
    /// No `home`/`主队` column.
    MissingHome,
    /// No `away`/`客队` column.
    MissingAway,
    /// No `score`/`比分` column.
    MissingScore,
}

impl ResultsCsvError {
    /// The message the import reports for a missing column, `None` for a CSV
    /// reading error.
    pub fn missing_column_message(&self) -> (r: Option<&'static str>)
        ensures
            self is Csv <==> r is None,
            self is MissingHome ==> (r matches Some(m) && m@ == "CSV缺少 home/主队 列"@),
            self is MissingAway ==> (r matches Some(m) && m@ == "CSV缺少 away/客队 列"@),
            self is MissingScore ==> (r matches Some(m) && m@ == "CSV缺少 score/比分 列"@),
    {
        match self {
            ResultsCsvError::Csv(_) => None,
            ResultsCsvError::MissingHome => Some("CSV缺少 home/主队 列"),
            ResultsCsvError::MissingAway => Some("CSV缺少 away/客队 列"),
            ResultsCsvError::MissingScore => Some("CSV缺少 score/比分 列"),
        }
    }
}

/// The first header that equals `name` ignoring ASCII case.
pub open spec fn header_pos(headers: Seq<Seq<char>>, name: Seq<char>) -> Option<int>
    decreases headers.len(),
{
    if headers.len() == 0 {
        None
    } else if ascii_lower(headers[0]) == ascii_lower(name) {
        Some(0)
    } else {
        match header_pos(headers.drop_first(), name) {
            Some(i) => Some(i + 1),
            None => None,
        }
    }
}

/// The column of the first name (in order) that some header carries.
pub open spec fn column_of(headers: Seq<Seq<char>>, names: Seq<Seq<char>>) -> Option<int>
    decreases names.len(),
{
    if names.len() == 0 {
        None
    } else {
        match header_pos(headers, names[0]) {
            Some(i) => Some(i),
            None => column_of(headers, names.drop_first()),
        }
    }
}

/// A field of a record, `None` past its end.
pub open spec fn field(rec: Seq<Seq<char>>, idx: Option<int>) -> Option<Seq<char>> {
    match idx {
        Some(i) => if 0 <= i < rec.len() {
            Some(rec[i])
        } else {
            None
        },
        None => None,
    }
}

/// A field with a default.
pub open spec fn field_or(rec: Seq<Seq<char>>, idx: Option<int>, default: Seq<char>) -> Seq<char> {
    match field(rec, idx) {
        Some(f) => f,
        None => default,
    }
}

/// The column names of a results CSV, in lookup order.
pub open spec fn home_names() -> Seq<Seq<char>> {
    seq!["home"@, "主队"@]
}

pub open spec fn away_names() -> Seq<Seq<char>> {
    seq!["away"@, "客队"@]
}

pub open spec fn score_names() -> Seq<Seq<char>> {
    seq!["score"@, "比分"@]
}

pub open spec fn stage_names() -> Seq<Seq<char>> {
    seq!["stage"@, "阶段"@]
}

pub open spec fn status_names() -> Seq<Seq<char>> {
    seq!["status"@, "状态"@]
}

pub open spec fn half_names() -> Seq<Seq<char>> {
    seq!["half_score"@, "half"@, "半场"@]
}

/// The result one CSV record gives: home, away and score trimmed and
/// required (the score must parse); a missing half-time score is empty, a
/// missing stage `历史样本`, a missing status `完场`.
pub open spec fn csv_record_result(rec: Seq<Seq<char>>, headers: Seq<Seq<char>>) -> Option<
    ResultFields,
> {
    let home = trim(field_or(rec, column_of(headers, home_names()), ""@));
    let away = trim(field_or(rec, column_of(headers, away_names()), ""@));
    let score = trim(field_or(rec, column_of(headers, score_names()), ""@));
    if home.len() == 0 || away.len() == 0 || score_parse(score) is None {
        None
    } else {
        Some(
            (
                home,
                away,
                score,
                field_or(rec, column_of(headers, half_names()), ""@),
                field_or(rec, column_of(headers, stage_names()), "历史样本"@),
                field_or(rec, column_of(headers, status_names()), "完场"@),
            ),
        )
    }
}

/// The results of a list of records, in order, invalid records skipped.
pub open spec fn csv_results(records: Seq<Seq<Seq<char>>>, headers: Seq<Seq<char>>) -> Seq<
    ResultFields,
>
    decreases records.len(),
{
    if records.len() == 0 {
        Seq::empty()
    } else {
        let prev = csv_results(records.drop_last(), headers);
        match csv_record_result(records.last(), headers) {
            Some(r) => prev.push(r),
            None => prev,
        }
    }
}

/// Whether the header text equals a column name ignoring ASCII case.
fn header_is(header: &String, name: &str) -> (b: bool)
    ensures
        b == (ascii_lower(header@) == ascii_lower(name@)),
{
    let h = chars_of(header.as_str());
    let n = chars_of(name);
    let hl = ascii_lower_vec(&h);
    let nl = ascii_lower_vec(&n);
    eq_vec(&hl, &nl)
}

fn header_pos_exec(headers: &Vec<String>, name: &str) -> (r: Option<usize>)
    ensures
        opt_int(r) == header_pos(string_views(headers@), name@),
{
    let mut i: usize = 0;
    assert(string_views(headers@).skip(0) =~= string_views(headers@));
    while i < headers.len()
        invariant
            i <= headers.len(),
            header_pos(string_views(headers@), name@) == match header_pos(
                string_views(headers@).skip(i as int),
                name@,
            ) {
                Some(k) => Some(k + i),
                None => None,
            },
        decreases headers.len() - i,
    {
        let ghost rest = string_views(headers@).skip(i as int);
        assert(rest[0] == headers@[i as int]@);
        assert(rest.drop_first() =~= string_views(headers@).skip(i + 1));
        if header_is(&headers[i], name) {
            return Some(i);
        }
        i = i + 1;
    }
    None
}

fn column_of_exec(headers: &Vec<String>, names: &Vec<&str>) -> (r: Option<usize>)
    ensures
        opt_int(r) == column_of(string_views(headers@), str_views(names@)),
{
    let mut j: usize = 0;
    assert(str_views(names@).skip(0) =~= str_views(names@));
    while j < names.len()
        invariant
            j <= names.len(),
            column_of(string_views(headers@), str_views(names@)) == column_of(
                string_views(headers@),
                str_views(names@).skip(j as int),
            ),
        decreases names.len() - j,
    {
        let ghost rest = str_views(names@).skip(j as int);
        assert(rest[0] == names@[j as int]@);
        assert(rest.drop_first() =~= str_views(names@).skip(j + 1));
        match header_pos_exec(headers, names[j]) {
            Some(i) => {
                return Some(i);
            },
            None => {},
        }
        j = j + 1;
    }
    None
}

fn field_or_exec(rec: &Vec<String>, idx: Option<usize>, default: &str) -> (r: String)
    ensures
        r@ == field_or(string_views(rec@), opt_int(idx), default@),
{
    match idx {
        Some(i) => if i < rec.len() {
            rec[i].clone()
        } else {
            owned(default)
        },
        None => owned(default),
    }
}

/// Optional `usize` column index as a spec index.
pub open spec fn opt_int(o: Option<usize>) -> Option<int> {
    match o {
        Some(i) => Some(i as int),
        None => None,
    }
}

/// Imports historical results from CSV text with `home`, `away` and `score`
/// columns (English or Chinese headers, any ASCII case); records without
/// both teams or with an unreadable score are skipped.
pub fn parse_results_csv(csv_text: &str) -> (r: Result<Vec<MatchResult>, ResultsCsvError>)
    ensures
        match csv_header_row(csv_text@) {
            None => r matches Err(ResultsCsvError::Csv(_)),
            Some(h) => if column_of(h, home_names()) is None {
                r matches Err(ResultsCsvError::MissingHome)
            } else if column_of(h, away_names()) is None {
                r matches Err(ResultsCsvError::MissingAway)
            } else if column_of(h, score_names()) is None {
                r matches Err(ResultsCsvError::MissingScore)
            } else {
                match csv_data_rows(csv_text@) {
                    None => r matches Err(ResultsCsvError::Csv(_)),
                    Some(rows) => r matches Ok(v) && result_views(v@) == csv_results(rows, h),
                }
            },
        },
{
    let headers = match read_csv_headers(csv_text) {
        Ok(h) => h,
        Err(e) => {
            return Err(ResultsCsvError::Csv(e));
        },
    };
    let ghost h = string_views(headers@);
    let hn = vec!["home", "主队"];
    let an = vec!["away", "客队"];
    let sn = vec!["score", "比分"];
    let stn = vec!["stage", "阶段"];
    let sun = vec!["status", "状态"];
    let hfn = vec!["half_score", "half", "半场"];
    assert(str_views(hn@) =~= home_names());
    assert(str_views(an@) =~= away_names());
    assert(str_views(sn@) =~= score_names());
    assert(str_views(stn@) =~= stage_names());
    assert(str_views(sun@) =~= status_names());
    assert(str_views(hfn@) =~= half_names());
    let home_idx = match column_of_exec(&headers, &hn) {
        Some(i) => i,
        None => {
            return Err(ResultsCsvError::MissingHome);
        },
    };
    let away_idx = match column_of_exec(&headers, &an) {
        Some(i) => i,
        None => {
            return Err(ResultsCsvError::MissingAway);
        },
    };
    let score_idx = match column_of_exec(&headers, &sn) {
        Some(i) => i,
        None => {
            return Err(ResultsCsvError::MissingScore);
        },
    };
    let stage_idx = column_of_exec(&headers, &stn);
    let status_idx = column_of_exec(&headers, &sun);
    let half_idx = column_of_exec(&headers, &hfn);
    let records = match read_csv_records(csv_text) {
        Ok(r) => r,
        Err(e) => {
            return Err(ResultsCsvError::Csv(e));
        },
    };
    let ghost rs = record_views(records@);
    let mut rows: Vec<MatchResult> = Vec::new();
    let mut i: usize = 0;
    assert(rs.take(0) =~= Seq::<Seq<Seq<char>>>::empty());
    while i < records.len()
        invariant
            i <= records.len(),
            rs == record_views(records@),
            h == string_views(headers@),
            column_of(h, home_names()) == Some(home_idx as int),
            column_of(h, away_names()) == Some(away_idx as int),
            column_of(h, score_names()) == Some(score_idx as int),
            column_of(h, stage_names()) == opt_int(stage_idx),
            column_of(h, status_names()) == opt_int(status_idx),
            column_of(h, half_names()) == opt_int(half_idx),
            result_views(rows@) == csv_results(rs.take(i as int), h),
        decreases records.len() - i,
    {
        let rec = &records[i];
        assert(rs.take(i + 1).drop_last() =~= rs.take(i as int));
        assert(rs.take(i + 1).last() == string_views(rec@));
        let home_raw = field_or_exec(rec, Some(home_idx), "");
        let away_raw = field_or_exec(rec, Some(away_idx), "");
        let score_raw = field_or_exec(rec, Some(score_idx), "");
        let hv = chars_of(home_raw.as_str());
        let av = chars_of(away_raw.as_str());
        let sv = chars_of(score_raw.as_str());
        let home_t = trim_vec(&hv);
        let away_t = trim_vec(&av);
        let score_t = trim_vec(&sv);
        let score = string_of(&score_t);
        let ghost old = rows@;
        if home_t.len() > 0 && away_t.len() > 0 && parse_score(score.as_str()).is_some() {
            let half_score = field_or_exec(rec, half_idx, "");
            let stage = field_or_exec(rec, stage_idx, "历史样本");
            let status = field_or_exec(rec, status_idx, "完场");
            let m = MatchResult {
                home: string_of(&home_t),
                away: string_of(&away_t),
                score,
                half_score,
                stage,
                status,
            };
            rows.push(m);
            assert(result_views(rows@) =~= result_views(old).push(m@));
        }
        i = i + 1;
    }
    assert(rs.take(records.len() as int) =~= rs);
    Ok(rows)
}

// ---------------------------------------------------------------------------
// Player status CSV import
// ---------------------------------------------------------------------------

/// Why a player-status CSV was refused.
pub enum PlayerCsvError {
    /// The `csv` crate could not read the text.
    Csv(csv::Error),
    /// No `team`/`球队` column.
    MissingTeam,
    /// No `player`/`球员` column.
    MissingPlayer,
    /// No `status`/`状态` column.
    MissingStatus,
}

impl PlayerCsvError {
    /// The message the import reports for a missing column, `None` for a CSV
    /// reading error.
    pub fn missing_column_message(&self) -> (r: Option<&'static str>)
        ensures
            self is Csv <==> r is None,
            self is MissingTeam ==> (r matches Some(m) && m@ == "CSV缺少 team/球队 列"@),
            self is MissingPlayer ==> (r matches Some(m) && m@ == "CSV缺少 player/球员 列"@),
            self is MissingStatus ==> (r matches Some(m) && m@ == "CSV缺少 status/状态 列"@),
    {
        match self {
            PlayerCsvError::Csv(_) => None,
            PlayerCsvError::MissingTeam => Some("CSV缺少 team/球队 列"),
            PlayerCsvError::MissingPlayer => Some("CSV缺少 player/球员 列"),
            PlayerCsvError::MissingStatus => Some("CSV缺少 status/状态 列"),
        }
    }
}

/// One player's status from the CSV: team, player, status, position, the
/// importance text (when the column and the field exist), starter.
pub struct PlayerStatusRow {
    pub team: String,
    pub player: String,
    pub status: String,
    pub position: String,
    pub importance: Option<String>,
    pub starter: String,
}

/// A player row as plain values.
pub type PlayerFields = (Seq<char>, Seq<char>, Seq<char>, Seq<char>, Option<Seq<char>>, Seq<char>);

/// The view of a player row.
pub open spec fn player_view(p: PlayerStatusRow) -> PlayerFields {
    (
        p.team@,
        p.player@,
        p.status@,
        p.position@,
        match p.importance {
            Some(t) => Some(t@),
            None => None,
        },
        p.starter@,
    )
}

/// The views of a list of player rows.
pub open spec fn player_views(v: Seq<PlayerStatusRow>) -> Seq<PlayerFields> {
    v.map_values(|p: PlayerStatusRow| player_view(p))
}

pub open spec fn team_names() -> Seq<Seq<char>> {
    seq!["team"@, "球队"@]
}

pub open spec fn player_names() -> Seq<Seq<char>> {
    seq!["player"@, "球员"@]
}

pub open spec fn position_names() -> Seq<Seq<char>> {
    seq!["position"@, "位置"@]
}

pub open spec fn importance_names() -> Seq<Seq<char>> {
    seq!["importance"@, "重要性"@]
}

pub open spec fn starter_names() -> Seq<Seq<char>> {
    seq!["starter"@, "首发"@]
}

/// The player row one record gives: team and player trimmed and required;
/// status, position and starter trimmed, empty when missing.
pub open spec fn csv_player_row(rec: Seq<Seq<char>>, headers: Seq<Seq<char>>) -> Option<PlayerFields> {
    let team = trim(field_or(rec, column_of(headers, team_names()), ""@));
    let player = trim(field_or(rec, column_of(headers, player_names()), ""@));
    if team.len() == 0 || player.len() == 0 {
        None
    } else {
        Some(
            (
                team,
                player,
                trim(field_or(rec, column_of(headers, status_names()), ""@)),
                trim(field_or(rec, column_of(headers, position_names()), ""@)),
                field(rec, column_of(headers, importance_names())),
                trim(field_or(rec, column_of(headers, starter_names()), ""@)),
            ),
        )
    }
}

/// The player rows of a list of records, in order, rows without a team or a
/// player skipped.
pub open spec fn csv_players(records: Seq<Seq<Seq<char>>>, headers: Seq<Seq<char>>) -> Seq<PlayerFields>
    decreases records.len(),
{
    if records.len() == 0 {
        Seq::empty()
    } else {
        let prev = csv_players(records.drop_last(), headers);
        match csv_player_row(records.last(), headers) {
            Some(r) => prev.push(r),
            None => prev,
        }
    }
}

fn field_exec(rec: &Vec<String>, idx: Option<usize>) -> (r: Option<String>)
    ensures
        match field(string_views(rec@), opt_int(idx)) {
            Some(f) => r matches Some(x) && x@ == f,
            None => r is None,
        },
{
    match idx {
        Some(i) => if i < rec.len() {
            Some(rec[i].clone())
        } else {
            None
        },
        None => None,
    }
}

fn trimmed(s: String) -> (r: String)
    ensures
        r@ == trim(s@),
{
    let v = chars_of(s.as_str());
    let t = trim_vec(&v);
    string_of(&t)
}

/// Imports player statuses from CSV text with `team`, `player` and `status`
/// columns (English or Chinese headers, any ASCII case) and optional
/// `position`, `importance` and `starter` columns; records without a team
/// or a player are skipped.
pub fn parse_player_status_csv(csv_text: &str) -> (r: Result<Vec<PlayerStatusRow>, PlayerCsvError>)
    ensures
        match csv_header_row(csv_text@) {
            None => r matches Err(PlayerCsvError::Csv(_)),
            Some(h) => if column_of(h, team_names()) is None {
                r matches Err(PlayerCsvError::MissingTeam)
            } else if column_of(h, player_names()) is None {
                r matches Err(PlayerCsvError::MissingPlayer)
            } else if column_of(h, status_names()) is None {
                r matches Err(PlayerCsvError::MissingStatus)
            } else {
                match csv_data_rows(csv_text@) {
                    None => r matches Err(PlayerCsvError::Csv(_)),
                    Some(rows) => r matches Ok(v) && player_views(v@) == csv_players(rows, h),
                }
            },
        },
{
    let headers = match read_csv_headers(csv_text) {
        Ok(h) => h,
        Err(e) => {
            return Err(PlayerCsvError::Csv(e));
        },
    };
    let ghost h = string_views(headers@);
    let tn = vec!["team", "球队"];
    let pn = vec!["player", "球员"];
    let sn = vec!["status", "状态"];
    let on = vec!["position", "位置"];
    let imn = vec!["importance", "重要性"];
    let stn = vec!["starter", "首发"];
    assert(str_views(tn@) =~= team_names());
    assert(str_views(pn@) =~= player_names());
    assert(str_views(sn@) =~= status_names());
    assert(str_views(on@) =~= position_names());
    assert(str_views(imn@) =~= importance_names());
    assert(str_views(stn@) =~= starter_names());
    let team_idx = match column_of_exec(&headers, &tn) {
        Some(i) => i,
        None => {
            return Err(PlayerCsvError::MissingTeam);
        },
    };
    let player_idx = match column_of_exec(&headers, &pn) {
        Some(i) => i,
        None => {
            return Err(PlayerCsvError::MissingPlayer);
        },
    };
    let status_idx = match column_of_exec(&headers, &sn) {
        Some(i) => i,
        None => {
            return Err(PlayerCsvError::MissingStatus);
        },
    };
    let position_idx = column_of_exec(&headers, &on);
    let importance_idx = column_of_exec(&headers, &imn);
    let starter_idx = column_of_exec(&headers, &stn);
    let records = match read_csv_records(csv_text) {
        Ok(r) => r,
        Err(e) => {
            return Err(PlayerCsvError::Csv(e));
        },
    };
    let ghost rs = record_views(records@);
    let mut rows: Vec<PlayerStatusRow> = Vec::new();
    let mut i: usize = 0;
    assert(rs.take(0) =~= Seq::<Seq<Seq<char>>>::empty());
    while i < records.len()
        invariant
            i <= records.len(),
            rs == record_views(records@),
            h == string_views(headers@),
            column_of(h, team_names()) == Some(team_idx as int),
            column_of(h, player_names()) == Some(player_idx as int),
            column_of(h, status_names()) == Some(status_idx as int),
            column_of(h, position_names()) == opt_int(position_idx),
            column_of(h, importance_names()) == opt_int(importance_idx),
            column_of(h, starter_names()) == opt_int(starter_idx),
            player_views(rows@) == csv_players(rs.take(i as int), h),
        decreases records.len() - i,
    {
        let rec = &records[i];
        assert(rs.take(i + 1).drop_last() =~= rs.take(i as int));
        assert(rs.take(i + 1).last() == string_views(rec@));
        let team = trimmed(field_or_exec(rec, Some(team_idx), ""));
        let player = trimmed(field_or_exec(rec, Some(player_idx), ""));
        let tv = chars_of(team.as_str());
        let pv = chars_of(player.as_str());
        let ghost old = player_views(rows@);
        if tv.len() > 0 && pv.len() > 0 {
            let row = PlayerStatusRow {
                team,
                player,
                status: trimmed(field_or_exec(rec, Some(status_idx), "")),
                position: trimmed(field_or_exec(rec, position_idx, "")),
                importance: field_exec(rec, importance_idx),
                starter: trimmed(field_or_exec(rec, starter_idx, "")),
            };
            let ghost rv = player_view(row);
            rows.push(row);
            assert(player_views(rows@) =~= old.push(rv));
        }
        i = i + 1;
    }
    assert(rs.take(records.len() as int) =~= rs);
    Ok(rows)
}

// ---------------------------------------------------------------------------
// Team statistics CSV import
// ---------------------------------------------------------------------------

/// Why a team-statistics CSV was refused.
pub enum TeamCsvError {
    /// The `csv` crate could not read the text.
    Csv(csv::Error),
    /// No `team`/`球队` column.
    MissingTeam,
}

impl TeamCsvError {
    /// The message the import reports for a missing column, `None` for a CSV
    /// reading error.
    pub fn missing_column_message(&self) -> (r: Option<&'static str>)
        ensures
            self is Csv <==> r is None,
            self is MissingTeam ==> (r matches Some(m) && m@ == "CSV缺少 team/球队 列"@),
    {
        match self {
            TeamCsvError::Csv(_) => None,
            TeamCsvError::MissingTeam => Some("CSV缺少 team/球队 列"),
        }
    }
}

/// One team's statistics from the CSV: the trimmed team name and the text
/// of each statistic whose column and field exist.
pub struct TeamStatsRow {
    pub team: String,
    pub matches: Option<String>,
    pub xg: Option<String>,
    pub xga: Option<String>,
    pub shots: Option<String>,
    pub shots_on_target: Option<String>,
    pub box_touches: Option<String>,
    pub set_piece_xg: Option<String>,
}

/// An optional text as plain values.
pub open spec fn opt_view(o: Option<String>) -> Option<Seq<char>> {
    match o {
        Some(t) => Some(t@),
        None => None,
    }
}

/// A team row as plain values: the team, then the statistics in column
/// order.
pub type TeamFields = (Seq<char>, Seq<Option<Seq<char>>>);

/// The view of a team row.
pub open spec fn team_view(t: TeamStatsRow) -> TeamFields {
    (
        t.team@,
        seq![
            opt_view(t.matches),
            opt_view(t.xg),
            opt_view(t.xga),
            opt_view(t.shots),
            opt_view(t.shots_on_target),
            opt_view(t.box_touches),
            opt_view(t.set_piece_xg),
        ],
    )
}

/// The views of a list of team rows.
pub open spec fn team_views(v: Seq<TeamStatsRow>) -> Seq<TeamFields> {
    v.map_values(|t: TeamStatsRow| team_view(t))
}

/// The column names of each statistic, in row order.
pub open spec fn stat_names() -> Seq<Seq<Seq<char>>> {
    seq![
        seq!["matches"@, "场次"@],
        seq!["xg"@, "预期进球"@],
        seq!["xga"@, "预期失球"@],
        seq!["shots"@, "射门"@],
        seq!["shots_on_target"@, "射正"@],
        seq!["box_touches"@, "禁区触球"@],
        seq!["set_piece_xg"@, "定位球xg"@],
    ]
}

/// The team row one record gives: the team trimmed and required, each
/// statistic the field of its column.
pub open spec fn csv_team_row(rec: Seq<Seq<char>>, headers: Seq<Seq<char>>) -> Option<TeamFields> {
    let team = trim(field_or(rec, column_of(headers, team_names()), ""@));
    if team.len() == 0 {
        None
    } else {
        Some((team, stat_names().map_values(|names: Seq<Seq<char>>| field(rec, column_of(headers, names)))))
    }
}

/// The team rows of a list of records, in order, rows without a team
/// skipped.
pub open spec fn csv_teams(records: Seq<Seq<Seq<char>>>, headers: Seq<Seq<char>>) -> Seq<TeamFields>
    decreases records.len(),
{
    if records.len() == 0 {
        Seq::empty()
    } else {
        let prev = csv_teams(records.drop_last(), headers);
        match csv_team_row(records.last(), headers) {
            Some(r) => prev.push(r),
            None => prev,
        }
    }
}

fn stat_field(rec: &Vec<String>, headers: &Vec<String>, a: &str, b: &str) -> (r: Option<String>)
    ensures
        opt_view(r) == field(string_views(rec@), column_of(string_views(headers@), seq![a@, b@])),
{
    let names = vec![a, b];
    assert(str_views(names@) =~= seq![a@, b@]);
    let idx = column_of_exec(headers, &names);
    field_exec(rec, idx)
}

/// Imports team statistics from CSV text with a `team` column (English or
/// Chinese headers, any ASCII case) and optional statistic columns; records
/// without a team are skipped.
pub fn parse_team_stats_csv(csv_text: &str) -> (r: Result<Vec<TeamStatsRow>, TeamCsvError>)
    ensures
        match csv_header_row(csv_text@) {
            None => r matches Err(TeamCsvError::Csv(_)),
            Some(h) => if column_of(h, team_names()) is None {
                r matches Err(TeamCsvError::MissingTeam)
            } else {
                match csv_data_rows(csv_text@) {
                    None => r matches Err(TeamCsvError::Csv(_)),
                    Some(rows) => r matches Ok(v) && team_views(v@) == csv_teams(rows, h),
                }
            },
        },
{
    let headers = match read_csv_headers(csv_text) {
        Ok(h) => h,
        Err(e) => {
            return Err(TeamCsvError::Csv(e));
        },
    };
    let ghost h = string_views(headers@);
    let tn = vec!["team", "球队"];
    assert(str_views(tn@) =~= team_names());
    let team_idx = match column_of_exec(&headers, &tn) {
        Some(i) => i,
        None => {
            return Err(TeamCsvError::MissingTeam);
        },
    };
    let records = match read_csv_records(csv_text) {
        Ok(r) => r,
        Err(e) => {
            return Err(TeamCsvError::Csv(e));
        },
    };
    let ghost rs = record_views(records@);
    let mut rows: Vec<TeamStatsRow> = Vec::new();
    let mut i: usize = 0;
    assert(rs.take(0) =~= Seq::<Seq<Seq<char>>>::empty());
    while i < records.len()
        invariant
            i <= records.len(),
            rs == record_views(records@),
            h == string_views(headers@),
            column_of(h, team_names()) == Some(team_idx as int),
            team_views(rows@) == csv_teams(rs.take(i as int), h),
        decreases records.len() - i,
    {
        let rec = &records[i];
        assert(rs.take(i + 1).drop_last() =~= rs.take(i as int));
        assert(rs.take(i + 1).last() == string_views(rec@));
        let team = trimmed(field_or_exec(rec, Some(team_idx), ""));
        let tv = chars_of(team.as_str());
        let ghost old = team_views(rows@);
        if tv.len() > 0 {
            let row = TeamStatsRow {
                team,
                matches: stat_field(rec, &headers, "matches", "场次"),
                xg: stat_field(rec, &headers, "xg", "预期进球"),
                xga: stat_field(rec, &headers, "xga", "预期失球"),
                shots: stat_field(rec, &headers, "shots", "射门"),
                shots_on_target: stat_field(rec, &headers, "shots_on_target", "射正"),
                box_touches: stat_field(rec, &headers, "box_touches", "禁区触球"),
                set_piece_xg: stat_field(rec, &headers, "set_piece_xg", "定位球xg"),
            };
            let ghost rv = team_view(row);
            proof {
                let sv = string_views(rec@);
                assert(rv.1 =~= stat_names().map_values(|names: Seq<Seq<char>>| field(sv, column_of(h, names))));
            }
            rows.push(row);
            assert(team_views(rows@) =~= old.push(rv));
        }
        i = i + 1;
    }
    assert(rs.take(records.len() as int) =~= rs);
    Ok(rows)
}

} // verus!
