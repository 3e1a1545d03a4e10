//! The upstream telemetry store: request URLs for its HTTP query
//! endpoint, and extraction of hosts, probes, scalars and time series
//! from its parsed responses. The transport performs the HTTP call
//! and hands the parsed response in; everything here is pure.
use vstd::prelude::*;

use crate::downsample::downsample;
use crate::downsample::spec_downsample;
use crate::probe::ProbeMetadata;
use crate::telemetry::TimeSeriesPoint;
use crate::template::lookup;
use crate::template::lookup_var;
use crate::template::vars_view;
use vstd::utf8::encode_utf8;

use crate::text::chars_to_string;
use crate::text::str_chars;

verus! {

/// Connection settings for the store.
pub struct InfluxSettings {
    pub host: String,
    pub token: String,
    pub database: String,
    pub retention_policy: String,
}

/// The configuration file's shape.
pub struct InfluxConfig {
    pub influx: InfluxSettings,
}

/// A handle on the store: the base URL and what every query needs.
pub struct InfluxRepository {
    pub host: String,
    pub token: String,
    pub database: String,
    pub retention_policy: String,
}

/// The host with its trailing slashes removed.
pub open spec fn trim_trailing_slashes(s: Seq<char>) -> Seq<char>
    decreases s.len(),
{
    if s.len() > 0 && s.last() == '/' {
        trim_trailing_slashes(s.drop_last())
    } else {
        s
    }
}

/// A byte the percent-encoder keeps as itself: the alphanumerics and
/// `-`, `.`, `_`, `~`.
pub open spec fn url_safe_byte(b: u8) -> bool {
    (48 <= b <= 57)  // 0-9
     || (65 <= b <= 90)  // A-Z
     || (97 <= b <= 122)  // a-z
     || b == 45 || b == 46 || b == 95 || b == 126  // - . _ ~
}

/// The character for one hexadecimal digit, upper case.
pub open spec fn hex_digit_char(d: nat) -> char {
    if d == 0 { '0' } else if d == 1 { '1' } else if d == 2 { '2' } else if d == 3 { '3' }
    else if d == 4 { '4' } else if d == 5 { '5' } else if d == 6 { '6' } else if d == 7 { '7' }
    else if d == 8 { '8' } else if d == 9 { '9' } else if d == 10 { 'A' } else if d == 11 { 'B' }
    else if d == 12 { 'C' } else if d == 13 { 'D' } else if d == 14 { 'E' } else { 'F' }
}

/// One byte percent-encoded: kept when safe, else `%` and two upper
/// case hex digits.
pub open spec fn percent_encode_byte(b: u8) -> Seq<char> {
    if url_safe_byte(b) {
        seq![b as char]
    } else {
        seq!['%', hex_digit_char((b / 16) as nat), hex_digit_char((b % 16) as nat)]
    }
}

/// A byte run percent-encoded, byte by byte.
pub open spec fn percent_encode(bytes: Seq<u8>) -> Seq<char>
    decreases bytes.len(),
{
    if bytes.len() == 0 {
        Seq::empty()
    } else {
        percent_encode_byte(bytes[0]) + percent_encode(bytes.drop_first())
    }
}

/// Relies on urlencoding::encode: every byte of the input's UTF-8
/// form except the alphanumerics and `-`, `.`, `_`, `~` becomes `%`
/// and two upper case hex digits; the rest pass through.
#[verifier::external_body]
fn url_encode(s: &str) -> (r: String)
    ensures
        r@ == percent_encode(encode_utf8(s@)),
{
    urlencoding::encode(s).into_owned()
}

/// The characters between the host and the database name in a query URL.
pub open spec fn url_db_chars() -> Seq<char> {
    seq!['/', 'q', 'u', 'e', 'r', 'y', '?', 'd', 'b', '=']
}

/// The characters before the retention policy in a query URL.
pub open spec fn url_rp_chars() -> Seq<char> {
    seq!['&', 'r', 'p', '=']
}

/// The characters before the encoded query in a query URL.
pub open spec fn url_q_chars() -> Seq<char> {
    seq!['&', 'q', '=']
}

/// The URL that runs `query` against the store.
pub open spec fn query_url_of(
    host: Seq<char>,
    database: Seq<char>,
    retention_policy: Seq<char>,
    query: Seq<char>,
) -> Seq<char> {
    host + url_db_chars() + database + url_rp_chars() + retention_policy + url_q_chars()
        + percent_encode(encode_utf8(query))
}

/// Appends the characters of a string.
pub fn push_str_chars(out: &mut Vec<char>, s: &str)
    ensures
        final(out)@ == old(out)@ + s@,
{
    let cs = str_chars(s);
    let n: usize = cs.len();
    let mut i: usize = 0;
    while i < n
        invariant
            n == cs@.len(),
            cs@ == s@,
            i <= n,
            out@ == old(out)@ + cs@.take(i as int),
        decreases n - i,
    {
        out.push(cs[i]);
        proof {
            assert(out@ =~= old(out)@ + cs@.take(i + 1));
        }
        i += 1;
    }
    proof {
        assert(old(out)@ + cs@.take(n as int) =~= old(out)@ + s@);
    }
}

impl InfluxRepository {
    /// Builds a handle, normalising the host by dropping trailing
    /// slashes.
    pub fn new(host: String, token: String, database: String, retention_policy: String) -> (r:
        InfluxRepository)
        ensures
            r.host@ == trim_trailing_slashes(host@),
            r.token@ == token@,
            r.database@ == database@,
            r.retention_policy@ == retention_policy@,
    {
        let cs = str_chars(host.as_str());
        let mut end: usize = cs.len();
        proof {
            assert(host@.take(end as int) =~= host@);
        }
        while end > 0 && cs[end - 1] == '/'
            invariant
                end <= cs@.len(),
                cs@ == host@,
                trim_trailing_slashes(host@) == trim_trailing_slashes(host@.take(end as int)),
            decreases end,
        {
            proof {
                assert(host@.take(end as int).drop_last() =~= host@.take(end - 1));
            }
            end -= 1;
        }
        let mut trimmed: Vec<char> = Vec::new();
        let mut i: usize = 0;
        while i < end
            invariant
                i <= end <= cs@.len(),
                cs@ == host@,
                trimmed@ == host@.take(end as int).take(i as int),
            decreases end - i,
        {
            trimmed.push(cs[i]);
            proof {
                assert(trimmed@ =~= host@.take(end as int).take(i + 1));
            }
            i += 1;
        }
        proof {
            assert(host@.take(end as int).take(end as int) =~= host@.take(end as int));
            if end > 0 {
                assert(host@.take(end as int).last() != '/');
            }
        }
        let host2 = chars_to_string(&trimmed);
        InfluxRepository { host: host2, token, database, retention_policy }
    }

    /// The URL that runs `query`, with the query percent-encoded.
    pub fn build_query_url(&self, query: &str) -> (r: String)
        ensures
            r@ == query_url_of(self.host@, self.database@, self.retention_policy@, query@),
    {
        let mut out: Vec<char> = Vec::new();
        push_str_chars(&mut out, self.host.as_str());
        push_str_chars(&mut out, "/query?db=");
        push_str_chars(&mut out, self.database.as_str());
        push_str_chars(&mut out, "&rp=");
        push_str_chars(&mut out, self.retention_policy.as_str());
        push_str_chars(&mut out, "&q=");
        let encoded = url_encode(query);
        push_str_chars(&mut out, encoded.as_str());
        proof {
            reveal_strlit("/query?db=");
            reveal_strlit("&rp=");
            reveal_strlit("&q=");
            assert("/query?db="@ =~= url_db_chars());
            assert("&rp="@ =~= url_rp_chars());
            assert("&q="@ =~= url_q_chars());
            assert(out@ =~= query_url_of(self.host@, self.database@, self.retention_policy@, query@));
        }
        chars_to_string(&out)
    }
}

/// One cell of a query response row.
pub enum FieldValue {
    Null,
    Num(i64),
    Text(String),
    Truth(bool),
}

/// One series of a query result, with its grouping tags.
pub struct SeriesResult {
    pub name: String,
    pub columns: Vec<String>,
    pub values: Vec<Vec<FieldValue>>,
    pub tags: Vec<(String, String)>,
}

/// One statement's result.
pub struct QueryResult {
    pub series: Vec<SeriesResult>,
    pub error: Option<String>,
}

/// A whole response of the store.
pub struct QueryResponse {
    pub results: Vec<QueryResult>,
}

/// The error of the first result, if any.
pub open spec fn first_error_of(r: &QueryResponse) -> Option<Seq<char>> {
    if r.results@.len() > 0 {
        match r.results@[0].error {
            Some(e) => Some(e@),
            None => None,
        }
    } else {
        None
    }
}

/// The error the store reported, if any: the first result's error.
pub fn response_error(r: &QueryResponse) -> (e: Option<String>)
    ensures
        match e {
            Some(s) => first_error_of(r) == Some(s@),
            None => first_error_of(r) is None,
        },
{
    if r.results.len() > 0 {
        match &r.results[0].error {
            Some(s) => Some(s.clone()),
            None => None,
        }
    } else {
        None
    }
}

/// The host named by one row, when the row has the two columns of a
/// tag-values listing and the second holds text.
pub open spec fn row_host(row: &Vec<FieldValue>) -> Option<Seq<char>> {
    if row@.len() >= 2 {
        match row@[1] {
            FieldValue::Text(h) => Some(h@),
            _ => None,
        }
    } else {
        None
    }
}

/// The hosts named by a run of rows.
pub open spec fn hosts_of_rows(rows: Seq<Vec<FieldValue>>) -> Seq<Seq<char>>
    decreases rows.len(),
{
    if rows.len() == 0 {
        Seq::empty()
    } else {
        hosts_of_rows(rows.drop_last()) + match row_host(&rows.last()) {
            Some(h) => seq![h],
            None => Seq::<Seq<char>>::empty(),
        }
    }
}

/// The hosts named by a run of series.
pub open spec fn hosts_of_series(ss: Seq<SeriesResult>) -> Seq<Seq<char>>
    decreases ss.len(),
{
    if ss.len() == 0 {
        Seq::empty()
    } else {
        hosts_of_series(ss.drop_last()) + hosts_of_rows(ss.last().values@)
    }
}

/// The source ids listed by a response.
pub open spec fn hosts_of_response(r: &QueryResponse) -> Seq<Seq<char>> {
    if r.results@.len() > 0 {
        hosts_of_series(r.results@[0].series@)
    } else {
        Seq::empty()
    }
}

/// The string views of a vector of strings.
pub open spec fn string_views(v: Seq<String>) -> Seq<Seq<char>> {
    v.map_values(|s: String| s@)
}

/// Extracts the source ids that a tag-values listing names: the second
/// cell of every row, over all series of the first result.
#[verifier::loop_isolation(false)]
pub fn extract_hosts(r: &QueryResponse) -> (hosts: Vec<String>)
    ensures
        string_views(hosts@) == hosts_of_response(r),
{
    let mut out: Vec<String> = Vec::new();
    if r.results.len() == 0 {
        proof {
            assert(string_views(out@) =~= hosts_of_response(r));
        }
        return out;
    }
    let series = &r.results[0].series;
    let ns: usize = series.len();
    proof {
        assert(series@.take(0) =~= Seq::<SeriesResult>::empty());
        assert(string_views(out@) =~= hosts_of_series(series@.take(0)));
    }
    let mut i: usize = 0;
    while i < ns
        invariant
            i <= ns,
            string_views(out@) == hosts_of_series(series@.take(i as int)),
        decreases ns - i,
    {
        let rows = &series[i].values;
        let nr: usize = rows.len();
        let ghost base = string_views(out@);
        proof {
            assert(rows@.take(0) =~= Seq::<Vec<FieldValue>>::empty());
            assert(base + hosts_of_rows(rows@.take(0)) =~= base);
        }
        let mut k: usize = 0;
        while k < nr
            invariant
                k <= nr,
                nr == rows@.len(),
                rows@ == series@[i as int].values@,
                string_views(out@) == base + hosts_of_rows(rows@.take(k as int)),
            decreases nr - k,
        {
            let ghost old_views = string_views(out@);
            let row = &rows[k];
            if row.len() >= 2 {
                match &row[1] {
                    FieldValue::Text(h) => {
                        out.push(h.clone());
                        proof {
                            assert(string_views(out@) =~= old_views.push(h@));
                        }
                    },
                    _ => {},
                }
            }
            proof {
                let t = rows@.take(k + 1);
                assert(t.drop_last() =~= rows@.take(k as int));
                assert(t.last() == rows@[k as int]);
                assert(string_views(out@) =~= base + hosts_of_rows(t));
            }
            k += 1;
        }
        proof {
            assert(rows@.take(nr as int) =~= rows@);
            let t = series@.take(i + 1);
            assert(t.drop_last() =~= series@.take(i as int));
            assert(t.last() == series@[i as int]);
            assert(string_views(out@) =~= hosts_of_series(t));
        }
        i += 1;
    }
    proof {
        assert(series@.take(ns as int) =~= series@);
    }
    out
}

/// The tag pair of one series, when both grouping tags are present.
pub open spec fn probe_of_series(s: &SeriesResult) -> Option<(Seq<char>, Seq<char>)> {
    match lookup(vars_view(s.tags@), probe_type_key()) {
        Some(pt) => match lookup(vars_view(s.tags@), name_key()) {
            Some(n) => Some((pt, n)),
            None => None,
        },
        None => None,
    }
}

/// The characters of the `probe_type` tag key.
pub open spec fn probe_type_key() -> Seq<char> {
    seq!['p', 'r', 'o', 'b', 'e', '_', 't', 'y', 'p', 'e']
}

/// The characters of the `name` tag key.
pub open spec fn name_key() -> Seq<char> {
    seq!['n', 'a', 'm', 'e']
}

/// The probes named by a run of series.
pub open spec fn probes_of_series(ss: Seq<SeriesResult>) -> Seq<(Seq<char>, Seq<char>)>
    decreases ss.len(),
{
    if ss.len() == 0 {
        Seq::empty()
    } else {
        probes_of_series(ss.drop_last()) + match probe_of_series(&ss.last()) {
            Some(p) => seq![p],
            None => Seq::<(Seq<char>, Seq<char>)>::empty(),
        }
    }
}

/// The probe set a metadata response describes: one (type, name) pair
/// per grouped series of the first result, none when the store
/// reported an error.
pub open spec fn probes_of_response(r: &QueryResponse) -> Seq<(Seq<char>, Seq<char>)> {
    if r.results@.len() > 0 && first_error_of(r) is None {
        probes_of_series(r.results@[0].series@)
    } else {
        Seq::empty()
    }
}

/// The (type, name) views of a probe list.
pub open spec fn probe_views(v: Seq<ProbeMetadata>) -> Seq<(Seq<char>, Seq<char>)> {
    v.map_values(|p: ProbeMetadata| (p.probe_type@, p.name@))
}

/// Extracts the probe set from a metadata response: the grouping tags
/// of every series of the first result; an error empties the set.
#[verifier::loop_isolation(false)]
pub fn extract_probe_metadata(r: &QueryResponse) -> (probes: Vec<ProbeMetadata>)
    ensures
        probe_views(probes@) == probes_of_response(r),
{
    let mut out: Vec<ProbeMetadata> = Vec::new();
    if r.results.len() == 0 {
        proof {
            assert(probe_views(out@) =~= probes_of_response(r));
        }
        return out;
    }
    match response_error(r) {
        Some(_) => {
            proof {
                assert(probe_views(out@) =~= probes_of_response(r));
            }
            return out;
        },
        None => {},
    }
    let series = &r.results[0].series;
    let ns: usize = series.len();
    proof {
        assert(series@.take(0) =~= Seq::<SeriesResult>::empty());
        assert(probe_views(out@) =~= probes_of_series(series@.take(0)));
    }
    let pt_key = str_chars("probe_type");
    let n_key = str_chars("name");
    proof {
        reveal_strlit("probe_type");
        reveal_strlit("name");
        assert("probe_type"@ =~= probe_type_key());
        assert("name"@ =~= name_key());
    }
    let mut i: usize = 0;
    while i < ns
        invariant
            i <= ns,
            pt_key@ == probe_type_key(),
            n_key@ == name_key(),
            probe_views(out@) == probes_of_series(series@.take(i as int)),
        decreases ns - i,
    {
        let ghost old_views = probe_views(out@);
        match lookup_var(&series[i].tags, &pt_key) {
            Some(pt) => match lookup_var(&series[i].tags, &n_key) {
                Some(n) => {
                    out.push(ProbeMetadata { probe_type: pt, name: n });
                    proof {
                        assert(probe_views(out@) =~= old_views.push(
                            probe_of_series(&series@[i as int])->Some_0,
                        ));
                    }
                },
                None => {},
            },
            None => {},
        }
        proof {
            let t = series@.take(i + 1);
            assert(t.drop_last() =~= series@.take(i as int));
            assert(t.last() == series@[i as int]);
            assert(probe_views(out@) =~= probes_of_series(t));
        }
        i += 1;
    }
    proof {
        assert(series@.take(ns as int) =~= series@);
    }
    out
}


/// What parsing an RFC 3339 timestamp yields, in milliseconds since
/// the epoch; a function of the text alone.
pub uninterp spec fn rfc3339_ms_of(s: Seq<char>) -> Option<i64>;

/// Relies on chrono::DateTime::parse_from_rfc3339: parsing depends on
/// the text alone; the result is converted with timestamp_millis.
#[verifier::external_body]
fn parse_rfc3339_ms(s: &str) -> (r: Option<i64>)
    ensures
        r == rfc3339_ms_of(s@),
{
    match chrono::DateTime::parse_from_rfc3339(s) {
        Ok(t) => Some(t.timestamp_millis()),
        Err(_) => None,
    }
}

/// The first column whose name satisfies `pred`.
pub open spec fn col_idx_from(cols: Seq<String>, pred: spec_fn(Seq<char>) -> bool) -> Option<int>
    decreases cols.len(),
{
    if cols.len() == 0 {
        None
    } else if pred(cols[0]@) {
        Some(0)
    } else {
        match col_idx_from(cols.drop_first(), pred) {
            Some(i) => Some(i + 1),
            None => None,
        }
    }
}

proof fn lemma_col_idx_some(cols: Seq<String>, pred: spec_fn(Seq<char>) -> bool, i: int)
    requires
        0 <= i < cols.len(),
        pred(cols[i]@),
        forall|k: int| 0 <= k < i ==> !pred(#[trigger] cols[k]@),
    ensures
        col_idx_from(cols, pred) == Some(i),
    decreases i,
{
    if i == 0 {
    } else {
        assert(!pred(cols[0]@));
        assert(forall|k: int|
            0 <= k < i - 1 ==> !pred(#[trigger] cols.drop_first()[k]@));
        lemma_col_idx_some(cols.drop_first(), pred, i - 1);
    }
}

proof fn lemma_col_idx_none(cols: Seq<String>, pred: spec_fn(Seq<char>) -> bool)
    requires
        forall|k: int| 0 <= k < cols.len() ==> !pred(#[trigger] cols[k]@),
    ensures
        col_idx_from(cols, pred) is None,
    decreases cols.len(),
{
    if cols.len() == 0 {
    } else {
        assert(forall|k: int|
            0 <= k < cols.len() - 1 ==> !pred(#[trigger] cols.drop_first()[k]@));
        lemma_col_idx_none(cols.drop_first(), pred);
    }
}

/// The characters of the column names a scalar can come back under.
pub open spec fn mean_chars() -> Seq<char> {
    seq!['m', 'e', 'a', 'n']
}

pub open spec fn last_chars() -> Seq<char> {
    seq!['l', 'a', 's', 't']
}

pub open spec fn value_chars() -> Seq<char> {
    seq!['v', 'a', 'l', 'u', 'e']
}

pub open spec fn time_chars() -> Seq<char> {
    seq!['t', 'i', 'm', 'e']
}

/// A column a scalar aggregation answers in.
pub open spec fn is_scalar_col() -> spec_fn(Seq<char>) -> bool {
    |c: Seq<char>| c == mean_chars() || c == last_chars() || c == value_chars()
}

/// The `time` column.
pub open spec fn is_time_col() -> spec_fn(Seq<char>) -> bool {
    |c: Seq<char>| c == time_chars()
}

/// The `value` column.
pub open spec fn is_value_col() -> spec_fn(Seq<char>) -> bool {
    |c: Seq<char>| c == value_chars()
}

/// The column a scalar is read from: the first named `mean`, `last`
/// or `value`, else the second column.
pub open spec fn scalar_col_of(cols: Seq<String>) -> int {
    match col_idx_from(cols, is_scalar_col()) {
        Some(i) => i,
        None => 1,
    }
}

/// The scalar a response carries: the chosen column of the first row
/// of the first series of the first result, when it holds a number.
pub open spec fn single_value_of(r: &QueryResponse) -> Option<i64> {
    if r.results@.len() > 0 && r.results@[0].series@.len() > 0
        && r.results@[0].series@[0].values@.len() > 0 {
        let s = r.results@[0].series@[0];
        let row = s.values@[0];
        let idx = scalar_col_of(s.columns@);
        if 0 <= idx < row@.len() {
            match row@[idx] {
                FieldValue::Num(v) => Some(v),
                _ => None,
            }
        } else {
            None
        }
    } else {
        None
    }
}

/// Finds the column a scalar is read from.
#[verifier::loop_isolation(false)]
fn find_scalar_col(cols: &Vec<String>) -> (r: usize)
    ensures
        r as int == scalar_col_of(cols@),
{
    let n: usize = cols.len();
    let mean_c = str_chars("mean");
    let last_c = str_chars("last");
    let value_c = str_chars("value");
    proof {
        reveal_strlit("mean");
        reveal_strlit("last");
        reveal_strlit("value");
        assert("mean"@ =~= mean_chars());
        assert("last"@ =~= last_chars());
        assert("value"@ =~= value_chars());
    }
    let mut i: usize = 0;
    while i < n
        invariant
            i <= n,
            mean_c@ == mean_chars(),
            last_c@ == last_chars(),
            value_c@ == value_chars(),
            forall|k: int| 0 <= k < i ==> !is_scalar_col()(#[trigger] cols@[k]@),
        decreases n - i,
    {
        let cc = str_chars(cols[i].as_str());
        if crate::template::chars_eq(&cc, &mean_c) || crate::template::chars_eq(&cc, &last_c)
            || crate::template::chars_eq(&cc, &value_c) {
            proof {
                lemma_col_idx_some(cols@, is_scalar_col(), i as int);
            }
            return i;
        }
        i += 1;
    }
    proof {
        lemma_col_idx_none(cols@, is_scalar_col());
    }
    1
}

/// Extracts the scalar a tile query returned, if any.
pub fn extract_single_value(r: &QueryResponse) -> (v: Option<i64>)
    ensures
        v == single_value_of(r),
{
    if r.results.len() == 0 {
        return None;
    }
    if r.results[0].series.len() == 0 {
        return None;
    }
    let s = &r.results[0].series[0];
    if s.values.len() == 0 {
        return None;
    }
    let idx = find_scalar_col(&s.columns);
    let row = &s.values[0];
    if idx < row.len() {
        match &row[idx] {
            FieldValue::Num(v) => Some(*v),
            _ => None,
        }
    } else {
        None
    }
}

/// The point one row carries: a textual timestamp that parses, and a
/// numeric value, in the series' time and value columns.
pub open spec fn row_point(row: &Vec<FieldValue>, tidx: int, vidx: int) -> Option<
    TimeSeriesPoint,
> {
    if 0 <= tidx < row@.len() && 0 <= vidx < row@.len() {
        match (row@[tidx], row@[vidx]) {
            (FieldValue::Text(ts), FieldValue::Num(v)) => match rfc3339_ms_of(ts@) {
                Some(ms) => Some(TimeSeriesPoint { time_ms: ms, value: v }),
                None => None,
            },
            _ => None,
        }
    } else {
        None
    }
}

/// The points carried by a run of rows.
pub open spec fn points_of_rows(rows: Seq<Vec<FieldValue>>, tidx: int, vidx: int) -> Seq<
    TimeSeriesPoint,
>
    decreases rows.len(),
{
    if rows.len() == 0 {
        Seq::empty()
    } else {
        points_of_rows(rows.drop_last(), tidx, vidx) + match row_point(&rows.last(), tidx, vidx) {
            Some(p) => seq![p],
            None => Seq::<TimeSeriesPoint>::empty(),
        }
    }
}

/// The time column of a series: the first named `time`, else the
/// first column.
pub open spec fn series_time_col(s: &SeriesResult) -> int {
    match col_idx_from(s.columns@, is_time_col()) {
        Some(i) => i,
        None => 0,
    }
}

/// The value column of a series: the first named `value`, else the
/// second column.
pub open spec fn series_value_col(s: &SeriesResult) -> int {
    match col_idx_from(s.columns@, is_value_col()) {
        Some(i) => i,
        None => 1,
    }
}

/// The points carried by a run of series.
pub open spec fn points_of_series_list(ss: Seq<SeriesResult>) -> Seq<TimeSeriesPoint>
    decreases ss.len(),
{
    if ss.len() == 0 {
        Seq::empty()
    } else {
        points_of_series_list(ss.drop_last()) + points_of_rows(
            ss.last().values@,
            series_time_col(&ss.last()),
            series_value_col(&ss.last()),
        )
    }
}

/// Every point a time-range response carries, in response order.
pub open spec fn raw_points_of(r: &QueryResponse) -> Seq<TimeSeriesPoint> {
    if r.results@.len() > 0 {
        points_of_series_list(r.results@[0].series@)
    } else {
        Seq::empty()
    }
}

/// What a time-range query hands the charts: the response's points,
/// downsampled when they exceed the bound.
pub open spec fn time_series_of(r: &QueryResponse, max: int) -> Seq<TimeSeriesPoint> {
    let ps = raw_points_of(r);
    if ps.len() > max {
        spec_downsample(ps, max)
    } else {
        ps
    }
}

/// Finds a series' time column.
#[verifier::loop_isolation(false)]
fn find_time_col(cols: &Vec<String>) -> (r: usize)
    ensures
        r as int == ({
            match col_idx_from(cols@, is_time_col()) {
                Some(i) => i,
                None => 0,
            }
        }),
{
    let n: usize = cols.len();
    let time_c = str_chars("time");
    proof {
        reveal_strlit("time");
        assert("time"@ =~= time_chars());
    }
    let mut i: usize = 0;
    while i < n
        invariant
            i <= n,
            time_c@ == time_chars(),
            forall|k: int| 0 <= k < i ==> !is_time_col()(#[trigger] cols@[k]@),
        decreases n - i,
    {
        let cc = str_chars(cols[i].as_str());
        if crate::template::chars_eq(&cc, &time_c) {
            proof {
                lemma_col_idx_some(cols@, is_time_col(), i as int);
            }
            return i;
        }
        i += 1;
    }
    proof {
        lemma_col_idx_none(cols@, is_time_col());
    }
    0
}

/// Finds a series' value column.
#[verifier::loop_isolation(false)]
fn find_value_col(cols: &Vec<String>) -> (r: usize)
    ensures
        r as int == ({
            match col_idx_from(cols@, is_value_col()) {
                Some(i) => i,
                None => 1,
            }
        }),
{
    let n: usize = cols.len();
    let value_c = str_chars("value");
    proof {
        reveal_strlit("value");
        assert("value"@ =~= value_chars());
    }
    let mut i: usize = 0;
    while i < n
        invariant
            i <= n,
            value_c@ == value_chars(),
            forall|k: int| 0 <= k < i ==> !is_value_col()(#[trigger] cols@[k]@),
        decreases n - i,
    {
        let cc = str_chars(cols[i].as_str());
        if crate::template::chars_eq(&cc, &value_c) {
            proof {
                lemma_col_idx_some(cols@, is_value_col(), i as int);
            }
            return i;
        }
        i += 1;
    }
    proof {
        lemma_col_idx_none(cols@, is_value_col());
    }
    1
}

/// Extracts a chart series' points from a time-range response and
/// bounds them by downsampling, as the store would have done itself
/// had it been able to.
#[verifier::rlimit(100)]
#[verifier::loop_isolation(false)]
pub fn extract_time_series(r: &QueryResponse, max_points: usize) -> (points: Vec<TimeSeriesPoint>)
    ensures
        points@ == time_series_of(r, max_points as int),
{
    let mut out: Vec<TimeSeriesPoint> = Vec::new();
    if r.results.len() == 0 {
        proof {
            assert(out@ =~= time_series_of(r, max_points as int));
        }
        return out;
    }
    let series = &r.results[0].series;
    let ns: usize = series.len();
    proof {
        assert(series@.take(0) =~= Seq::<SeriesResult>::empty());
        assert(out@ =~= points_of_series_list(series@.take(0)));
    }
    let mut i: usize = 0;
    while i < ns
        invariant
            i <= ns,
            out@ == points_of_series_list(series@.take(i as int)),
        decreases ns - i,
    {
        let s = &series[i];
        let tidx = find_time_col(&s.columns);
        let vidx = find_value_col(&s.columns);
        let rows = &s.values;
        let nr: usize = rows.len();
        let ghost base = out@;
        proof {
            assert(rows@.take(0) =~= Seq::<Vec<FieldValue>>::empty());
            assert(base + points_of_rows(rows@.take(0), tidx as int, vidx as int) =~= base);
        }
        let mut k: usize = 0;
        while k < nr
            invariant
                k <= nr,
                nr == rows@.len(),
                rows@ == series@[i as int].values@,
                tidx as int == series_time_col(&series@[i as int]),
                vidx as int == series_value_col(&series@[i as int]),
                out@ == base + points_of_rows(rows@.take(k as int), tidx as int, vidx as int),
            decreases nr - k,
        {
            let ghost old_out = out@;
            let row = &rows[k];
            if tidx < row.len() && vidx < row.len() {
                let cell_t = &row[tidx];
                let cell_v = &row[vidx];
                match (cell_t, cell_v) {
                    (FieldValue::Text(ts), FieldValue::Num(v)) => {
                        match parse_rfc3339_ms(ts.as_str()) {
                            Some(ms) => {
                                out.push(TimeSeriesPoint { time_ms: ms, value: *v });
                            },
                            None => {},
                        }
                    },
                    _ => {},
                }
            }
            proof {
                let t = rows@.take(k + 1);
                assert(t.drop_last() =~= rows@.take(k as int));
                assert(t.last() == rows@[k as int]);
                assert(out@ =~= base + points_of_rows(t, tidx as int, vidx as int));
            }
            k += 1;
        }
        proof {
            assert(rows@.take(nr as int) =~= rows@);
            let t = series@.take(i + 1);
            assert(t.drop_last() =~= series@.take(i as int));
            assert(t.last() == series@[i as int]);
            assert(out@ =~= points_of_series_list(t));
        }
        i += 1;
    }
    proof {
        assert(series@.take(ns as int) =~= series@);
    }
    if out.len() > max_points {
        downsample(out, max_points)
    } else {
        out
    }
}

} // verus!
