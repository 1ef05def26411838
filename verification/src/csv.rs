//! Rows of the kline and tick CSV files: a line is trimmed, split on commas
//! and its timestamp read; the price and volume fields are handed on as text.
use vstd::prelude::*;

verus! {

#[verifier::external_type_specification]
#[verifier::external_body]
pub struct ExParseIntError(std::num::ParseIntError);

#[verifier::external_type_specification]
#[verifier::external_body]
pub struct ExParseFloatError(std::num::ParseFloatError);

#[verifier::external_type_specification]
#[verifier::external_body]
pub struct ExPathBuf(std::path::PathBuf);

/// CSV file failure.
#[derive(Debug)]
pub enum CsvParseError {
    InvalidHeader(usize),
    ParseError(usize, String),
    FileNotFoundError(std::path::PathBuf),
    EmptyFile,
}

/// Kline CSV failure; rows read `timestamp_ms,open,high,low,close,volume,instrument_id`.
#[derive(Debug)]
pub enum KlineCsvError {
    InvalidData(usize),
    ParseError(usize, String),
    FileNotFoundError(std::path::PathBuf),
    EmptyFile,
    ParseNum(std::num::ParseIntError),
    ParseFloat(std::num::ParseFloatError),
}

/// Tick CSV failure; rows read `timestamp_ms,price,volume,instrument_id`.
#[derive(Debug)]
pub enum TickCsvError {
    InvalidData(usize),
    ParseError(usize, String),
    FileNotFoundError(std::path::PathBuf),
    EmptyFile,
    ParseNum(std::num::ParseIntError),
    ParseFloat(std::num::ParseFloatError),
}

/// Where CSV files are looked for, and with which extensions.
pub struct CsvParser {
    data_dir: std::path::PathBuf,
    file_extensions: Vec<String>,
}

impl CsvParser {
    /// The extensions searched for.
    pub closed spec fn extensions(&self) -> Seq<String> {
        self.file_extensions@
    }

    /// The directory searched.
    pub closed spec fn directory(&self) -> std::path::PathBuf {
        self.data_dir
    }

    /// A parser for `data_dir` that looks for `.csv` files.
    pub fn with_data_dir(data_dir: std::path::PathBuf) -> (r: Self)
        ensures
            r.directory() == data_dir,
            r.extensions().len() == 1,
            r.extensions()[0]@ == "csv"@,
    {
        Self { data_dir, file_extensions: vec![String::from_str("csv")] }
    }

    /// Looks for files with `extensions` in place of the current ones.
    pub fn with_extensions(&mut self, extensions: Vec<String>)
        ensures
            final(self).extensions() == extensions@,
            final(self).directory() == old(self).directory(),
    {
        self.file_extensions = extensions;
    }

    /// The directory searched.
    pub fn data_dir(&self) -> (r: &std::path::PathBuf)
        ensures
            *r == self.directory(),
    {
        &self.data_dir
    }

    /// The extensions searched for.
    pub fn file_extensions(&self) -> (r: &Vec<String>)
        ensures
            r@ == self.extensions(),
    {
        &self.file_extensions
    }
}

/// `c` has the Unicode `White_Space` property, as `char::is_whitespace`
/// reads it.
pub open spec fn is_space(c: char) -> bool {
    ||| c == ' '
    ||| ('\u{9}' <= c && c <= '\u{d}')
    ||| c == '\u{85}'
    ||| c == '\u{a0}'
    ||| c == '\u{1680}'
    ||| ('\u{2000}' <= c && c <= '\u{200a}')
    ||| c == '\u{2028}'
    ||| c == '\u{2029}'
    ||| c == '\u{202f}'
    ||| c == '\u{205f}'
    ||| c == '\u{3000}'
}

/// `s` without its leading whitespace.
pub open spec fn trim_start(s: Seq<char>) -> Seq<char>
    decreases s.len(),
{
    if s.len() > 0 && is_space(s[0]) {
        trim_start(s.drop_first())
    } else {
        s
    }
}

/// `s` without its trailing whitespace.
pub open spec fn trim_end_space(s: Seq<char>) -> Seq<char>
    decreases s.len(),
{
    if s.len() > 0 && is_space(s.last()) {
        trim_end_space(s.drop_last())
    } else {
        s
    }
}

/// `s` without leading and trailing whitespace, as `str::trim` gives it.
pub open spec fn trimmed(s: Seq<char>) -> Seq<char> {
    trim_end_space(trim_start(s))
}

/// Position of the first `sep` at or after `from`, or `-1`.
pub open spec fn sep_from(s: Seq<char>, sep: char, from: int) -> int
    decreases s.len() - from,
{
    if from < 0 || from >= s.len() {
        -1
    } else if s[from] == sep {
        from
    } else {
        sep_from(s, sep, from + 1)
    }
}

/// The pieces of `s` between the separators `sep`, as `str::split` gives
/// them: one more piece than there are separators.
pub open spec fn split_on(s: Seq<char>, sep: char) -> Seq<Seq<char>>
    decreases s.len(),
{
    let i = sep_from(s, sep, 0);
    if i < 0 || i >= s.len() {
        seq![s]
    } else {
        seq![s.subrange(0, i)] + split_on(s.subrange(i + 1, s.len() as int), sep)
    }
}

/// The value of a non-empty run of ASCII digits.
pub open spec fn digits_value(d: Seq<char>) -> int
    decreases d.len(),
{
    if d.len() == 0 {
        0
    } else {
        digits_value(d.drop_last()) * 10 + (d.last() as int - '0' as int)
    }
}

/// `d` is a non-empty run of ASCII digits.
pub open spec fn all_digits(d: Seq<char>) -> bool {
    d.len() > 0 && forall|i: int| 0 <= i < d.len() ==> '0' <= #[trigger] d[i] && d[i] <= '9'
}

/// The integer a text writes as an optional sign followed by ASCII digits,
/// the form `str::parse` reads integers in.
pub open spec fn signed_decimal(s: Seq<char>) -> Option<int> {
    if s.len() > 0 && (s[0] == '+' || s[0] == '-') {
        if all_digits(s.drop_first()) {
            Some(
                if s[0] == '-' {
                    -digits_value(s.drop_first())
                } else {
                    digits_value(s.drop_first())
                },
            )
        } else {
            None
        }
    } else if all_digits(s) {
        Some(digits_value(s))
    } else {
        None
    }
}

/// The `i64` a text holds: a signed decimal within range.
pub open spec fn i64_text(s: Seq<char>) -> Option<i64> {
    match signed_decimal(s) {
        Some(v) => if i64::MIN <= v <= i64::MAX {
            Some(v as i64)
        } else {
            None
        },
        None => None,
    }
}

/// `str::parse::<i64>`: succeeds exactly on an optional `+` or `-` followed
/// by ASCII digits whose value fits in an `i64`, and gives that value.
#[verifier::external_body]
fn parse_i64(s: &str) -> (r: Result<i64, std::num::ParseIntError>)
    ensures
        match i64_text(s@) {
            Some(v) => r == Ok::<i64, std::num::ParseIntError>(v),
            None => r is Err,
        },
{
    s.parse::<i64>()
}

/// Whether `c` is whitespace.
fn space_char(c: char) -> (r: bool)
    ensures
        r == is_space(c),
{
    c == ' ' || ('\u{9}' <= c && c <= '\u{d}') || c == '\u{85}' || c == '\u{a0}' || c == '\u{1680}'
        || ('\u{2000}' <= c && c <= '\u{200a}') || c == '\u{2028}' || c == '\u{2029}' || c == '\u{202f}'
        || c == '\u{205f}' || c == '\u{3000}'
}

proof fn lemma_trim_start_skip(s: Seq<char>, i: int)
    requires
        0 <= i <= s.len(),
        forall|j: int| 0 <= j < i ==> is_space(#[trigger] s[j]),
    ensures
        trim_start(s) == trim_start(s.skip(i)),
    decreases i,
{
    if i > 0 {
        assert(s.skip(1) =~= s.drop_first());
        lemma_trim_start_skip(s.drop_first(), i - 1);
        assert(s.drop_first().skip(i - 1) =~= s.skip(i));
    } else {
        assert(s.skip(0) =~= s);
    }
}

proof fn lemma_trim_end_take(s: Seq<char>, i: int)
    requires
        0 <= i <= s.len(),
        forall|j: int| i <= j < s.len() ==> is_space(#[trigger] s[j]),
    ensures
        trim_end_space(s) == trim_end_space(s.take(i)),
    decreases s.len() - i,
{
    if i < s.len() {
        lemma_trim_end_take(s.drop_last(), i);
        assert(s.drop_last().take(i) =~= s.take(i));
    } else {
        assert(s.take(i) =~= s);
    }
}

/// `s` without leading and trailing whitespace.
pub fn trim_text(s: &str) -> (r: &str)
    ensures
        r@ == trimmed(s@),
{
    let n = s.unicode_len();
    let mut start: usize = 0;
    while start < n && space_char(s.get_char(start))
        invariant
            n == s@.len(),
            0 <= start <= n,
            forall|j: int| 0 <= j < start ==> is_space(#[trigger] s@[j]),
        decreases n - start,
    {
        start = start + 1;
    }
    let mut end: usize = n;
    while end > start && space_char(s.get_char(end - 1))
        invariant
            n == s@.len(),
            start <= end <= n,
            forall|j: int| end <= j < n ==> is_space(#[trigger] s@[j]),
        decreases end,
    {
        end = end - 1;
    }
    proof {
        lemma_trim_start_skip(s@, start as int);
        let t = s@.skip(start as int);
        assert(start == n || !is_space(t[0]));
        assert(trim_start(t) == t);
        assert forall|j: int| end - start <= j < t.len() implies is_space(#[trigger] t[j]) by {
            assert(t[j] == s@[j + start]);
        }
        lemma_trim_end_take(t, end - start);
        let u = t.take(end - start);
        assert(u =~= s@.subrange(start as int, end as int));
        assert(end == start || !is_space(u.last()));
    }
    s.substring_char(start, end)
}

proof fn lemma_sep_from_none(s: Seq<char>, sep: char, from: int)
    requires
        0 <= from,
        forall|j: int| from <= j < s.len() ==> #[trigger] s[j] != sep,
    ensures
        sep_from(s, sep, from) == -1,
    decreases s.len() - from,
{
    if from < s.len() {
        lemma_sep_from_none(s, sep, from + 1);
    }
}

proof fn lemma_sep_from_at(s: Seq<char>, sep: char, from: int, i: int)
    requires
        0 <= from <= i < s.len(),
        s[i] == sep,
        forall|j: int| from <= j < i ==> #[trigger] s[j] != sep,
    ensures
        sep_from(s, sep, from) == i,
    decreases i - from,
{
    if from < i {
        lemma_sep_from_at(s, sep, from + 1, i);
    }
}

/// The pieces of `s` between commas.
pub fn split_commas(s: &str) -> (r: Vec<String>)
    ensures
        r@.len() == split_on(s@, ',').len(),
        forall|k: int| 0 <= k < r@.len() ==> #[trigger] r@[k]@ == split_on(s@, ',')[k],
{
    let n = s.unicode_len();
    let mut out: Vec<String> = Vec::new();
    let mut start: usize = 0;
    let mut i: usize = 0;
    let ghost mut done: Seq<Seq<char>> = Seq::empty();
    proof {
        assert(s@.subrange(0, n as int) =~= s@);
    }
    while i < n
        invariant
            n == s@.len(),
            0 <= start <= i <= n,
            out@.len() == done.len(),
            forall|k: int| 0 <= k < out@.len() ==> #[trigger] out@[k]@ == done[k],
            split_on(s@, ',') == done + split_on(s@.subrange(start as int, n as int), ','),
            forall|j: int| start <= j < i ==> #[trigger] s@[j] != ',',
        decreases n - i,
    {
        if s.get_char(i) == ',' {
            let piece = s.substring_char(start, i).to_owned();
            proof {
                let rest = s@.subrange(start as int, n as int);
                lemma_sep_from_at(rest, ',', 0, i - start);
                assert(rest.subrange(0, i - start) =~= piece@);
                assert(rest.subrange(i - start + 1, rest.len() as int) =~= s@.subrange(i + 1, n as int));
                assert(split_on(rest, ',') == seq![piece@] + split_on(s@.subrange(i + 1, n as int), ','));
                done = done.push(piece@);
            }
            out.push(piece);
            proof {
                assert(split_on(s@, ',') =~= done + split_on(s@.subrange(i + 1, n as int), ','));
            }
            start = i + 1;
        }
        i = i + 1;
    }
    let last = s.substring_char(start, n).to_owned();
    proof {
        let rest = s@.subrange(start as int, n as int);
        lemma_sep_from_none(rest, ',', 0);
        assert(split_on(rest, ',') == seq![rest]);
        done = done.push(last@);
    }
    out.push(last);
    proof {
        assert(split_on(s@, ',') =~= done);
    }
    out
}

/// The fields of a kline row, the prices and volume still as text.
pub struct KlineFields {
    pub timestamp_ms: i64,
    pub open: String,
    pub high: String,
    pub low: String,
    pub close: String,
    pub volume: String,
    pub instrument_id: String,
}

/// The fields of a tick row, the price and volume still as text.
pub struct TickFields {
    pub timestamp_ms: i64,
    pub price: String,
    pub volume: String,
    pub instrument_id: String,
}

/// The comma-separated fields of a trimmed line.
pub open spec fn row_fields(line: Seq<char>) -> Seq<Seq<char>> {
    split_on(trimmed(line), ',')
}

/// Reads row `row_num` of a kline file: exactly seven fields, the first an
/// `i64` timestamp.
pub fn parse_kline_row(line: &str, row_num: usize) -> (r: Result<KlineFields, KlineCsvError>)
    ensures
        ({
            let f = row_fields(line@);
            if f.len() != 7 {
                r matches Err(KlineCsvError::InvalidData(n)) && n == row_num
            } else {
                match i64_text(f[0]) {
                    None => r matches Err(KlineCsvError::ParseNum(_)),
                    Some(ts) => r matches Ok(k) && k.timestamp_ms == ts && k.open@ == f[1] && k.high@ == f[2]
                        && k.low@ == f[3] && k.close@ == f[4] && k.volume@ == f[5] && k.instrument_id@ == f[6],
                }
            }
        }),
{
    let parts = split_commas(trim_text(line));
    if parts.len() != 7 {
        return Err(KlineCsvError::InvalidData(row_num));
    }
    match parse_i64(parts[0].as_str()) {
        Err(e) => Err(KlineCsvError::ParseNum(e)),
        Ok(ts) => Ok(KlineFields {
            timestamp_ms: ts,
            open: parts[1].clone(),
            high: parts[2].clone(),
            low: parts[3].clone(),
            close: parts[4].clone(),
            volume: parts[5].clone(),
            instrument_id: parts[6].clone(),
        }),
    }
}

/// Reads row `row_num` of a tick file: exactly four fields, the first an
/// `i64` timestamp.
pub fn parse_tick_row(line: &str, row_num: usize) -> (r: Result<TickFields, TickCsvError>)
    ensures
        ({
            let f = row_fields(line@);
            if f.len() != 4 {
                r matches Err(TickCsvError::InvalidData(n)) && n == row_num
            } else {
                match i64_text(f[0]) {
                    None => r matches Err(TickCsvError::ParseNum(_)),
                    Some(ts) => r matches Ok(t) && t.timestamp_ms == ts && t.price@ == f[1] && t.volume@ == f[2]
                        && t.instrument_id@ == f[3],
                }
            }
        }),
{
    let parts = split_commas(trim_text(line));
    if parts.len() != 4 {
        return Err(TickCsvError::InvalidData(row_num));
    }
    match parse_i64(parts[0].as_str()) {
        Err(e) => Err(TickCsvError::ParseNum(e)),
        Ok(ts) => Ok(TickFields {
            timestamp_ms: ts,
            price: parts[1].clone(),
            volume: parts[2].clone(),
            instrument_id: parts[3].clone(),
        }),
    }
}

} // verus!
