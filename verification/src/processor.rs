//! Delimiter detection and table loading.

use vstd::prelude::*;
use crate::csv_data::CSVData;
use crate::csv_data::clone_fields;

verus! {

/// How many leading records the delimiter detector samples.
pub const SAMPLE_RECORDS: usize = 5;

/// What the CSV tokenizer produces from `data` when splitting on `delimiter`:
/// the parsed records in order, each either its sequence of field values or
/// `None` for a record that failed to parse.  The tokenizer's quoting and
/// escaping rules are not restated here; the result is a function of the two
/// arguments alone.
pub uninterp spec fn csv_records_of(data: Seq<u8>, delimiter: u8) -> Seq<Option<Seq<Seq<char>>>>;

/// Relies on csv::ReaderBuilder (has_headers off, the given delimiter) and
/// csv::Reader::into_records: parses the bytes into string records with
/// standard CSV quoting; a record that fails to parse (for example one whose
/// field count differs from the first record's) comes out as `None`.
#[verifier::external_body]
fn parse_csv_records(data: &Vec<u8>, delimiter: u8) -> (records: Vec<Option<Vec<String>>>)
    ensures
        records.deep_view() == csv_records_of(data@, delimiter),
{
    let reader = csv::ReaderBuilder::new()
        .has_headers(false)
        .delimiter(delimiter)
        .from_reader(data.as_slice());
    reader
        .into_records()
        .map(|record| record.ok().map(|r| r.iter().map(|field| field.to_string()).collect()))
        .collect()
}

/// Whether `c` is one of the delimiter candidates, in detection order:
/// comma, semicolon, tab, pipe, slash, backslash.
pub open spec fn is_candidate(c: char) -> bool {
    c == ',' || c == ';' || c == '\t' || c == '|' || c == '/' || c == '\\'
}

/// The delimiter byte that a candidate character stands for.
pub open spec fn delim_byte(c: char) -> u8 {
    if c == ';' {
        ';' as u8
    } else if c == '\t' {
        '\t' as u8
    } else if c == '|' {
        '|' as u8
    } else if c == '/' {
        '/' as u8
    } else if c == '\\' {
        '\\' as u8
    } else {
        ',' as u8
    }
}

/// How often `c` occurs in `s`.
pub open spec fn count_char(s: Seq<char>, c: char) -> nat
    decreases s.len(),
{
    if s.len() == 0 {
        0
    } else {
        count_char(s.drop_last(), c) + (if s.last() == c { 1nat } else { 0 })
    }
}

/// How often `c` occurs within the field contents of one record.
pub open spec fn count_in_record(fields: Seq<Seq<char>>, c: char) -> nat
    decreases fields.len(),
{
    if fields.len() == 0 {
        0
    } else {
        count_in_record(fields.drop_last(), c) + count_char(fields.last(), c)
    }
}

/// How often `c` occurs within one sampled record; a record that failed to
/// parse contributes nothing.
pub open spec fn count_in_opt(record: Option<Seq<Seq<char>>>, c: char) -> nat {
    match record {
        Some(fields) => count_in_record(fields, c),
        None => 0,
    }
}

/// The total number of occurrences of `c` within the field contents of
/// `records`.
pub open spec fn total_count(records: Seq<Option<Seq<Seq<char>>>>, c: char) -> nat
    decreases records.len(),
{
    if records.len() == 0 {
        0
    } else {
        total_count(records.drop_last(), c) + count_in_opt(records.last(), c)
    }
}

/// The records the detector samples: the first `SAMPLE_RECORDS` of them.
pub open spec fn sample(records: Seq<Option<Seq<Seq<char>>>>) -> Seq<Option<Seq<Seq<char>>>> {
    if records.len() <= SAMPLE_RECORDS {
        records
    } else {
        records.take(SAMPLE_RECORDS as int)
    }
}

/// A count as the detector's accumulator holds it: saturated at `usize::MAX`.
pub open spec fn capped(n: nat) -> nat {
    if n <= usize::MAX {
        n
    } else {
        usize::MAX as nat
    }
}

/// The total occurrence count of candidate `c` over the sampled records, as
/// accumulated in a `usize`.
pub open spec fn capped_total(records: Seq<Option<Seq<Seq<char>>>>, c: char) -> nat {
    capped(total_count(sample(records), c))
}

/// The candidate the detector picks for `records`: the one whose sampled
/// total is strictly highest, ties and the all-zero case going to the
/// earliest candidate in detection order (so comma is the default).
pub open spec fn spec_detect(records: Seq<Option<Seq<Seq<char>>>>) -> char {
    let t_semi = capped_total(records, ';');
    let t_tab = capped_total(records, '\t');
    let t_pipe = capped_total(records, '|');
    let t_slash = capped_total(records, '/');
    let t_back = capped_total(records, '\\');
    let b0 = ',';
    let t0 = capped_total(records, ',');
    let b1 = if t_semi > t0 { ';' } else { b0 };
    let t1 = if t_semi > t0 { t_semi } else { t0 };
    let b2 = if t_tab > t1 { '\t' } else { b1 };
    let t2 = if t_tab > t1 { t_tab } else { t1 };
    let b3 = if t_pipe > t2 { '|' } else { b2 };
    let t3 = if t_pipe > t2 { t_pipe } else { t2 };
    let b4 = if t_slash > t3 { '/' } else { b3 };
    let t4 = if t_slash > t3 { t_slash } else { t3 };
    if t_back > t4 { '\\' } else { b4 }
}

/// Counts the occurrences of `c` in `s`.
fn count_char_in_str(s: &str, c: char) -> (n: usize)
    ensures
        n == count_char(s@, c),
{
    let len = s.unicode_len();
    let mut n: usize = 0;
    let mut i: usize = 0;
    while i < len
        invariant
            i <= len,
            len == s@.len(),
            n == count_char(s@.take(i as int), c),
            n <= i,
        decreases len - i,
    {
        proof {
            assert(s@.take(i + 1).drop_last() =~= s@.take(i as int));
            assert(s@.take(i + 1).last() == s@[i as int]);
        }
        if s.get_char(i) == c {
            n = n + 1;
        }
        i = i + 1;
    }
    proof {
        assert(s@.take(len as int) =~= s@);
    }
    n
}

/// Counts the occurrences of `c` within the fields of one record.
fn count_in_fields(fields: &Vec<String>, c: char) -> (n: usize)
    ensures
        n == capped(count_in_record(fields.deep_view(), c)),
{
    let mut n: usize = 0;
    let mut i: usize = 0;
    while i < fields.len()
        invariant
            i <= fields.len(),
            n == capped(count_in_record(fields.deep_view().take(i as int), c)),
        decreases fields.len() - i,
    {
        proof {
            assert(fields.deep_view().take(i + 1).drop_last() =~= fields.deep_view().take(
                i as int,
            ));
            assert(fields.deep_view().take(i + 1).last() == fields.deep_view()[i as int]);
            assert(fields.deep_view()[i as int] == fields@[i as int]@);
        }
        let m = count_char_in_str(fields[i].as_str(), c);
        n = if n <= usize::MAX - m {
            n + m
        } else {
            usize::MAX
        };
        i = i + 1;
    }
    proof {
        assert(fields.deep_view().take(fields.len() as int) =~= fields.deep_view());
    }
    n
}

/// Counts the occurrences of candidate `c` over the sampled records.
fn count_in_sample(records: &Vec<Option<Vec<String>>>, c: char) -> (n: usize)
    ensures
        n == capped_total(records.deep_view(), c),
{
    let end = if records.len() < SAMPLE_RECORDS {
        records.len()
    } else {
        SAMPLE_RECORDS
    };
    proof {
        assert(sample(records.deep_view()) =~= records.deep_view().take(end as int));
    }
    let mut n: usize = 0;
    let mut i: usize = 0;
    while i < end
        invariant
            i <= end,
            end <= records.len(),
            records.deep_view().len() == records@.len(),
            n == capped(total_count(records.deep_view().take(i as int), c)),
        decreases end - i,
    {
        proof {
            assert(records.deep_view().take(i + 1).drop_last() =~= records.deep_view().take(
                i as int,
            ));
            assert(records.deep_view().take(i + 1).last() == records.deep_view()[i as int]);
        }
        let m = match &records[i] {
            Some(fields) => count_in_fields(fields, c),
            None => 0,
        };
        n = if n <= usize::MAX - m {
            n + m
        } else {
            usize::MAX
        };
        i = i + 1;
    }
    n
}

/// Picks the delimiter for a set of already-tokenized sample records: the
/// candidate byte occurring strictly most often within the sampled field
/// contents, comma when the counts tie or are all zero.
pub fn detect_from_sample(records: &Vec<Option<Vec<String>>>) -> (d: u8)
    ensures
        d == delim_byte(spec_detect(records.deep_view())),
{
    let t_comma = count_in_sample(records, ',');
    let t_semi = count_in_sample(records, ';');
    let t_tab = count_in_sample(records, '\t');
    let t_pipe = count_in_sample(records, '|');
    let t_slash = count_in_sample(records, '/');
    let t_back = count_in_sample(records, '\\');
    let mut best: char = ',';
    let mut best_total: usize = t_comma;
    if t_semi > best_total {
        best = ';';
        best_total = t_semi;
    }
    if t_tab > best_total {
        best = '\t';
        best_total = t_tab;
    }
    if t_pipe > best_total {
        best = '|';
        best_total = t_pipe;
    }
    if t_slash > best_total {
        best = '/';
        best_total = t_slash;
    }
    if t_back > best_total {
        best = '\\';
    }
    if best == ';' {
        ';' as u8
    } else if best == '\t' {
        '\t' as u8
    } else if best == '|' {
        '|' as u8
    } else if best == '/' {
        '/' as u8
    } else if best == '\\' {
        '\\' as u8
    } else {
        ',' as u8
    }
}

proof fn lemma_total_strict(records: Seq<Option<Seq<Seq<char>>>>, d: char, c: char)
    requires
        records.len() > 0,
        forall|k: int|
            0 <= k < records.len() ==> count_in_opt(#[trigger] records[k], d) > count_in_opt(
                records[k],
                c,
            ),
    ensures
        total_count(records, d) > total_count(records, c),
    decreases records.len(),
{
    let rest = records.drop_last();
    assert(records.last() == records[records.len() - 1]);
    if records.len() == 1 {
        assert(total_count(rest, d) == 0);
        assert(total_count(rest, c) == 0);
    } else {
        assert(forall|k: int| 0 <= k < rest.len() ==> #[trigger] rest[k] == records[k]);
        lemma_total_strict(rest, d, c);
    }
}

proof fn lemma_total_zero(records: Seq<Option<Seq<Seq<char>>>>, c: char)
    requires
        forall|k: int| 0 <= k < records.len() ==> count_in_opt(#[trigger] records[k], c) == 0,
    ensures
        total_count(records, c) == 0,
    decreases records.len(),
{
    if records.len() > 0 {
        let rest = records.drop_last();
        assert(records.last() == records[records.len() - 1]);
        assert(forall|k: int| 0 <= k < rest.len() ==> #[trigger] rest[k] == records[k]);
        lemma_total_zero(rest, c);
    }
}

/// When every sampled record parses and contains the candidate `d` strictly
/// more often than every other candidate, the detector picks `d` — provided
/// at least one record was sampled and `d`'s total does not overflow the
/// detector's counter.
pub proof fn lemma_dominant_delimiter(records: Seq<Option<Seq<Seq<char>>>>, d: char)
    requires
        is_candidate(d),
        sample(records).len() > 0,
        forall|k: int| 0 <= k < sample(records).len() ==> (#[trigger] sample(records)[k]) is Some,
        forall|k: int, c: char|
            0 <= k < sample(records).len() && is_candidate(c) && c != d ==> count_in_opt(
                sample(records)[k],
                d,
            ) > #[trigger] count_in_opt(sample(records)[k], c),
        total_count(sample(records), d) <= usize::MAX,
    ensures
        spec_detect(records) == d,
{
    let s = sample(records);
    assert(is_candidate(',') && is_candidate(';') && is_candidate('\t') && is_candidate('|')
        && is_candidate('/') && is_candidate('\\'));
    if d != ',' {
        lemma_total_strict(s, d, ',');
    }
    if d != ';' {
        lemma_total_strict(s, d, ';');
    }
    if d != '\t' {
        lemma_total_strict(s, d, '\t');
    }
    if d != '|' {
        lemma_total_strict(s, d, '|');
    }
    if d != '/' {
        lemma_total_strict(s, d, '/');
    }
    if d != '\\' {
        lemma_total_strict(s, d, '\\');
    }
}

/// When the sampled records are empty or contain none of the candidate bytes,
/// the detector falls back to the comma default.
pub proof fn lemma_default_delimiter(records: Seq<Option<Seq<Seq<char>>>>)
    requires
        forall|k: int, c: char|
            0 <= k < sample(records).len() && is_candidate(c) ==> #[trigger] count_in_opt(
                sample(records)[k],
                c,
            ) == 0,
    ensures
        spec_detect(records) == ',',
        delim_byte(spec_detect(records)) == ',' as u8,
{
    let s = sample(records);
    assert(is_candidate(',') && is_candidate(';') && is_candidate('\t') && is_candidate('|')
        && is_candidate('/') && is_candidate('\\'));
    lemma_total_zero(s, ',');
    lemma_total_zero(s, ';');
    lemma_total_zero(s, '\t');
    lemma_total_zero(s, '|');
    lemma_total_zero(s, '/');
    lemma_total_zero(s, '\\');
}

/// The fields of a parsed record; a record that failed to parse is kept as an
/// empty row so that row positions are preserved.
pub open spec fn row_of(record: Option<Seq<Seq<char>>>) -> Seq<Seq<char>> {
    match record {
        Some(fields) => fields,
        None => Seq::empty(),
    }
}

/// The header a record sequence yields: the first record, empty when there is
/// none or it failed to parse.
pub open spec fn table_header(records: Seq<Option<Seq<Seq<char>>>>) -> Seq<Seq<char>> {
    if records.len() > 0 {
        row_of(records[0])
    } else {
        Seq::empty()
    }
}

/// The content rows a record sequence yields: every record after the first.
pub open spec fn table_rows(records: Seq<Option<Seq<Seq<char>>>>) -> Seq<Seq<Seq<char>>> {
    if records.len() > 0 {
        records.skip(1).map_values(|record| row_of(record))
    } else {
        Seq::empty()
    }
}

/// Reads the file content as delimited records and infers the delimiter.
pub struct CSVProcessor {
    pub delimiter: u8,
}

impl CSVProcessor {
    /// Builds a processor with the default delimiter, comma.
    pub fn new() -> (processor: CSVProcessor)
        ensures
            processor.delimiter == ',' as u8,
    {
        CSVProcessor { delimiter: ',' as u8 }
    }

    /// Infers the field delimiter of the given raw file content: the
    /// candidate byte occurring strictly most often within the field contents
    /// of the first records, as tokenized with the default comma delimiter.
    /// Unreadable content (`None`) degrades to the comma default.
    pub fn detect_delimiter(&self, content: &Option<Vec<u8>>) -> (d: u8)
        ensures
            (match content {
                Some(bytes) => d == delim_byte(spec_detect(csv_records_of(bytes@, ',' as u8))),
                None => d == ',' as u8,
            }),
    {
        match content {
            Some(bytes) => {
                let records = parse_csv_records(bytes, ',' as u8);
                detect_from_sample(&records)
            },
            None => ',' as u8,
        }
    }

    /// Splits already-tokenized records into a table: the first record (if
    /// any) becomes the header, every later one a content row, with a record
    /// that failed to parse kept as an empty row.
    pub fn to_csv_data_type(&self, records: &Vec<Option<Vec<String>>>) -> (data: CSVData)
        ensures
            data.header_view() == table_header(records.deep_view()),
            data.rows_view() == table_rows(records.deep_view()),
    {
        let mut header: Vec<String> = Vec::new();
        if records.len() > 0 {
            match &records[0] {
                Some(fields) => {
                    header = clone_fields(fields);
                },
                None => {},
            }
        }
        proof {
            if records@.len() > 0 {
                assert(records.deep_view()[0] == records@[0].deep_view());
            }
            assert(header.deep_view() =~= table_header(records.deep_view()));
        }
        let mut content: Vec<Vec<String>> = Vec::new();
        let mut i: usize = 1;
        while i < records.len()
            invariant
                1 <= i,
                i <= records@.len() || i == 1,
                content@.len() == i - 1,
                forall|k: int|
                    0 <= k < i - 1 ==> (#[trigger] content@[k]).deep_view() == row_of(
                        records.deep_view()[k + 1],
                    ),
            decreases records.len() - i,
        {
            let mut row: Vec<String> = Vec::new();
            match &records[i] {
                Some(fields) => {
                    row = clone_fields(fields);
                },
                None => {},
            }
            proof {
                assert(records.deep_view()[i as int] == records@[i as int].deep_view());
                assert(row.deep_view() =~= row_of(records.deep_view()[i as int]));
            }
            let ghost prev = content@;
            content.push(row);
            proof {
                assert(forall|k: int| 0 <= k < prev.len() ==> #[trigger] content@[k] == prev[k]);
            }
            i = i + 1;
        }
        proof {
            let rv = records.deep_view();
            assert forall|k: int|
                0 <= k < content@.len() implies content.deep_view()[k] == table_rows(rv)[k] by {
                assert(content.deep_view()[k] == content@[k].deep_view());
                assert(rv.skip(1)[k] == rv[k + 1]);
                assert(table_rows(rv)[k] == row_of(rv.skip(1)[k]));
            };
            assert(content.deep_view() =~= table_rows(records.deep_view()));
        }
        CSVData { header, content }
    }

    /// Loads raw file content into a table: infers the delimiter, remembers
    /// it, and parses the content with it, the first record becoming the
    /// header.  Unreadable content (`None`) degrades to the empty table and
    /// the comma default instead of failing the load.
    pub fn read_csv(&mut self, content: &Option<Vec<u8>>) -> (data: CSVData)
        ensures
            (match content {
                Some(bytes) => {
                    let d = delim_byte(spec_detect(csv_records_of(bytes@, ',' as u8)));
                    &&& final(self).delimiter == d
                    &&& data.header_view() == table_header(csv_records_of(bytes@, d))
                    &&& data.rows_view() == table_rows(csv_records_of(bytes@, d))
                },
                None => {
                    &&& final(self).delimiter == ',' as u8
                    &&& data.header_view() == Seq::<Seq<char>>::empty()
                    &&& data.rows_view() == Seq::<Seq<Seq<char>>>::empty()
                },
            }),
    {
        self.delimiter = self.detect_delimiter(content);
        match content {
            Some(bytes) => {
                let records = parse_csv_records(bytes, self.delimiter);
                self.to_csv_data_type(&records)
            },
            None => {
                let data = CSVData::new();
                proof {
                    assert(data.header_view() =~= Seq::<Seq<char>>::empty());
                    assert(data.rows_view() =~= Seq::<Seq<Seq<char>>>::empty());
                }
                data
            },
        }
    }
}

} // verus!
