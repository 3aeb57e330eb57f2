//! Code tables: column titles plus rows of string cells, with lookups keyed by
//! exact values, inclusive numeric ranges and a descriptive subtitle column.
use vstd::prelude::*;

use crate::text::{
    chars_of, contains_str, find_from, first_from, is_substring, lemma_first_from_bounds,
    lemma_text_lt_asymmetric, lemma_text_lt_total, lemma_text_lt_transitive, matches_at,
    parse_nat, parse_nat_at, same_text, text_less, text_lt,
};

verus! {

/// What the csv crate reads from `bytes`, with no header row and records of
/// any length: every record as its fields, or nothing when a field is not
/// valid UTF-8.
pub uninterp spec fn csv_records_of(bytes: Seq<u8>) -> Option<Seq<Seq<Seq<char>>>>;

pub open spec fn strings_view(v: Seq<String>) -> Seq<Seq<char>> {
    v.map_values(|s: String| s@)
}

pub open spec fn records_view(v: Seq<Vec<String>>) -> Seq<Seq<Seq<char>>> {
    v.map_values(|r: Vec<String>| strings_view(r@))
}

/// Relies on csv::Reader::records, reading without a header row and
/// accepting records of differing lengths: the records in input order, each
/// as its fields; `None` when the reader reports an error.
#[verifier::external_body]
fn read_csv_records(bytes: &[u8]) -> (r: Option<Vec<Vec<String>>>)
    ensures
        r is None <==> csv_records_of(bytes@) is None,
        r matches Some(v) ==> csv_records_of(bytes@) == Some(records_view(v@)),
{
    let mut reader = csv::ReaderBuilder::new().has_headers(false).flexible(true).from_reader(bytes);
    let mut out: Vec<Vec<String>> = Vec::new();
    for record in reader.records() {
        out.push(record.ok()?.iter().map(|f| f.to_string()).collect());
    }
    Some(out)
}

#[derive(Debug)]
pub enum CodetableLoadError {
    IOError(String),
    InvalidCSV,
}

/// The lowest index below `n` at which `p` holds, with `p` false before it.
pub open spec fn is_first(n: int, p: spec_fn(int) -> bool, i: int) -> bool {
    0 <= i < n && p(i) && forall|j: int| 0 <= j < i ==> !#[trigger] p(j)
}

/// The lowest index below `n` at which `p` holds, if any.
pub open spec fn first_where(n: int, p: spec_fn(int) -> bool) -> Option<int> {
    if exists|i: int| is_first(n, p, i) {
        Some(choose|i: int| is_first(n, p, i))
    } else {
        None
    }
}

proof fn lemma_first_where_found(n: int, p: spec_fn(int) -> bool, i: int)
    requires
        is_first(n, p, i),
    ensures
        first_where(n, p) == Some(i),
{
    let k = choose|k: int| is_first(n, p, k);
    assert(is_first(n, p, k));
    if k < i {
        assert(!p(k));
    }
    if i < k {
        assert(!p(i));
    }
}

proof fn lemma_first_where_none(n: int, p: spec_fn(int) -> bool)
    requires
        forall|j: int| 0 <= j < n ==> !#[trigger] p(j),
    ensures
        first_where(n, p) is None,
{
    if exists|i: int| is_first(n, p, i) {
        let k = choose|k: int| is_first(n, p, k);
        assert(!p(k));
    }
}

proof fn lemma_first_where_some(n: int, p: spec_fn(int) -> bool)
    ensures
        first_where(n, p) matches Some(i) ==> is_first(n, p, i),
{
}

/// Index of the first title equal to `name`.
pub open spec fn title_index(h: Seq<Seq<char>>, name: Seq<char>) -> Option<int> {
    first_where(h.len() as int, |i: int| h[i] == name)
}

/// Index of the first title that contains `k`.
pub open spec fn title_containing(h: Seq<Seq<char>>, k: Seq<char>) -> Option<int> {
    first_where(h.len() as int, |i: int| is_substring(k, h[i]))
}

pub open spec fn template_key() -> Seq<char> {
    "OctetNo"@
}

pub open spec fn flag_key() -> Seq<char> {
    "CodeFlag"@
}

/// A table is a template table exactly when one of its titles is `OctetNo`.
pub open spec fn is_template_header(h: Seq<Seq<char>>) -> bool {
    h.contains(template_key())
}

/// The name of the column whose cells are the codepoints of a table.
pub open spec fn key_name(h: Seq<Seq<char>>) -> Seq<char> {
    if is_template_header(h) {
        template_key()
    } else {
        flag_key()
    }
}

/// The inclusive bounds a key cell stands for: `lo-hi`, or a single value.
pub open spec fn key_bounds(cell: Seq<char>) -> Option<(int, int)> {
    let k = first_from(cell, '-', 0);
    if k < cell.len() {
        match (parse_nat(cell.subrange(0, k)), parse_nat(cell.subrange(k + 1, cell.len() as int))) {
            (Some(lo), Some(hi)) => Some((lo, hi)),
            _ => None,
        }
    } else {
        match parse_nat(cell) {
            Some(v) => Some((v, v)),
            None => None,
        }
    }
}

/// Whether `cp` lies within the bounds that `cell` stands for.
pub open spec fn key_matches(cell: Seq<char>, cp: int) -> bool {
    match key_bounds(cell) {
        Some((lo, hi)) => lo <= cp && cp <= hi,
        None => false,
    }
}

/// The first row whose key cell in column `kc` covers `cp`.
pub open spec fn first_key_row(rows: Seq<Seq<Seq<char>>>, kc: int, cp: int) -> Option<int> {
    first_where(rows.len() as int, |i: int| key_matches(rows[i][kc], cp))
}

/// The value that a codepoint lookup yields on a table of header `h` and
/// rows `rows`.
pub open spec fn codepoint_lookup_spec(
    h: Seq<Seq<char>>,
    rows: Seq<Seq<Seq<char>>>,
    cp: int,
    param: Seq<char>,
) -> Option<Seq<char>> {
    match (title_containing(h, key_name(h)), title_index(h, param)) {
        (Some(kc), Some(oc)) => match first_key_row(rows, kc, cp) {
            Some(i) => Some(rows[i][oc]),
            None => None,
        },
        _ => None,
    }
}

pub open spec fn lit_at(s: Seq<char>, pos: int, lit: Seq<char>) -> bool {
    0 <= pos && pos + lit.len() <= s.len() && s.subrange(pos, pos + lit.len()) == lit
}

pub open spec fn subtitle_lead() -> Seq<char> {
    "Product discipline "@
}

pub open spec fn subtitle_dash() -> Seq<char> {
    " - "@
}

pub open spec fn subtitle_category() -> Seq<char> {
    ", parameter category "@
}

pub open spec fn subtitle_colon() -> Seq<char> {
    ": "@
}

/// The discipline and parameter category written in a subtitle of the form
/// `Product discipline {D} - {name}, parameter category {C}: {name}`.
/// `D` runs to the first space, the first name to the first comma, and `C`
/// to the first colon after it.
pub open spec fn subtitle_codes(s: Seq<char>) -> Option<(int, int)> {
    let a = subtitle_lead().len() as int;
    let b = first_from(s, ' ', a);
    let c = b + subtitle_dash().len();
    let d = first_from(s, ',', c);
    let e = d + subtitle_category().len();
    let f = first_from(s, ':', e);
    if lit_at(s, 0, subtitle_lead()) && lit_at(s, b, subtitle_dash()) && lit_at(
        s,
        d,
        subtitle_category(),
    ) && lit_at(s, f, subtitle_colon()) {
        match (parse_nat(s.subrange(a, b)), parse_nat(s.subrange(e, f))) {
            (Some(x), Some(y)) => Some((x, y)),
            _ => None,
        }
    } else {
        None
    }
}

/// Whether a row of the parameter table describes codepoint `cp` of
/// discipline `disc` and category `cat`.
pub open spec fn parameter_row_matches(
    row: Seq<Seq<char>>,
    fc: int,
    sc: int,
    disc: int,
    cat: int,
    cp: int,
) -> bool {
    key_matches(row[fc], cp) && subtitle_codes(row[sc]) == Some((disc, cat))
}

/// The (meaning, unit) pair that a parameter lookup yields.
pub open spec fn parameter_lookup_spec(
    h: Seq<Seq<char>>,
    rows: Seq<Seq<Seq<char>>>,
    disc: int,
    cat: int,
    cp: int,
) -> Option<(Seq<char>, Seq<char>)> {
    match (
        title_containing(h, "CodeFlag"@),
        title_containing(h, "SubTitle"@),
        title_containing(h, "Meaning"@),
        title_containing(h, "Unit"@),
    ) {
        (Some(fc), Some(sc), Some(mc), Some(uc)) => match first_where(
            rows.len() as int,
            |i: int| parameter_row_matches(rows[i], fc, sc, disc, cat, cp),
        ) {
            Some(i) => Some((rows[i][mc], rows[i][uc])),
            None => None,
        },
        _ => None,
    }
}

/// The cells of column `col`, top to bottom.
pub open spec fn column_view(rows: Seq<Seq<Seq<char>>>, col: int) -> Seq<Seq<char>> {
    rows.map_values(|row: Seq<Seq<char>>| row[col])
}

/// Records read from a source make a table when every record after the
/// first has as many fields as the first.
pub open spec fn records_well_shaped(recs: Seq<Seq<Seq<char>>>) -> bool {
    forall|i: int| 1 <= i < recs.len() ==> (#[trigger] recs[i]).len() == recs[0].len()
}

#[derive(Debug)]
pub struct Codetable {
    is_template: bool,
    path: String,
    titles: Vec<String>,
    data: Vec<Vec<String>>,
}

/// Clones of each string, in order.
fn clone_strings(v: &Vec<String>) -> (r: Vec<String>)
    ensures
        r@ == v@,
{
    let mut r: Vec<String> = Vec::new();
    let mut i: usize = 0;
    while i < v.len()
        invariant
            i <= v@.len(),
            r@ == v@.take(i as int),
        decreases v@.len() - i,
    {
        r.push(v[i].clone());
        i = i + 1;
        assert(r@ =~= v@.take(i as int));
    }
    assert(r@ =~= v@);
    r
}

impl Codetable {
    #[verifier::type_invariant]
    spec fn inv(self) -> bool {
        &&& self.is_template == is_template_header(strings_view(self.titles@))
        &&& forall|i: int|
            0 <= i < self.data@.len() ==> (#[trigger] self.data@[i])@.len() == self.titles@.len()
    }

    /// The column titles, in order.
    pub closed spec fn header_view(&self) -> Seq<Seq<char>> {
        strings_view(self.titles@)
    }

    /// The rows, each as its cells in column order.
    pub closed spec fn rows_view(&self) -> Seq<Seq<Seq<char>>> {
        records_view(self.data@)
    }

    pub closed spec fn path_view(&self) -> Seq<char> {
        self.path@
    }

    /// A table from records: the first record holds the column titles, the
    /// others the rows. A record whose length differs from the titles' makes
    /// the source invalid. No record at all gives an empty table.
    pub fn from_records(path: String, records: Vec<Vec<String>>) -> (r: Result<
        Codetable,
        CodetableLoadError,
    >)
        ensures
            r is Ok <==> records_well_shaped(records_view(records@)),
            r is Err ==> r matches Err(CodetableLoadError::InvalidCSV),
            r matches Ok(t) ==> {
                &&& t.path_view() == path@
                &&& records@.len() == 0 ==> t.header_view() == Seq::<Seq<char>>::empty()
                    && t.rows_view() == Seq::<Seq<Seq<char>>>::empty()
                &&& records@.len() > 0 ==> t.header_view() == records_view(records@)[0]
                    && t.rows_view() == records_view(records@).drop_first()
            },
    {
        let ghost rv = records_view(records@);
        let mut recs = records;
        if recs.len() == 0 {
            let titles: Vec<String> = Vec::new();
            let t = Codetable { is_template: false, path, titles, data: Vec::new() };
            proof {
                assert(strings_view(t.titles@) =~= Seq::<Seq<char>>::empty());
                assert(records_view(t.data@) =~= Seq::<Seq<Seq<char>>>::empty());
            }
            return Ok(t);
        }
        let titles = recs.remove(0);
        let n = titles.len();
        let mut i: usize = 0;
        while i < recs.len()
            invariant
                records_view(recs@) == rv.drop_first(),
                rv == records_view(records@),
                strings_view(titles@) == rv[0],
                n == titles@.len(),
                rv.len() == recs@.len() + 1,
                i <= recs@.len(),
                forall|j: int| 0 <= j < i ==> (#[trigger] recs@[j])@.len() == n,
            decreases recs@.len() - i,
        {
            if recs[i].len() != n {
                proof {
                    assert(rv[i + 1] == records_view(recs@)[i as int]);
                    assert(rv[i + 1].len() == recs@[i as int]@.len());
                    assert(rv[0].len() == n);
                    assert(rv[i + 1].len() != rv[0].len());
                    assert(!records_well_shaped(rv));
                }
                return Err(CodetableLoadError::InvalidCSV);
            }
            i = i + 1;
        }
        let mut is_template = false;
        let mut j: usize = 0;
        while j < titles.len()
            invariant
                j <= titles@.len(),
                is_template == strings_view(titles@).take(j as int).contains(template_key()),
            decreases titles@.len() - j,
        {
            let hit = same_text(titles[j].as_str(), "OctetNo");
            proof {
                let sv = strings_view(titles@);
                assert(sv.take(j + 1) =~= sv.take(j as int).push(sv[j as int]));
                if hit {
                    assert(sv.take(j + 1)[j as int] == template_key());
                }
                if !hit && !is_template {
                    assert forall|m: int| 0 <= m < j + 1 implies #[trigger] sv.take(j + 1)[m]
                        != template_key() by {
                        if m < j {
                            assert(sv.take(j + 1)[m] == sv.take(j as int)[m]);
                        }
                    }
                }
            }
            is_template = is_template || hit;
            j = j + 1;
        }
        proof {
            assert(strings_view(titles@).take(titles@.len() as int) =~= strings_view(titles@));
            assert forall|m: int| 1 <= m < rv.len() implies (#[trigger] rv[m]).len() == rv[0].len() by {
                assert(rv[m] == records_view(recs@)[m - 1]);
            }
        }
        Ok(Codetable { is_template, path, titles, data: recs })
    }

    /// A table from CSV text: the records that the csv crate reads from
    /// `bytes`, taken as `from_records` takes them.
    pub fn from_csv(path: String, bytes: &[u8]) -> (r: Result<Codetable, CodetableLoadError>)
        ensures
            csv_records_of(bytes@) is None ==> r matches Err(CodetableLoadError::InvalidCSV),
            csv_records_of(bytes@) is Some ==> (r is Ok <==> records_well_shaped(
                csv_records_of(bytes@)->Some_0,
            )),
            r is Err ==> r matches Err(CodetableLoadError::InvalidCSV),
            r matches Ok(t) ==> csv_records_of(bytes@) is Some && ({
                let recs = csv_records_of(bytes@)->Some_0;
                &&& t.path_view() == path@
                &&& recs.len() == 0 ==> t.header_view().len() == 0 && t.rows_view().len() == 0
                &&& recs.len() > 0 ==> t.header_view() == recs[0] && t.rows_view()
                    == recs.drop_first()
            }),
    {
        match read_csv_records(bytes) {
            None => Err(CodetableLoadError::InvalidCSV),
            Some(records) => Codetable::from_records(path, records),
        }
    }

    /// The column titles, in source order.
    pub fn header(&self) -> (r: &Vec<String>)
        ensures
            strings_view(r@) == self.header_view(),
    {
        &self.titles
    }

    /// Whether the table is keyed by `OctetNo` rather than `CodeFlag`.
    pub fn is_template(&self) -> (r: bool)
        ensures
            r == is_template_header(self.header_view()),
    {
        proof {
            use_type_invariant(self);
        }
        self.is_template
    }

    pub fn columns(&self) -> (r: usize)
        ensures
            r == self.header_view().len(),
    {
        self.titles.len()
    }

    pub fn rows(&self) -> (r: usize)
        ensures
            r == self.rows_view().len(),
    {
        self.data.len()
    }

    /// The index of the first column titled exactly `name`.
    pub fn column_index(&self, name: &str) -> (r: Option<usize>)
        ensures
            r matches Some(i) ==> title_index(self.header_view(), name@) == Some(i as int),
            r is None ==> title_index(self.header_view(), name@) is None,
    {
        let ghost h = self.header_view();
        let mut i: usize = 0;
        while i < self.titles.len()
            invariant
                h == strings_view(self.titles@),
                i <= self.titles@.len(),
                forall|j: int| 0 <= j < i ==> !(h[j] == name@),
            decreases self.titles@.len() - i,
        {
            if same_text(self.titles[i].as_str(), name) {
                proof {
                    lemma_first_where_found(h.len() as int, |i: int| h[i] == name@, i as int);
                }
                return Some(i);
            }
            i = i + 1;
        }
        proof {
            lemma_first_where_none(h.len() as int, |i: int| h[i] == name@);
        }
        None
    }

    /// A copy of row `row`.
    pub fn row(&self, row: usize) -> (r: Option<Vec<String>>)
        ensures
            r is Some <==> row < self.rows_view().len(),
            r matches Some(v) ==> strings_view(v@) == self.rows_view()[row as int],
    {
        if row < self.data.len() {
            Some(clone_strings(&self.data[row]))
        } else {
            None
        }
    }

    /// A copy of column `col`: its cell in every row, top to bottom.
    pub fn column(&self, col: usize) -> (r: Option<Vec<String>>)
        ensures
            r is Some <==> col < self.header_view().len(),
            r matches Some(v) ==> strings_view(v@) == column_view(self.rows_view(), col as int),
    {
        proof {
            use_type_invariant(self);
        }
        if col >= self.titles.len() {
            return None;
        }
        let mut out: Vec<String> = Vec::new();
        let mut i: usize = 0;
        while i < self.data.len()
            invariant
                col < self.titles@.len(),
                i <= self.data@.len(),
                forall|j: int|
                    0 <= j < self.data@.len() ==> (#[trigger] self.data@[j])@.len()
                        == self.titles@.len(),
                out@.len() == i,
                forall|k: int| 0 <= k < i ==> (#[trigger] out@[k])@ == self.rows_view()[k][col as int],
            decreases self.data@.len() - i,
        {
            let cell = self.data[i][col].clone();
            proof {
                assert(records_view(self.data@)[i as int] == strings_view(self.data@[i as int]@));
                assert(self.rows_view()[i as int][col as int] == cell@);
            }
            out.push(cell);
            i = i + 1;
        }
        proof {
            assert(strings_view(out@) =~= column_view(self.rows_view(), col as int));
        }
        Some(out)
    }

    /// The cell of column `output_column` in the first row whose cell in
    /// column `lookup_column` equals `lookup_value`.
    pub fn lookup(&self, lookup_value: String, lookup_column: usize, output_column: usize) -> (r:
        Option<String>)
        ensures
            ({
                let rows = self.rows_view();
                let valid = lookup_column < self.header_view().len() && output_column
                    < self.header_view().len();
                match first_where(
                    rows.len() as int,
                    |i: int| rows[i][lookup_column as int] == lookup_value@,
                ) {
                    Some(i) if valid => r matches Some(s) && s@ == rows[i][output_column as int],
                    _ => r is None,
                }
            }),
    {
        proof {
            use_type_invariant(self);
        }
        let ghost rows = self.rows_view();
        if lookup_column >= self.titles.len() || output_column >= self.titles.len() {
            return None;
        }
        let mut i: usize = 0;
        while i < self.data.len()
            invariant
                rows == records_view(self.data@),
                lookup_column < self.titles@.len(),
                output_column < self.titles@.len(),
                forall|j: int|
                    0 <= j < self.data@.len() ==> (#[trigger] self.data@[j])@.len()
                        == self.titles@.len(),
                i <= self.data@.len(),
                forall|j: int| 0 <= j < i ==> !(rows[j][lookup_column as int] == lookup_value@),
            decreases self.data@.len() - i,
        {
            if self.data[i][lookup_column] == lookup_value {
                proof {
                    lemma_first_where_found(rows.len() as int, |i: int| rows[i][lookup_column as int] == lookup_value@, i as int);
                }
                return Some(self.data[i][output_column].clone());
            }
            i = i + 1;
        }
        proof {
            lemma_first_where_none(rows.len() as int, |i: int| rows[i][lookup_column as int] == lookup_value@);
        }
        None
    }

    /// The first title that contains `keyword`.
    pub fn find_parameter(&self, keyword: &str) -> (r: Option<&String>)
        ensures
            match title_containing(self.header_view(), keyword@) {
                Some(i) => r matches Some(s) && s@ == self.header_view()[i],
                None => r is None,
            },
    {
        match self.column_containing(keyword) {
            Some(i) => {
                proof {
                    lemma_first_where_some(
                        self.header_view().len() as int,
                        |j: int| is_substring(keyword@, self.header_view()[j]),
                    );
                    assert(self.header_view()[i as int] == self.titles@[i as int]@);
                }
                Some(&self.titles[i])
            },
            None => None,
        }
    }

    /// The index of the first title that contains `keyword`.
    fn column_containing(&self, keyword: &str) -> (r: Option<usize>)
        ensures
            r matches Some(k) ==> title_containing(self.header_view(), keyword@) == Some(k as int),
            r is None ==> title_containing(self.header_view(), keyword@) is None,
    {
        let ghost h = self.header_view();
        let mut i: usize = 0;
        while i < self.titles.len()
            invariant
                h == strings_view(self.titles@),
                i <= self.titles@.len(),
                forall|j: int| 0 <= j < i ==> !(is_substring(keyword@, h[j])),
            decreases self.titles@.len() - i,
        {
            if contains_str(self.titles[i].as_str(), keyword) {
                proof {
                    lemma_first_where_found(h.len() as int, |i: int| is_substring(keyword@, h[i]), i as int);
                }
                return Some(i);
            }
            i = i + 1;
        }
        proof {
            lemma_first_where_none(h.len() as int, |i: int| is_substring(keyword@, h[i]));
        }
        None
    }

    /// The cell of column `kc` and row `i`.
    fn cell(&self, i: usize, kc: usize) -> (r: &String)
        requires
            i < self.rows_view().len(),
            kc < self.header_view().len(),
        ensures
            r@ == self.rows_view()[i as int][kc as int],
    {
        proof {
            use_type_invariant(self);
            assert(self.data@[i as int]@.len() == self.titles@.len());
            assert(self.rows_view()[i as int] == strings_view(self.data@[i as int]@));
        }
        &self.data[i][kc]
    }

    /// The value in column `parameter` of the first row whose key cell covers
    /// `codepoint`. The key column is the first whose title contains
    /// `OctetNo` in a template table and `CodeFlag` otherwise; `parameter`
    /// names its column exactly.
    pub fn codepoint_lookup(&self, codepoint: i64, parameter: &str) -> (r: Option<String>)
        ensures
            match codepoint_lookup_spec(
                self.header_view(),
                self.rows_view(),
                codepoint as int,
                parameter@,
            ) {
                Some(v) => r matches Some(s) && s@ == v,
                None => r is None,
            },
    {
        let ghost h = self.header_view();
        let ghost rows = self.rows_view();
        let key = if self.is_template() {
            "OctetNo"
        } else {
            "CodeFlag"
        };
        assert(key@ == key_name(h));
        let kc = match self.column_containing(key) {
            Some(k) => k,
            None => return None,
        };
        let oc = match self.column_index(parameter) {
            Some(o) => o,
            None => return None,
        };
        proof {
            lemma_first_where_some(h.len() as int, |i: int| is_substring(key@, h[i]));
            lemma_first_where_some(h.len() as int, |i: int| h[i] == parameter@);
        }
        let mut i: usize = 0;
        while i < self.rows()
            invariant
                h == self.header_view(),
                rows == self.rows_view(),
                kc < h.len(),
                oc < h.len(),
                title_containing(h, key_name(h)) == Some(kc as int),
                title_index(h, parameter@) == Some(oc as int),
                i <= rows.len(),
                forall|j: int| 0 <= j < i ==> !key_matches(rows[j][kc as int], codepoint as int),
            decreases rows.len() - i,
        {
            if key_cell_matches(self.cell(i, kc).as_str(), codepoint) {
                proof {
                    lemma_first_where_found(
                        rows.len() as int,
                        |j: int| key_matches(rows[j][kc as int], codepoint as int),
                        i as int,
                    );
                }
                return Some(self.cell(i, oc).clone());
            }
            i = i + 1;
        }
        proof {
            lemma_first_where_none(
                rows.len() as int,
                |j: int| key_matches(rows[j][kc as int], codepoint as int),
            );
        }
        None
    }

    /// The meaning and unit of parameter `codepoint` of category
    /// `parameter_category` in discipline `discipline`: taken from the first
    /// row whose `CodeFlag` cell covers `codepoint` and whose `SubTitle` cell
    /// names that discipline and category.
    pub fn parameter_number_codepoint_lookup(
        &self,
        discipline: i64,
        parameter_category: i64,
        codepoint: i64,
    ) -> (r: Option<(String, String)>)
        ensures
            match parameter_lookup_spec(
                self.header_view(),
                self.rows_view(),
                discipline as int,
                parameter_category as int,
                codepoint as int,
            ) {
                Some((m, u)) => r matches Some((rm, ru)) && rm@ == m && ru@ == u,
                None => r is None,
            },
    {
        let ghost h = self.header_view();
        let ghost rows = self.rows_view();
        let fc = match self.column_containing("CodeFlag") {
            Some(k) => k,
            None => return None,
        };
        let sc = match self.column_containing("SubTitle") {
            Some(k) => k,
            None => return None,
        };
        let mc = match self.column_containing("Meaning") {
            Some(k) => k,
            None => return None,
        };
        let uc = match self.column_containing("Unit") {
            Some(k) => k,
            None => return None,
        };
        proof {
            lemma_first_where_some(h.len() as int, |i: int| is_substring("CodeFlag"@, h[i]));
            lemma_first_where_some(h.len() as int, |i: int| is_substring("SubTitle"@, h[i]));
            lemma_first_where_some(h.len() as int, |i: int| is_substring("Meaning"@, h[i]));
            lemma_first_where_some(h.len() as int, |i: int| is_substring("Unit"@, h[i]));
        }
        let ghost p = |j: int|
            parameter_row_matches(
                rows[j],
                fc as int,
                sc as int,
                discipline as int,
                parameter_category as int,
                codepoint as int,
            );
        let mut i: usize = 0;
        while i < self.rows()
            invariant
                h == self.header_view(),
                rows == self.rows_view(),
                fc < h.len(),
                sc < h.len(),
                mc < h.len(),
                uc < h.len(),
                title_containing(h, "CodeFlag"@) == Some(fc as int),
                title_containing(h, "SubTitle"@) == Some(sc as int),
                title_containing(h, "Meaning"@) == Some(mc as int),
                title_containing(h, "Unit"@) == Some(uc as int),
                i <= rows.len(),
                forall|j: int|
                    0 <= j < i ==> !parameter_row_matches(
                        #[trigger] rows[j],
                        fc as int,
                        sc as int,
                        discipline as int,
                        parameter_category as int,
                        codepoint as int,
                    ),
            decreases rows.len() - i,
        {
            let hit = key_cell_matches(self.cell(i, fc).as_str(), codepoint) && match subtitle_codes_of(
                self.cell(i, sc).as_str(),
            ) {
                Some((d, c)) => d == discipline && c == parameter_category,
                None => false,
            };
            if hit {
                proof {
                    lemma_first_where_found(
                        rows.len() as int,
                        |j: int|
                            parameter_row_matches(
                                rows[j],
                                fc as int,
                                sc as int,
                                discipline as int,
                                parameter_category as int,
                                codepoint as int,
                            ),
                        i as int,
                    );
                }
                return Some((self.cell(i, mc).clone(), self.cell(i, uc).clone()));
            }
            i = i + 1;
        }
        proof {
            lemma_first_where_none(
                rows.len() as int,
                |j: int|
                    parameter_row_matches(
                        rows[j],
                        fc as int,
                        sc as int,
                        discipline as int,
                        parameter_category as int,
                        codepoint as int,
                    ),
            );
        }
        None
    }

    pub fn path(&self) -> (r: &str)
        ensures
            r@ == self.path_view(),
    {
        self.path.as_str()
    }
}

/// Whether the key cell `cell` covers `cp`.
pub fn key_cell_matches(cell: &str, cp: i64) -> (r: bool)
    ensures
        r == key_matches(cell@, cp as int),
{
    let s = chars_of(cell);
    let n = s.len();
    let k = find_from(&s, '-', 0);
    proof {
        lemma_first_from_bounds(s@, '-', 0);
    }
    if k < n {
        let lo = parse_nat_at(&s, 0, k);
        let hi = parse_nat_at(&s, k + 1, n);
        proof {
            assert(s@.subrange(0, n as int) =~= s@);
        }
        match (lo, hi) {
            (Some(lo), Some(hi)) => lo <= cp && cp <= hi,
            _ => false,
        }
    } else {
        proof {
            assert(s@.subrange(0, n as int) =~= s@);
        }
        match parse_nat_at(&s, 0, n) {
            Some(v) => v == cp,
            None => false,
        }
    }
}

/// Of a row that covers a codepoint, with no row above it that does: a
/// lookup yields that row's cell in the output column, whether its key cell
/// holds a single value or a range.
pub proof fn lemma_codepoint_lookup_hit(
    t: Codetable,
    cp: int,
    param: Seq<char>,
    kc: int,
    oc: int,
    i: int,
)
    requires
        title_containing(t.header_view(), key_name(t.header_view())) == Some(kc),
        title_index(t.header_view(), param) == Some(oc),
        0 <= i < t.rows_view().len(),
        key_matches(t.rows_view()[i][kc], cp),
        forall|j: int| 0 <= j < i ==> !key_matches(#[trigger] t.rows_view()[j][kc], cp),
    ensures
        codepoint_lookup_spec(t.header_view(), t.rows_view(), cp, param) == Some(
            t.rows_view()[i][oc],
        ),
{
    let rows = t.rows_view();
    lemma_first_where_found(rows.len() as int, |j: int| key_matches(rows[j][kc], cp), i);
}

/// A lookup of a codepoint that no row covers yields nothing.
pub proof fn lemma_codepoint_lookup_miss(t: Codetable, cp: int, param: Seq<char>, kc: int)
    requires
        title_containing(t.header_view(), key_name(t.header_view())) == Some(kc),
        forall|j: int|
            0 <= j < t.rows_view().len() ==> !key_matches(#[trigger] t.rows_view()[j][kc], cp),
    ensures
        codepoint_lookup_spec(t.header_view(), t.rows_view(), cp, param) is None,
{
    let rows = t.rows_view();
    lemma_first_where_none(rows.len() as int, |j: int| key_matches(rows[j][kc], cp));
}

/// A range covers both of its ends.
pub proof fn lemma_range_inclusive(cell: Seq<char>, lo: int, hi: int)
    requires
        key_bounds(cell) == Some((lo, hi)),
        lo <= hi,
    ensures
        key_matches(cell, lo),
        key_matches(cell, hi),
{
}

/// The table name of a source file: the part before its first `.`, for a
/// file whose name ends in `.csv`.
pub open spec fn table_name_spec(f: Seq<char>) -> Option<Seq<char>> {
    if f.len() >= 4 && f.subrange(f.len() - 4, f.len() as int) == ".csv"@ {
        Some(f.subrange(0, first_from(f, '.', 0)))
    } else {
        None
    }
}

/// The table name of a source file, as `table_name_spec` gives it.
pub fn table_name_of(file_name: &str) -> (r: Option<String>)
    ensures
        match table_name_spec(file_name@) {
            Some(n) => r matches Some(s) && s@ == n,
            None => r is None,
        },
{
    let cs = chars_of(file_name);
    let ext = chars_of(".csv");
    proof {
        reveal_strlit(".csv");
    }
    if cs.len() < 4 {
        return None;
    }
    if !matches_at(&cs, cs.len() - 4, &ext) {
        return None;
    }
    let k = find_from(&cs, '.', 0);
    proof {
        lemma_first_from_bounds(cs@, '.', 0);
    }
    Some(file_name.substring_char(0, k).to_owned())
}

/// One file of a table directory: its name, its path, and its contents or
/// the message of the error that reading it gave.
#[derive(Debug)]
pub struct TableSource {
    pub file_name: String,
    pub path: String,
    pub contents: Result<Vec<u8>, String>,
}

/// Whether a source makes a table.
pub open spec fn source_loads(s: TableSource) -> bool {
    match s.contents {
        Ok(b) => match csv_records_of(b@) {
            Some(recs) => records_well_shaped(recs),
            None => false,
        },
        Err(_) => false,
    }
}

/// Source `k` is the first table file that makes no table.
pub open spec fn first_failing_source(ss: Seq<TableSource>, k: int) -> bool {
    &&& table_name_spec(ss[k].file_name@) is Some
    &&& !source_loads(ss[k])
    &&& forall|j: int|
        0 <= j < k && table_name_spec((#[trigger] ss[j]).file_name@) is Some ==> source_loads(
            ss[j],
        )
}

/// The names a registry holding `names` holds after loading the table files
/// among `ss` in order: each new name is added after those already held.
pub open spec fn names_after(names: Seq<Seq<char>>, ss: Seq<TableSource>) -> Seq<Seq<char>>
    decreases ss.len(),
{
    if ss.len() == 0 {
        names
    } else {
        let p = names_after(names, ss.drop_last());
        match table_name_spec(ss.last().file_name@) {
            Some(n) => if p.contains(n) {
                p
            } else {
                p.push(n)
            },
            None => p,
        }
    }
}

/// The position of the last table file among `ss` whose table name is `n`.
pub open spec fn last_source_named(ss: Seq<TableSource>, n: Seq<char>) -> Option<int>
    decreases ss.len(),
{
    if ss.len() == 0 {
        None
    } else if table_name_spec(ss.last().file_name@) == Some(n) {
        Some(ss.len() - 1)
    } else {
        last_source_named(ss.drop_last(), n)
    }
}

/// `t` is the table that source `s` holds: its path, and the records that
/// its contents read as, titles first.
pub open spec fn table_from_source(t: Codetable, s: TableSource) -> bool {
    match s.contents {
        Ok(b) => match csv_records_of(b@) {
            Some(recs) => {
                &&& t.path_view() == s.path@
                &&& recs.len() == 0 ==> t.header_view().len() == 0 && t.rows_view().len() == 0
                &&& recs.len() > 0 ==> t.header_view() == recs[0] && t.rows_view()
                    == recs.drop_first()
            },
            None => false,
        },
        Err(_) => false,
    }
}

/// `names` and `tables` are what a registry holding `names0` and `tables0`
/// holds after loading the table files among `ss` in order: every name is
/// held with the table of the last file of that name, and a name that no
/// file gives keeps its table.
pub open spec fn loaded_from(
    names: Seq<Seq<char>>,
    tables: Seq<Codetable>,
    names0: Seq<Seq<char>>,
    tables0: Seq<Codetable>,
    ss: Seq<TableSource>,
) -> bool {
    &&& names == names_after(names0, ss)
    &&& tables.len() == names.len()
    &&& forall|i: int|
        0 <= i < names.len() ==> match last_source_named(ss, #[trigger] names[i]) {
            Some(k) => 0 <= k < ss.len() && table_from_source(tables[i], ss[k]),
            None => i < names0.len() && i < tables0.len() && tables[i] == tables0[i],
        }
}

/// Loading one more table file, named `n` and holding `t`, keeps
/// `loaded_from` true of the longer run of files.
proof fn lemma_load_step(
    names: Seq<Seq<char>>,
    tables: Seq<Codetable>,
    names2: Seq<Seq<char>>,
    tables2: Seq<Codetable>,
    names0: Seq<Seq<char>>,
    tables0: Seq<Codetable>,
    pre: Seq<TableSource>,
    post: Seq<TableSource>,
    n: Seq<char>,
    t: Codetable,
)
    requires
        loaded_from(names, tables, names0, tables0, pre),
        distinct_names(names),
        post.len() == pre.len() + 1,
        post.drop_last() == pre,
        table_name_spec(post.last().file_name@) == Some(n),
        table_from_source(t, post.last()),
        names.contains(n) ==> {
            &&& names2 == names
            &&& exists|i: int|
                0 <= i < names.len() && names[i] == n && tables2 == tables.update(i, t)
        },
        !names.contains(n) ==> names2 == names.push(n) && tables2 == tables.push(t),
    ensures
        loaded_from(names2, tables2, names0, tables0, post),
{
    assert(names_after(names0, post) == names2);
    assert forall|x: Seq<char>| x != n implies #[trigger] last_source_named(post, x)
        == last_source_named(pre, x) by {}
    assert(last_source_named(post, n) == Some(pre.len() as int));
    assert forall|i: int| 0 <= i < names2.len() implies match last_source_named(
        post,
        #[trigger] names2[i],
    ) {
        Some(j) => 0 <= j < post.len() && table_from_source(tables2[i], post[j]),
        None => i < names0.len() && i < tables0.len() && tables2[i] == tables0[i],
    } by {
        if names2[i] == n {
            if names.contains(n) {
                let idx = choose|idx: int|
                    0 <= idx < names.len() && names[idx] == n && tables2 == tables.update(idx, t);
                if i != idx {
                    assert(names[i] != names[idx]);
                }
            }
        } else {
            assert(i < names.len());
            assert(names2[i] == names[i]);
            if names.contains(n) {
                let idx = choose|idx: int|
                    0 <= idx < names.len() && names[idx] == n && tables2 == tables.update(idx, t);
                assert(tables2[i] == tables[i]);
            } else {
                assert(tables2[i] == tables[i]);
            }
            if let Some(j) = last_source_named(pre, names[i]) {
                assert(pre[j] == post[j]);
            }
        }
    }
}

/// How many of the sources are table files.
pub open spec fn table_file_count(ss: Seq<TableSource>) -> nat
    decreases ss.len(),
{
    if ss.len() == 0 {
        0
    } else {
        table_file_count(ss.drop_last()) + if table_name_spec(ss.last().file_name@) is Some {
            1nat
        } else {
            0nat
        }
    }
}

/// `k` is the name that a search for `kw` among `names` yields: the least
/// name, in the order of `str`, that contains `kw`.
pub open spec fn least_match(names: Seq<Seq<char>>, kw: Seq<char>, k: Seq<char>) -> bool {
    &&& names.contains(k)
    &&& is_substring(kw, k)
    &&& forall|j: int|
        0 <= j < names.len() && is_substring(kw, #[trigger] names[j]) ==> names[j] == k || text_lt(
            k,
            names[j],
        )
}

/// A search for a name is settled by the set of names alone: two registries
/// that hold the same names yield the same name for every keyword, whatever
/// order the tables were loaded in.
pub proof fn lemma_search_for_key_deterministic(
    a: Seq<Seq<char>>,
    b: Seq<Seq<char>>,
    kw: Seq<char>,
    ka: Seq<char>,
    kb: Seq<char>,
)
    requires
        a.to_set() == b.to_set(),
        least_match(a, kw, ka),
        least_match(b, kw, kb),
    ensures
        ka == kb,
{
    assert(a.to_set().contains(ka));
    assert(b.to_set().contains(kb));
    let i = choose|i: int| 0 <= i < b.len() && b[i] == ka;
    let j = choose|j: int| 0 <= j < a.len() && a[j] == kb;
    lemma_text_lt_asymmetric(ka, kb);
}

pub open spec fn distinct_names(s: Seq<Seq<char>>) -> bool {
    forall|i: int, j: int| 0 <= i < j < s.len() ==> #[trigger] s[i] != #[trigger] s[j]
}

/// Loading the same files, in the same order, into two empty registries
/// gives the same names in the same order, so a key search on either yields
/// the same name.
pub proof fn lemma_same_sources_same_search(
    a: Seq<Seq<char>>,
    ta: Seq<Codetable>,
    b: Seq<Seq<char>>,
    tb: Seq<Codetable>,
    ss: Seq<TableSource>,
    kw: Seq<char>,
    ka: Seq<char>,
    kb: Seq<char>,
)
    requires
        loaded_from(a, ta, Seq::empty(), Seq::empty(), ss),
        loaded_from(b, tb, Seq::empty(), Seq::empty(), ss),
        least_match(a, kw, ka),
        least_match(b, kw, kb),
    ensures
        a == b,
        ka == kb,
{
    lemma_search_for_key_deterministic(a, b, kw, ka, kb);
}

/// Predicates that agree below `n` have the same first index.
proof fn lemma_first_where_agree(n: int, p: spec_fn(int) -> bool, q: spec_fn(int) -> bool)
    requires
        forall|i: int| #![trigger p(i)] #![trigger q(i)] 0 <= i < n ==> p(i) == q(i),
    ensures
        first_where(n, p) == first_where(n, q),
{
    lemma_first_where_some(n, p);
    match first_where(n, p) {
        Some(i) => {
            assert forall|j: int| 0 <= j < i implies !#[trigger] q(j) by {
                assert(!p(j));
            }
            lemma_first_where_found(n, q, i);
        },
        None => {
            assert forall|j: int| 0 <= j < n implies !#[trigger] q(j) by {
                if q(j) {
                    lemma_first_exists(n, p, j);
                }
            }
            lemma_first_where_none(n, q);
        },
    }
}

/// Where `p` holds somewhere below `n`, there is a first such index.
proof fn lemma_first_exists(n: int, p: spec_fn(int) -> bool, j: int)
    requires
        0 <= j < n,
        p(j),
    ensures
        first_where(n, p) is Some,
    decreases j,
{
    if forall|m: int| 0 <= m < j ==> !#[trigger] p(m) {
        lemma_first_where_found(n, p, j);
    } else {
        let m = choose|m: int| 0 <= m < j && #[trigger] p(m);
        lemma_first_exists(n, p, m);
    }
}

/// A lookup reads only the key column, chosen by whether the table is a
/// template table, and the output column: two tables with the same titles
/// whose rows agree in those two columns give the same answer.
pub proof fn lemma_lookup_reads_key_and_output(
    h: Seq<Seq<char>>,
    r1: Seq<Seq<Seq<char>>>,
    r2: Seq<Seq<Seq<char>>>,
    cp: int,
    param: Seq<char>,
)
    requires
        r1.len() == r2.len(),
        forall|i: int, c: int|
            0 <= i < r1.len() && (title_containing(h, key_name(h)) == Some(c) || title_index(
                h,
                param,
            ) == Some(c)) ==> #[trigger] r1[i][c] == #[trigger] r2[i][c],
    ensures
        codepoint_lookup_spec(h, r1, cp, param) == codepoint_lookup_spec(h, r2, cp, param),
{
    if let (Some(kc), Some(oc)) = (title_containing(h, key_name(h)), title_index(h, param)) {
        assert forall|i: int| 0 <= i < r1.len() implies key_matches(r1[i][kc], cp) == key_matches(
            r2[i][kc],
            cp,
        ) by {
            assert(r1[i][kc] == r2[i][kc]);
        }
        lemma_first_where_agree(
            r1.len() as int,
            |i: int| key_matches(r1[i][kc], cp),
            |i: int| key_matches(r2[i][kc], cp),
        );
        if let Some(i) = first_key_row(r1, kc, cp) {
            lemma_first_where_some(r1.len() as int, |i: int| key_matches(r1[i][kc], cp));
            assert(r1[i][oc] == r2[i][oc]);
        }
    }
}

/// The tables of a directory, by name. A name is held at most once: loading
/// a table under a name already held replaces that table.
pub struct CodetableManager {
    names: Vec<String>,
    tables: Vec<Codetable>,
}

impl CodetableManager {
    /// A well-formed registry holds one table per name and each name once.
    pub proof fn lemma_wf(&self)
        requires
            self.wf(),
        ensures
            distinct_names(self.names_view()),
            self.names_view().len() == self.tables_view().len(),
    {
    }

    /// One table per name, and each name held once.
    pub closed spec fn wf(&self) -> bool {
        &&& self.names@.len() == self.tables@.len()
        &&& distinct_names(strings_view(self.names@))
    }

    /// The names held, in the order they were first loaded.
    pub closed spec fn names_view(&self) -> Seq<Seq<char>> {
        strings_view(self.names@)
    }

    /// The tables held, aligned with `names_view`.
    pub closed spec fn tables_view(&self) -> Seq<Codetable> {
        self.tables@
    }

    pub fn new() -> (r: CodetableManager)
        ensures
            r.wf(),
            distinct_names(r.names_view()),
            r.names_view().len() == r.tables_view().len(),
            r.names_view().len() == 0,
            r.tables_view().len() == 0,
    {
        let r = CodetableManager { names: Vec::new(), tables: Vec::new() };
        assert(strings_view(r.names@) =~= Seq::<Seq<char>>::empty());
        r
    }

    /// Holds `table` under `name`, in place of any table held under it.
    pub fn insert(&mut self, name: String, table: Codetable)
        requires
            old(self).wf(),
        ensures
            final(self).wf(),
            distinct_names(final(self).names_view()),
            final(self).names_view().len() == final(self).tables_view().len(),
            old(self).names_view().contains(name@) ==> {
                &&& final(self).names_view() == old(self).names_view()
                &&& exists|i: int|
                    0 <= i < old(self).names_view().len() && old(self).names_view()[i] == name@
                        && final(self).tables_view() == old(self).tables_view().update(i, table)
            },
            !old(self).names_view().contains(name@) ==> {
                &&& final(self).names_view() == old(self).names_view().push(name@)
                &&& final(self).tables_view() == old(self).tables_view().push(table)
            },
    {
        let ghost names0 = self.names_view();
        let ghost tables0 = self.tables@;
        let mut i: usize = 0;
        while i < self.names.len()
            invariant
                self.wf(),
                names0 == strings_view(self.names@),
                tables0 == self.tables@,
                names0 == old(self).names_view(),
                tables0 == old(self).tables_view(),
                i <= self.names@.len(),
                forall|j: int| 0 <= j < i ==> names0[j] != name@,
            decreases self.names@.len() - i,
        {
            if same_text(self.names[i].as_str(), name.as_str()) {
                self.tables.set(i, table);
                proof {
                    assert(names0[i as int] == name@);
                    assert(names0.contains(name@));
                    assert(self.tables@ == tables0.update(i as int, table));
                }
                return;
            }
            i = i + 1;
        }
        proof {
            assert(!names0.contains(name@)) by {
                if names0.contains(name@) {
                    let k = choose|k: int| 0 <= k < names0.len() && names0[k] == name@;
                    assert(names0[k] != name@);
                }
            }
        }
        self.names.push(name);
        self.tables.push(table);
        proof {
            assert(self.names_view() =~= names0.push(name@));
            assert forall|a: int, b: int|
                0 <= a < b < self.names_view().len() implies #[trigger] self.names_view()[a]
                != #[trigger] self.names_view()[b] by {
                if b == names0.len() {
                    assert(names0[a] != name@);
                } else {
                    assert(names0[a] != names0[b]);
                }
            }
        }
    }

    /// Loads every table file among `sources`, in order, each under its
    /// table name (a later file replaces an earlier one of the same name);
    /// other files are passed over. Stops at the first table file that
    /// cannot be read or is not a valid table, and returns its error;
    /// otherwise returns how many table files were loaded.
    pub fn load_sources(&mut self, sources: &Vec<TableSource>) -> (r: Result<
        usize,
        CodetableLoadError,
    >)
        requires
            old(self).wf(),
        ensures
            final(self).wf(),
            r is Ok <==> forall|k: int|
                0 <= k < sources@.len() && table_name_spec(
                    (#[trigger] sources@[k]).file_name@,
                ) is Some ==> source_loads(sources@[k]),
            r matches Ok(n) ==> n == table_file_count(sources@) && forall|k: int|
                0 <= k < sources@.len() && table_name_spec((#[trigger] sources@[k]).file_name@)
                    is Some ==> final(self).names_view().contains(
                    table_name_spec(sources@[k].file_name@)->Some_0,
                ),
            forall|k: int|
                0 <= k < old(self).names_view().len() ==> final(self).names_view().contains(
                    #[trigger] old(self).names_view()[k],
                ),
            r is Ok ==> loaded_from(
                final(self).names_view(),
                final(self).tables_view(),
                old(self).names_view(),
                old(self).tables_view(),
                sources@,
            ),
            r is Err ==> exists|k: int|
                0 <= k < sources@.len() && first_failing_source(sources@, k) && match (
                #[trigger] sources@[k]).contents {
                    Err(m) => r matches Err(CodetableLoadError::IOError(e)) && e@ == m@,
                    Ok(_) => r matches Err(CodetableLoadError::InvalidCSV),
                },
    {
        let ghost names0 = self.names_view();
        let ghost tables0 = self.tables_view();
        proof {
            assert(sources@.take(0) =~= Seq::<TableSource>::empty());
        }
        let mut count: usize = 0;
        let mut k: usize = 0;
        while k < sources.len()
            invariant
                self.wf(),
                names0 == old(self).names_view(),
                tables0 == old(self).tables_view(),
                names0.len() == tables0.len(),
                loaded_from(
                    self.names_view(),
                    self.tables_view(),
                    names0,
                    tables0,
                    sources@.take(k as int),
                ),
                k <= sources@.len(),
                count == table_file_count(sources@.take(k as int)),
                count <= k,
                forall|j: int|
                    0 <= j < k && table_name_spec((#[trigger] sources@[j]).file_name@) is Some
                        ==> source_loads(sources@[j]),
                forall|j: int|
                    0 <= j < k && table_name_spec((#[trigger] sources@[j]).file_name@) is Some
                        ==> self.names_view().contains(
                        table_name_spec(sources@[j].file_name@)->Some_0,
                    ),
                forall|j: int|
                    0 <= j < old(self).names_view().len() ==> self.names_view().contains(
                        #[trigger] old(self).names_view()[j],
                    ),
            decreases sources@.len() - k,
        {
            let src = &sources[k];
            proof {
                assert(sources@.take(k + 1).drop_last() =~= sources@.take(k as int));
                assert(sources@.take(k + 1).last() == sources@[k as int]);
            }
            let ghost pre = sources@.take(k as int);
            let ghost post = sources@.take(k + 1);
            match table_name_of(src.file_name.as_str()) {
                None => {
                    proof {
                        assert forall|x: Seq<char>| #[trigger]
                            last_source_named(post, x) == last_source_named(pre, x) by {}
                        assert(names_after(names0, post) == names_after(names0, pre));
                        let nv = self.names_view();
                        assert forall|i: int| 0 <= i < nv.len() implies match last_source_named(
                            post,
                            #[trigger] nv[i],
                        ) {
                            Some(j) => 0 <= j < post.len() && table_from_source(
                                self.tables_view()[i],
                                post[j],
                            ),
                            None => i < names0.len() && i < tables0.len() && self.tables_view()[i]
                                == tables0[i],
                        } by {
                            assert(last_source_named(post, nv[i]) == last_source_named(pre, nv[i]));
                            if let Some(j) = last_source_named(pre, nv[i]) {
                                assert(pre[j] == post[j]);
                            }
                        }
                    }
                },
                Some(name) => {
                    let bytes = match &src.contents {
                        Ok(b) => b,
                        Err(msg) => {
                            proof {
                                assert(first_failing_source(sources@, k as int));
                            }
                            return Err(CodetableLoadError::IOError(msg.clone()));
                        },
                    };
                    let table = match Codetable::from_csv(src.path.clone(), bytes.as_slice()) {
                        Ok(t) => t,
                        Err(e) => {
                            proof {
                                assert(first_failing_source(sources@, k as int));
                            }
                            return Err(e);
                        },
                    };
                    let ghost before = self.names_view();
                    let ghost tbefore = self.tables_view();
                    let ghost nn = name@;
                    proof {
                        assert(table_from_source(table, sources@[k as int]));
                    }
                    self.insert(name, table);
                    proof {
                        lemma_load_step(
                            before,
                            tbefore,
                            self.names_view(),
                            self.tables_view(),
                            names0,
                            tables0,
                            pre,
                            post,
                            nn,
                            table,
                        );
                    }
                    proof {
                        let nn = table_name_spec(sources@[k as int].file_name@)->Some_0;
                        assert(self.names_view().contains(nn)) by {
                            if before.contains(nn) {
                                assert(self.names_view() == before);
                            } else {
                                assert(self.names_view()[before.len() as int] == nn);
                            }
                        }
                        assert forall|x: Seq<char>| before.contains(x) implies self.names_view().contains(x) by {
                            if !before.contains(nn) {
                                let u = choose|u: int| 0 <= u < before.len() && before[u] == x;
                                assert(self.names_view()[u] == x);
                            }
                        }
                    }
                    count = count + 1;
                },
            }
            k = k + 1;
        }
        proof {
            assert(sources@.take(sources@.len() as int) =~= sources@);
        }
        Ok(count)
    }

    /// The least held name, in the order of `str`, that contains `keyword`.
    pub fn search_for_key(&self, keyword: &str) -> (r: Option<&str>)
        requires
            self.wf(),
        ensures
            r is None <==> forall|j: int|
                0 <= j < self.names_view().len() ==> !is_substring(
                    keyword@,
                    #[trigger] self.names_view()[j],
                ),
            r matches Some(k) ==> least_match(self.names_view(), keyword@, k@),
    {
        match self.search_index(keyword) {
            Some(b) => Some(self.names[b].as_str()),
            None => None,
        }
    }

    /// The position of the name that `search_for_key` yields.
    fn search_index(&self, keyword: &str) -> (r: Option<usize>)
        requires
            self.wf(),
        ensures
            r is None <==> forall|j: int|
                0 <= j < self.names_view().len() ==> !is_substring(
                    keyword@,
                    #[trigger] self.names_view()[j],
                ),
            r matches Some(b) ==> b < self.names_view().len() && least_match(
                self.names_view(),
                keyword@,
                self.names_view()[b as int],
            ),
    {
        let ghost nv = self.names_view();
        let mut best: Option<usize> = None;
        let mut best_chars: Vec<char> = Vec::new();
        let mut i: usize = 0;
        while i < self.names.len()
            invariant
                nv == strings_view(self.names@),
                i <= nv.len(),
                distinct_names(nv),
                best is None ==> forall|j: int|
                    0 <= j < i ==> !is_substring(keyword@, #[trigger] nv[j]),
                best matches Some(b) ==> {
                    &&& b < i
                    &&& best_chars@ == nv[b as int]
                    &&& is_substring(keyword@, nv[b as int])
                    &&& forall|j: int|
                        0 <= j < i && is_substring(keyword@, #[trigger] nv[j]) ==> nv[j] == nv[b as int]
                            || text_lt(nv[b as int], nv[j])
                },
            decreases nv.len() - i,
        {
            if contains_str(self.names[i].as_str(), keyword) {
                let cand = chars_of(self.names[i].as_str());
                match best {
                    None => {
                        best = Some(i);
                        best_chars = cand;
                    },
                    Some(b) => {
                        if text_less(&cand, &best_chars) {
                            proof {
                                assert forall|j: int|
                                    0 <= j < i + 1 && is_substring(keyword@, #[trigger] nv[j])
                                        implies nv[j] == nv[i as int] || text_lt(
                                    nv[i as int],
                                    nv[j],
                                ) by {
                                    lemma_text_lt_transitive(nv[i as int], nv[b as int], nv[j]);
                                }
                            }
                            best = Some(i);
                            best_chars = cand;
                        } else {
                            proof {
                                assert(nv[b as int] != nv[i as int]);
                                lemma_text_lt_total(nv[i as int], nv[b as int]);
                            }
                        }
                    },
                }
            }
            i = i + 1;
        }
        proof {
            if let Some(b) = best {
                assert(nv[b as int] == nv[b as int]);
                assert(nv.contains(nv[b as int]));
            }
        }
        best
    }

    /// Every held name, in the order they were first loaded.
    pub fn table_names(&self) -> (r: Vec<String>)
        ensures
            strings_view(r@) == self.names_view(),
    {
        clone_strings(&self.names)
    }

    /// The table that `search_for_key` names.
    pub fn search_for_table(&self, keyword: &str) -> (r: Option<&Codetable>)
        requires
            self.wf(),
        ensures
            r is None <==> forall|j: int|
                0 <= j < self.names_view().len() ==> !is_substring(
                    keyword@,
                    #[trigger] self.names_view()[j],
                ),
            r matches Some(t) ==> exists|b: int|
                0 <= b < self.names_view().len() && least_match(
                    self.names_view(),
                    keyword@,
                    self.names_view()[b],
                ) && self.tables_view()[b] == *t,
    {
        match self.search_index(keyword) {
            Some(b) => {
                proof {
                    assert(self.tables_view()[b as int] == self.tables@[b as int]);
                }
                Some(&self.tables[b])
            },
            None => None,
        }
    }

    /// The table held under exactly `name`.
    pub fn table(&self, name: &str) -> (r: Option<&Codetable>)
        requires
            self.wf(),
        ensures
            r is None <==> !self.names_view().contains(name@),
            r matches Some(t) ==> exists|i: int|
                0 <= i < self.names_view().len() && self.names_view()[i] == name@
                    && self.tables_view()[i] == *t,
    {
        let ghost nv = self.names_view();
        let mut i: usize = 0;
        while i < self.names.len()
            invariant
                nv == strings_view(self.names@),
                self.names@.len() == self.tables@.len(),
                i <= nv.len(),
                forall|j: int| 0 <= j < i ==> nv[j] != name@,
            decreases nv.len() - i,
        {
            if same_text(self.names[i].as_str(), name) {
                proof {
                    assert(nv[i as int] == name@);
                    assert(nv.contains(name@));
                }
                return Some(&self.tables[i]);
            }
            i = i + 1;
        }
        proof {
            if nv.contains(name@) {
                let k = choose|k: int| 0 <= k < nv.len() && nv[k] == name@;
                assert(nv[k] != name@);
            }
        }
        None
    }

    /// The column titles of the table held under exactly `name`.
    pub fn query_parameters(&self, name: &str) -> (r: Option<&Vec<String>>)
        requires
            self.wf(),
        ensures
            r is None <==> !self.names_view().contains(name@),
            r matches Some(h) ==> exists|i: int|
                0 <= i < self.names_view().len() && self.names_view()[i] == name@ && strings_view(
                    h@,
                ) == self.tables_view()[i].header_view(),
    {
        match self.table(name) {
            Some(t) => Some(t.header()),
            None => None,
        }
    }
}

/// The discipline and parameter category written in a subtitle.
pub fn subtitle_codes_of(s: &str) -> (r: Option<(i64, i64)>)
    ensures
        r matches Some((x, y)) ==> subtitle_codes(s@) == Some((x as int, y as int)),
        r is None ==> subtitle_codes(s@) is None,
{
    let cs = chars_of(s);
    let lead = chars_of("Product discipline ");
    if !matches_at(&cs, 0, &lead) {
        return None;
    }
    let a = lead.len();
    let b = find_from(&cs, ' ', a);
    proof {
        lemma_first_from_bounds(cs@, ' ', a as int);
    }
    let dash = chars_of(" - ");
    if !matches_at(&cs, b, &dash) {
        return None;
    }
    let c = b + dash.len();
    let d = find_from(&cs, ',', c);
    proof {
        lemma_first_from_bounds(cs@, ',', c as int);
    }
    let category = chars_of(", parameter category ");
    if !matches_at(&cs, d, &category) {
        return None;
    }
    let e = d + category.len();
    let f = find_from(&cs, ':', e);
    proof {
        lemma_first_from_bounds(cs@, ':', e as int);
    }
    let colon = chars_of(": ");
    if !matches_at(&cs, f, &colon) {
        return None;
    }
    let x = match parse_nat_at(&cs, a, b) {
        Some(x) => x,
        None => return None,
    };
    let y = match parse_nat_at(&cs, e, f) {
        Some(y) => y,
        None => return None,
    };
    Some((x, y))
}

} // verus!
