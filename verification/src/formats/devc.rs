//! Device files (`_devc.csv`): a row of units, a row of names, then one row per time step with
//! the time and the reading of every device. Numbers are kept as the text that was read; each
//! is accepted by `str::parse::<f32>`.
use vstd::prelude::*;

use crate::formats::csv_records::{
    csv_records, fields_view, lemma_records_view, read_csv_records, records_agree, records_view,
};
use crate::formats::num::{is_float, is_float_lexeme};

verus! {

/// The position of a device in a device list.
#[derive(Debug, Clone, Copy, PartialEq, Eq, Hash, Structural)]
pub struct DeviceIdx(pub usize);

/// The readings of one device.
#[derive(Debug, Clone, PartialEq, Eq)]
pub struct DeviceReadings {
    pub unit: String,
    pub name: String,
    pub values: Vec<String>,
}

/// The devices of one or more device files sharing their times.
#[derive(Debug, Clone, PartialEq, Eq)]
pub struct DeviceList {
    /// The bit pattern of the `f32` number of seconds in one unit of the time column.
    pub time_unit_seconds: u32,
    /// The time column, in its unit.
    pub times: Vec<String>,
    pub devices: Vec<DeviceReadings>,
}

/// Errors within a single device file; lines are counted from 0.
#[derive(Debug)]
pub enum ParsingError {
    MissingUnitsLine,
    MissingNamesLine,
    MissingTimeUnit,
    /// The time unit is not a unit of time; holds the unit.
    InvalidTimeUnit(String),
    ParsingErrorUnitsCsv(csv::Error),
    ParsingErrorNamesCsv(csv::Error),
    InvalidUnitsAndNamesCount { units_len: usize, names_len: usize },
    /// A data row has the wrong number of values: line, values found, values expected.
    WrongValueCount(usize, usize, usize),
    /// A data row is malformed CSV: line and error.
    ParsingErrorCsv(usize, csv::Error),
    /// A field is not a number: line and column.
    ParsingError(usize, usize),
}

/// Errors when joining several device lists.
#[derive(Debug, Clone, Copy, PartialEq, Eq)]
pub enum JoinError {
    /// The list at this position has other times than the first list.
    TimeMismatch(usize),
    /// There were no lists to join.
    EmptyVec,
}

/// Errors when reading and joining several device files.
#[derive(Debug)]
pub enum DevcError {
    ParsingError(ParsingError),
    JoinError(JoinError),
}

/// How reading the data rows of a device file can fail, by line.
#[derive(PartialEq, Eq)]
pub ghost enum RowFail {
    Csv(int),
    Float(int, int),
    Count(int, int, int),
}

/// The rows read so far: the times, and for every row with values, its values.
pub struct RowsRead {
    pub times: Seq<Seq<char>>,
    pub rows: Seq<Seq<Seq<char>>>,
}

/// The non-empty fields, in order.
pub open spec fn nonempty(s: Seq<Seq<char>>) -> Seq<Seq<char>> {
    s.filter(|f: Seq<char>| f.len() > 0)
}

/// The first position below `n` at which `g` holds something that is not a number.
pub open spec fn first_bad(g: Seq<Seq<char>>, n: int) -> Option<int>
    decreases n,
{
    if n <= 0 {
        None
    } else {
        match first_bad(g, n - 1) {
            Some(j) => Some(j),
            None => if !is_float_lexeme(g[n - 1]) {
                Some(n - 1)
            } else {
                None
            },
        }
    }
}

/// The smaller of two integers.
pub open spec fn min_int(a: int, b: int) -> int {
    if a < b {
        a
    } else {
        b
    }
}

/// Reading data row `line` with fields `rec` after `st`, for `len` devices.
pub open spec fn row_step(st: RowsRead, rec: Option<Seq<Seq<char>>>, line: int, len: int) -> Result<
    RowsRead,
    RowFail,
> {
    match rec {
        None => Err(RowFail::Csv(line)),
        Some(f) => if f.len() == 0 {
            Err(RowFail::Count(line, 0, len))
        } else if f[0].len() == 0 {
            Ok(st)
        } else if !is_float_lexeme(f[0]) {
            Err(RowFail::Float(line, 0))
        } else {
            let g = nonempty(f.skip(1));
            match first_bad(g, min_int(g.len() as int, len)) {
                Some(j) => Err(RowFail::Float(line, j + 1)),
                None => if g.len() == len {
                    Ok(RowsRead { times: st.times.push(f[0]), rows: st.rows.push(g) })
                } else if g.len() == 0 {
                    Ok(RowsRead { times: st.times.push(f[0]), rows: st.rows })
                } else {
                    Err(RowFail::Count(line, g.len() as int, len))
                },
            }
        },
    }
}

/// Reading the data rows among the first `k` records, for `len` devices.
pub open spec fn rows_fold(recs: Seq<Option<Seq<Seq<char>>>>, k: int, len: int) -> Result<
    RowsRead,
    RowFail,
>
    decreases k,
{
    if k <= 2 {
        Ok(RowsRead { times: Seq::empty(), rows: Seq::empty() })
    } else {
        match rows_fold(recs, k - 1, len) {
            Ok(st) => row_step(st, recs[k - 1], k - 1, len),
            Err(e) => Err(e),
        }
    }
}

/// The text of the readings of device `j` in the rows read.
pub open spec fn column(rows: Seq<Seq<Seq<char>>>, j: int) -> Seq<Seq<char>> {
    rows.map_values(|r: Seq<Seq<char>>| r[j])
}

/// The error of a device file that a failed data row reports.
pub open spec fn row_error_matches(e: RowFail, r: ParsingError) -> bool {
    match e {
        RowFail::Csv(l) => r matches ParsingError::ParsingErrorCsv(l2, _) && l2 == l,
        RowFail::Float(l, c) => r matches ParsingError::ParsingError(l2, c2) && l2 == l && c2 == c,
        RowFail::Count(l, g, n) => r matches ParsingError::WrongValueCount(l2, g2, n2) && l2 == l
            && g2 == g && n2 == n,
    }
}

/// The fields of a record.
pub open spec fn rec_fields(r: Option<Seq<Seq<char>>>) -> Seq<Seq<char>> {
    match r {
        Some(f) => f,
        None => Seq::empty(),
    }
}

/// Whether the two header rows are present and well-formed, so that the time unit is looked up.
pub open spec fn header_ok(recs: Seq<Option<Seq<Seq<char>>>>) -> bool {
    &&& recs.len() >= 2
    &&& recs[0] is Some
    &&& recs[1] is Some
    &&& rec_fields(recs[0]).len() == rec_fields(recs[1]).len()
    &&& rec_fields(recs[0]).len() >= 1
}

/// Whether `l` is the device list of records `recs` whose time unit was found to last `bits`
/// (an `f32` bit pattern) seconds, after reading the data rows into `st`.
pub open spec fn list_matches(recs: Seq<Option<Seq<Seq<char>>>>, bits: u32, st: RowsRead, l: DeviceList) -> bool {
    let units = rec_fields(recs[0]);
    let names = rec_fields(recs[1]);
    &&& l.time_unit_seconds == bits
    &&& fields_view(l.times@) == st.times
    &&& l.devices@.len() == units.len() - 1
    &&& forall|j: int|
        0 <= j < l.devices@.len() ==> {
            &&& (#[trigger] l.devices@[j]).unit@ == units[j + 1]
            &&& l.devices@[j].name@ == names[j + 1]
            &&& fields_view(l.devices@[j].values@) == column(st.rows, j)
        }
}

/// What reading the records `recs` of a device file gives, when looking up its time unit gave
/// `unit`.
pub open spec fn devc_outcome(
    recs: Seq<Option<Seq<Seq<char>>>>,
    unit: Option<u32>,
    r: Result<DeviceList, ParsingError>,
) -> bool {
    let units = rec_fields(recs[0]);
    let names = rec_fields(recs[1]);
    if recs.len() == 0 {
        r matches Err(ParsingError::MissingUnitsLine)
    } else if recs[0] is None {
        r matches Err(ParsingError::ParsingErrorUnitsCsv(_))
    } else if recs.len() == 1 {
        r matches Err(ParsingError::MissingNamesLine)
    } else if recs[1] is None {
        r matches Err(ParsingError::ParsingErrorNamesCsv(_))
    } else if units.len() != names.len() || units.len() < 1 {
        r matches Err(ParsingError::InvalidUnitsAndNamesCount { units_len, names_len })
            && units_len == units.len() && names_len == names.len()
    } else if unit is None {
        r matches Err(ParsingError::InvalidTimeUnit(u)) && u@ == units[0]
    } else {
        match rows_fold(recs, recs.len() as int, units.len() - 1) {
            Err(e) => r matches Err(pe) && row_error_matches(e, pe),
            Ok(st) => r matches Ok(l) && list_matches(recs, unit->0, st, l),
        }
    }
}

/// The text of every row of values.
pub open spec fn rows_view(rows: Seq<Vec<String>>) -> Seq<Seq<Seq<char>>> {
    rows.map_values(|r: Vec<String>| fields_view(r@))
}

/// The non-empty fields after the first.
fn nonempty_after_first(f: &Vec<String>) -> (r: Vec<String>)
    requires
        f@.len() >= 1,
    ensures
        fields_view(r@) == nonempty(fields_view(f@).skip(1)),
{
    let mut r: Vec<String> = Vec::new();
    let mut i: usize = 1;
    assert(fields_view(f@).subrange(1, 1) =~= Seq::<Seq<char>>::empty());
    assert(nonempty(Seq::<Seq<char>>::empty()) =~= Seq::<Seq<char>>::empty()) by {
        reveal(Seq::filter);
    }
    while i < f.len()
        invariant
            1 <= i <= f@.len(),
            fields_view(r@) == nonempty(fields_view(f@).subrange(1, i as int)),
        decreases f@.len() - i,
    {
        let x = &f[i];
        proof {
            assert(fields_view(f@).subrange(1, i + 1) =~= fields_view(f@).subrange(1, i as int).push(
                x@,
            ));
            fields_view(f@).subrange(1, i as int).lemma_filter_push(x@, |f: Seq<char>| f.len() > 0);
        }
        if !x.as_str().is_empty() {
            r.push(x.clone());
            assert(fields_view(r@) =~= nonempty(fields_view(f@).subrange(1, i as int)).push(x@));
        }
        i = i + 1;
    }
    assert(fields_view(f@).subrange(1, f@.len() as int) =~= fields_view(f@).skip(1));
    r
}

/// The first of the first `n` fields that is not a number.
fn find_bad(g: &Vec<String>, n: usize) -> (r: Option<usize>)
    requires
        n <= g@.len(),
    ensures
        r == (match first_bad(fields_view(g@), n as int) {
            Some(j) => Some(j as usize),
            None => None::<usize>,
        }),
        r matches Some(j) ==> j < n,
        first_bad(fields_view(g@), n as int) matches Some(j) ==> 0 <= j < n,
{
    proof {
        lemma_first_bad_range(fields_view(g@), n as int);
    }
    let mut j: usize = 0;
    while j < n
        invariant
            j <= n <= g@.len(),
            first_bad(fields_view(g@), j as int) is None,
        decreases n - j,
    {
        if !is_float(g[j].as_str()) {
            assert(first_bad(fields_view(g@), j + 1) == Some(j as int));
            proof {
                lemma_first_bad_stays(fields_view(g@), j + 1, n as int);
            }
            return Some(j);
        }
        j = j + 1;
    }
    None
}

proof fn lemma_first_bad_range(g: Seq<Seq<char>>, n: int)
    ensures
        first_bad(g, n) matches Some(j) ==> 0 <= j < n,
    decreases n,
{
    if n > 0 {
        lemma_first_bad_range(g, n - 1);
    }
}

proof fn lemma_first_bad_stays(g: Seq<Seq<char>>, a: int, b: int)
    requires
        0 <= a <= b,
        first_bad(g, a) is Some,
    ensures
        first_bad(g, b) == first_bad(g, a),
    decreases b - a,
{
    if b > a {
        lemma_first_bad_stays(g, a, b - 1);
    }
}

/// Reads data row `line` with fields `rec` into the times and rows read so far.
fn read_row(
    rec: &Vec<String>,
    line: usize,
    len: usize,
    times: &mut Vec<String>,
    rows: &mut Vec<Vec<String>>,
) -> (r: Result<(), ParsingError>)
    ensures
        ({
            let before = RowsRead { times: fields_view(old(times)@), rows: rows_view(old(rows)@) };
            match row_step(before, Some(fields_view(rec@)), line as int, len as int) {
                Ok(st) => r is Ok && fields_view(final(times)@) == st.times && rows_view(
                    final(rows)@,
                ) == st.rows,
                Err(e) => r matches Err(pe) && row_error_matches(e, pe),
            }
        }),
{
    if rec.len() == 0 {
        return Err(ParsingError::WrongValueCount(line, 0, len));
    }
    let first = &rec[0];
    if first.as_str().is_empty() {
        return Ok(());
    }
    if !is_float(first.as_str()) {
        return Err(ParsingError::ParsingError(line, 0));
    }
    let g = nonempty_after_first(rec);
    let n = if g.len() < len {
        g.len()
    } else {
        len
    };
    if let Some(j) = find_bad(&g, n) {
        return Err(ParsingError::ParsingError(line, j + 1));
    }
    if g.len() == len {
        let ghost gv = fields_view(g@);
        times.push(first.clone());
        rows.push(g);
        assert(fields_view(times@) =~= fields_view(old(times)@).push(fields_view(rec@)[0]));
        assert(rows_view(rows@) =~= rows_view(old(rows)@).push(gv));
        Ok(())
    } else if g.len() == 0 {
        times.push(first.clone());
        assert(fields_view(times@) =~= fields_view(old(times)@).push(fields_view(rec@)[0]));
        Ok(())
    } else {
        Err(ParsingError::WrongValueCount(line, g.len(), len))
    }
}


proof fn lemma_row_step_rows(st: RowsRead, rec: Option<Seq<Seq<char>>>, line: int, len: int)
    ensures
        row_step(st, rec, line, len) matches Ok(st2) ==> {
            &&& st2.rows.len() >= st.rows.len()
            &&& forall|k: int| 0 <= k < st.rows.len() ==> st2.rows[k] == st.rows[k]
            &&& forall|k: int| st.rows.len() <= k < st2.rows.len() ==> (#[trigger] st2.rows[k]).len() == len
        },
{
}

proof fn lemma_rows_fold_err_stays(recs: Seq<Option<Seq<Seq<char>>>>, a: int, b: int, len: int)
    requires
        2 <= a <= b,
        rows_fold(recs, a, len) is Err,
    ensures
        rows_fold(recs, b, len) == rows_fold(recs, a, len),
    decreases b - a,
{
    if b > a {
        lemma_rows_fold_err_stays(recs, a, b - 1, len);
    }
}

/// Takes out the error that record `i` holds.
fn take_error(recs: &mut Vec<Result<Vec<String>, csv::Error>>, i: usize) -> (e: csv::Error)
    requires
        i < old(recs)@.len(),
        old(recs)@[i as int] is Err,
    ensures
        old(recs)@[i as int] == Err::<Vec<String>, csv::Error>(e),
        final(recs)@ == old(recs)@.update(i as int, old(recs)@.last()).drop_last(),
{
    match recs.swap_remove(i) {
        Err(e) => e,
        Ok(_) => vstd::pervasive::unreached(),
    }
}

/// The readings of every device, by column of the rows read.
fn columns(rows: &Vec<Vec<String>>, units: &Vec<String>, names: &Vec<String>, len: usize) -> (r: Vec<
    DeviceReadings,
>)
    requires
        units@.len() == len + 1,
        names@.len() == len + 1,
        forall|k: int| 0 <= k < rows@.len() ==> (#[trigger] rows@[k])@.len() == len,
    ensures
        r@.len() == len,
        forall|j: int|
            0 <= j < len ==> {
                &&& (#[trigger] r@[j]).unit@ == units@[j + 1]@
                &&& r@[j].name@ == names@[j + 1]@
                &&& fields_view(r@[j].values@) == column(rows_view(rows@), j)
            },
{
    let mut r: Vec<DeviceReadings> = Vec::new();
    let mut j: usize = 0;
    while j < len
        invariant
            j <= len,
            units@.len() == len + 1,
            names@.len() == len + 1,
            forall|k: int| 0 <= k < rows@.len() ==> (#[trigger] rows@[k])@.len() == len,
            r@.len() == j,
            forall|jj: int|
                0 <= jj < j ==> {
                    &&& (#[trigger] r@[jj]).unit@ == units@[jj + 1]@
                    &&& r@[jj].name@ == names@[jj + 1]@
                    &&& fields_view(r@[jj].values@) == column(rows_view(rows@), jj)
                },
        decreases len - j,
    {
        let mut values: Vec<String> = Vec::new();
        let mut k: usize = 0;
        while k < rows.len()
            invariant
                j < len,
                k <= rows@.len(),
                forall|kk: int| 0 <= kk < rows@.len() ==> (#[trigger] rows@[kk])@.len() == len,
                fields_view(values@) == column(rows_view(rows@), j as int).subrange(0, k as int),
            decreases rows@.len() - k,
        {
            let row = &rows[k];
            let ghost old_values = values@;
            values.push(row[j].clone());
            assert(fields_view(values@) =~= fields_view(old_values).push(row@[j as int]@));
            assert(column(rows_view(rows@), j as int)[k as int] == row@[j as int]@);
            assert(fields_view(values@) =~= column(rows_view(rows@), j as int).subrange(
                0,
                k + 1,
            ));
            k = k + 1;
        }
        assert(column(rows_view(rows@), j as int).subrange(0, k as int) =~= column(
            rows_view(rows@),
            j as int,
        ));
        r.push(DeviceReadings { unit: units[j + 1].clone(), name: names[j + 1].clone(), values });
        j = j + 1;
    }
    r
}

impl DeviceList {
    /// Reads a device file. `time_unit_seconds` is asked for the number of seconds in the unit
    /// of the time column, written as in the file (such as `s` or `h`), once the two header
    /// rows are found well-formed; it answers with the bit pattern of an `f32`, or `None` where
    /// the text is no unit of time.
    pub fn from_reader<F: Fn(String) -> Option<u32>>(data: &[u8], time_unit_seconds: F) -> (r:
        Result<DeviceList, ParsingError>)
        requires
            forall|u: String| call_requires(time_unit_seconds, (u,)),
        ensures
            !header_ok(csv_records(data@)) ==> devc_outcome(csv_records(data@), None, r),
            header_ok(csv_records(data@)) ==> exists|u: String, o: Option<u32>|
                {
                    &&& u@ == rec_fields(csv_records(data@)[0])[0]
                    &&& call_ensures(time_unit_seconds, (u,), o)
                    &&& devc_outcome(csv_records(data@), o, r)
                },
    {
        let recs = read_csv_records(data);
        proof {
            lemma_records_view(recs@, csv_records(data@));
        }
        Self::from_records(recs, time_unit_seconds)
    }

    /// Reads the records of a device file, as `csv::Reader` gives them (each its fields, or the
    /// error reported for it), as [`DeviceList::from_reader`] describes.
    pub fn from_records<F: Fn(String) -> Option<u32>>(
        records: Vec<Result<Vec<String>, csv::Error>>,
        time_unit_seconds: F,
    ) -> (r: Result<DeviceList, ParsingError>)
        requires
            forall|u: String| call_requires(time_unit_seconds, (u,)),
        ensures
            !header_ok(records_view(records@)) ==> devc_outcome(records_view(records@), None, r),
            header_ok(records_view(records@)) ==> exists|u: String, o: Option<u32>|
                {
                    &&& u@ == rec_fields(records_view(records@)[0])[0]
                    &&& call_ensures(time_unit_seconds, (u,), o)
                    &&& devc_outcome(records_view(records@), o, r)
                },
    {
        let ghost spec = records_view(records@);
        proof {
            lemma_records_view(records@, spec);
        }
        let mut recs = records;
        if recs.len() == 0 {
            return Err(ParsingError::MissingUnitsLine);
        }
        if recs[0].is_err() {
            return Err(ParsingError::ParsingErrorUnitsCsv(take_error(&mut recs, 0)));
        }
        if recs.len() == 1 {
            return Err(ParsingError::MissingNamesLine);
        }
        if recs[1].is_err() {
            return Err(ParsingError::ParsingErrorNamesCsv(take_error(&mut recs, 1)));
        }
        let n = recs.len();
        let units: &Vec<String> = match &recs[0] {
            Ok(u) => u,
            Err(_) => vstd::pervasive::unreached(),
        };
        let names: &Vec<String> = match &recs[1] {
            Ok(u) => u,
            Err(_) => vstd::pervasive::unreached(),
        };
        assert(fields_view(units@) == rec_fields(spec[0]));
        assert(fields_view(names@) == rec_fields(spec[1]));
        if units.len() != names.len() || units.len() < 1 {
            return Err(
                ParsingError::InvalidUnitsAndNamesCount {
                    units_len: units.len(),
                    names_len: names.len(),
                },
            );
        }
        assert(header_ok(spec));
        let unit_text = units[0].clone();
        let ghost unit_arg = unit_text;
        let unit = time_unit_seconds(unit_text);
        let bits = match unit {
            Some(b) => b,
            None => {
                return Err(ParsingError::InvalidTimeUnit(units[0].clone()));
            },
        };
        let len = units.len() - 1;
        let mut times: Vec<String> = Vec::new();
        let mut rows: Vec<Vec<String>> = Vec::new();
        let mut i: usize = 2;
        assert(fields_view(times@) =~= Seq::<Seq<char>>::empty());
        assert(rows_view(rows@) =~= Seq::<Seq<Seq<char>>>::empty());
        while i < n
            invariant
                2 <= i <= n,
                n == recs@.len(),
                spec == records_view(records@),
                header_ok(spec),
                unit == Some(bits),
                unit_arg@ == rec_fields(spec[0])[0],
                call_ensures(time_unit_seconds, (unit_arg,), unit),
                records_agree(recs@, spec),
                len == rec_fields(spec[0]).len() - 1,
                rows_fold(spec, i as int, len as int) == Ok::<RowsRead, RowFail>(
                    RowsRead { times: fields_view(times@), rows: rows_view(rows@) },
                ),
                forall|k: int| 0 <= k < rows@.len() ==> (#[trigger] rows@[k])@.len() == len,
            decreases n - i,
        {
            if recs[i].is_err() {
                assert(row_step(
                    RowsRead { times: fields_view(times@), rows: rows_view(rows@) },
                    spec[i as int],
                    i as int,
                    len as int,
                ) == Err::<RowsRead, RowFail>(RowFail::Csv(i as int)));
                assert(rows_fold(spec, i + 1, len as int) == Err::<RowsRead, RowFail>(
                    RowFail::Csv(i as int),
                ));
                proof {
                    lemma_rows_fold_err_stays(spec, i + 1, n as int, len as int);
                }
                let res = Err(ParsingError::ParsingErrorCsv(i, take_error(&mut recs, i)));
                assert(devc_outcome(spec, unit, res));
                assert(call_ensures(time_unit_seconds, (unit_arg,), unit));
                return res;
            }
            let rec: &Vec<String> = match &recs[i] {
                Ok(v) => v,
                Err(_) => vstd::pervasive::unreached(),
            };
            let ghost before = rows_view(rows@);
            let ghost old_rows = rows@;
            let ghost old_times = times@;
            let res = read_row(rec, i, len, &mut times, &mut rows);
            if res.is_err() {
                proof {
                    lemma_rows_fold_err_stays(spec, i + 1, n as int, len as int);
                }
                return match res {
                    Err(e) => Err(e),
                    Ok(_) => vstd::pervasive::unreached(),
                };
            }
            proof {
                lemma_row_step_rows(
                    RowsRead { times: fields_view(old_times), rows: before },
                    spec[i as int],
                    i as int,
                    len as int,
                );
                assert forall|k: int| 0 <= k < rows@.len() implies (#[trigger] rows@[k])@.len()
                    == len by {
                    assert(rows_view(rows@)[k] == fields_view(rows@[k]@));
                    if k < before.len() {
                        assert(before[k] == fields_view(old_rows[k]@));
                    }
                }
            }
            i = i + 1;
        }
        let devices = columns(&rows, units, names, len);
        let r = DeviceList { time_unit_seconds: bits, times, devices };
        assert(list_matches(spec, bits, RowsRead { times: fields_view(r.times@), rows: rows_view(rows@) }, r));
        Ok(r)
    }
}


/// The devices of the lists `ls`, one list after the other.
pub open spec fn all_devices(ls: Seq<DeviceList>) -> Seq<DeviceReadings>
    decreases ls.len(),
{
    if ls.len() == 0 {
        Seq::empty()
    } else {
        all_devices(ls.drop_last()) + ls.last().devices@
    }
}

/// Whether `same` was found to hold between the first list and each list below `k` after it.
pub open spec fn all_same_times<G: Fn(&DeviceList, &DeviceList) -> bool>(
    same: G,
    ls: Seq<DeviceList>,
    k: int,
) -> bool {
    forall|i: int| 1 <= i < k ==> call_ensures(same, (&ls[0], &(#[trigger] ls[i])), true)
}

impl DeviceList {
    /// Joins device lists of the same times into one. `same_times` tells whether two lists
    /// have the same times (in seconds); each list after the first is held against the first.
    pub fn merge<G: Fn(&DeviceList, &DeviceList) -> bool>(devices: Vec<DeviceList>, same_times: G) -> (r:
        Result<DeviceList, JoinError>)
        requires
            forall|a: &DeviceList, b: &DeviceList| call_requires(same_times, (a, b)),
        ensures
            devices@.len() == 0 <==> r == Err::<DeviceList, JoinError>(JoinError::EmptyVec),
            r matches Err(JoinError::TimeMismatch(i)) ==> {
                &&& 1 <= i < devices@.len()
                &&& all_same_times(same_times, devices@, i as int)
                &&& call_ensures(same_times, (&devices@[0], &devices@[i as int]), false)
            },
            r matches Ok(l) ==> {
                &&& all_same_times(same_times, devices@, devices@.len() as int)
                &&& l.time_unit_seconds == devices@[0].time_unit_seconds
                &&& l.times@ == devices@[0].times@
                &&& l.devices@ == all_devices(devices@)
            },
    {
        if devices.len() == 0 {
            return Err(JoinError::EmptyVec);
        }
        let mut i: usize = 1;
        while i < devices.len()
            invariant
                1 <= i <= devices@.len(),
                forall|a: &DeviceList, b: &DeviceList| call_requires(same_times, (a, b)),
                all_same_times(same_times, devices@, i as int),
            decreases devices@.len() - i,
        {
            if !same_times(&devices[0], &devices[i]) {
                return Err(JoinError::TimeMismatch(i));
            }
            i = i + 1;
        }
        let ghost all = devices@;
        let mut rest = devices;
        let mut first = rest.remove(0);
        let mut joined: Vec<DeviceReadings> = Vec::new();
        joined.append(&mut first.devices);
        assert(all.subrange(0, 1).drop_last() =~= all.subrange(0, 0));
        assert(all_devices(all.subrange(0, 0)) =~= Seq::<DeviceReadings>::empty());
        let mut k: usize = 1;
        while rest.len() > 0
            invariant
                1 <= k <= all.len() <= usize::MAX,
                rest@ == all.subrange(k as int, all.len() as int),
                joined@ == all_devices(all.subrange(0, k as int)),
            decreases rest@.len(),
        {
            let mut next = rest.remove(0);
            joined.append(&mut next.devices);
            assert(all.subrange(0, k + 1).drop_last() =~= all.subrange(0, k as int));
            k = k + 1;
        }
        assert(all.subrange(0, k as int) =~= all);
        Ok(DeviceList { time_unit_seconds: first.time_unit_seconds, times: first.times, devices: joined })
    }
}


/// What reading device file `data` may give, with `f` looking up the time unit.
pub open spec fn read_outcome<F: Fn(String) -> Option<u32>>(
    f: F,
    data: Seq<u8>,
    r: Result<DeviceList, ParsingError>,
) -> bool {
    &&& !header_ok(csv_records(data)) ==> devc_outcome(csv_records(data), None, r)
    &&& header_ok(csv_records(data)) ==> exists|u: String, o: Option<u32>|
        {
            &&& u@ == rec_fields(csv_records(data)[0])[0]
            &&& call_ensures(f, (u,), o)
            &&& devc_outcome(csv_records(data), o, r)
        }
}

/// What joining the lists `ls` may give, with `same` comparing their times.
pub open spec fn merge_outcome<G: Fn(&DeviceList, &DeviceList) -> bool>(
    same: G,
    ls: Seq<DeviceList>,
    r: Result<DeviceList, JoinError>,
) -> bool {
    &&& ls.len() == 0 <==> r == Err::<DeviceList, JoinError>(JoinError::EmptyVec)
    &&& r matches Err(JoinError::TimeMismatch(i)) ==> {
        &&& 1 <= i < ls.len()
        &&& all_same_times(same, ls, i as int)
        &&& call_ensures(same, (&ls[0], &ls[i as int]), false)
    }
    &&& r matches Ok(l) ==> {
        &&& all_same_times(same, ls, ls.len() as int)
        &&& l.time_unit_seconds == ls[0].time_unit_seconds
        &&& l.times@ == ls[0].times@
        &&& l.devices@ == all_devices(ls)
    }
}

/// Whether reading device file `data` may succeed.
pub open spec fn reads_ok<F: Fn(String) -> Option<u32>>(f: F, data: Seq<u8>) -> bool {
    exists|l: DeviceList| read_outcome(f, data, Ok(l))
}

/// Whether each list of `ls` is what reading the file at its position may give.
pub open spec fn lists_read<F: Fn(String) -> Option<u32>>(
    f: F,
    files: Seq<Vec<u8>>,
    ls: Seq<DeviceList>,
) -> bool {
    &&& ls.len() == files.len()
    &&& forall|k: int| 0 <= k < ls.len() ==> read_outcome(f, (#[trigger] files[k])@, Ok(ls[k]))
}

impl DeviceList {
    /// Reads several device files and joins their devices into one list.
    pub fn from_readers<F: Fn(String) -> Option<u32>, G: Fn(&DeviceList, &DeviceList) -> bool>(
        files: &Vec<Vec<u8>>,
        time_unit_seconds: F,
        same_times: G,
    ) -> (r: Result<DeviceList, DevcError>)
        requires
            forall|u: String| call_requires(time_unit_seconds, (u,)),
            forall|a: &DeviceList, b: &DeviceList| call_requires(same_times, (a, b)),
        ensures
            r matches Err(DevcError::ParsingError(e)) ==> exists|i: int|
                {
                    &&& 0 <= i < files@.len()
                    &&& read_outcome(time_unit_seconds, files@[i]@, Err(e))
                    &&& forall|k: int| 0 <= k < i ==> reads_ok(time_unit_seconds, (#[trigger] files@[k])@)
                },
            !(r matches Err(DevcError::ParsingError(_))) ==> exists|ls: Seq<DeviceList>|
                {
                    &&& #[trigger] lists_read(time_unit_seconds, files@, ls)
                    &&& merge_outcome(
                        same_times,
                        ls,
                        match r {
                            Ok(l) => Ok(l),
                            Err(DevcError::JoinError(e)) => Err(e),
                            Err(DevcError::ParsingError(_)) => Err(JoinError::EmptyVec),
                        },
                    )
                },
    {
        let mut lists: Vec<DeviceList> = Vec::new();
        let mut i: usize = 0;
        while i < files.len()
            invariant
                i <= files@.len(),
                lists@.len() == i,
                forall|u: String| call_requires(time_unit_seconds, (u,)),
                forall|k: int|
                    0 <= k < i ==> read_outcome(
                        time_unit_seconds,
                        (#[trigger] files@[k])@,
                        Ok(lists@[k]),
                    ),
            decreases files@.len() - i,
        {
            let res = DeviceList::from_reader(files[i].as_slice(), &time_unit_seconds);
            match res {
                Ok(l) => {
                    lists.push(l);
                },
                Err(e) => {
                    let ghost ge = e;
                    let r = Err(DevcError::ParsingError(e));
                    assert(read_outcome(time_unit_seconds, files@[i as int]@, Err(ge)));
                    assert forall|k: int| 0 <= k < i implies reads_ok(
                        time_unit_seconds,
                        (#[trigger] files@[k])@,
                    ) by {
                        assert(read_outcome(time_unit_seconds, files@[k]@, Ok(lists@[k])));
                    }
                    return r;
                },
            }
            i = i + 1;
        }
        let ghost ls = lists@;
        assert(lists_read(time_unit_seconds, files@, ls));
        let r = match DeviceList::merge(lists, same_times) {
            Ok(l) => Ok(l),
            Err(e) => Err(DevcError::JoinError(e)),
        };
        r
    }

    /// The device at `idx`, if there is one.
    pub fn get_device_by_idx(&self, idx: DeviceIdx) -> (r: Option<&DeviceReadings>)
        ensures
            r == (if idx.0 < self.devices@.len() {
                Some(&self.devices@[idx.0 as int])
            } else {
                None
            }),
    {
        if idx.0 < self.devices.len() {
            Some(&self.devices[idx.0])
        } else {
            None
        }
    }

    /// The first device named `name`, if there is one.
    pub fn get_device_by_name(&self, name: &str) -> (r: Option<&DeviceReadings>)
        ensures
            match r {
                Some(d) => exists|i: int|
                    {
                        &&& 0 <= i < self.devices@.len()
                        &&& d == &self.devices@[i]
                        &&& self.devices@[i].name@ == name@
                        &&& forall|k: int| 0 <= k < i ==> (#[trigger] self.devices@[k]).name@ != name@
                    },
                None => forall|k: int|
                    0 <= k < self.devices@.len() ==> (#[trigger] self.devices@[k]).name@ != name@,
            },
    {
        let wanted = name.to_owned();
        let mut i: usize = 0;
        while i < self.devices.len()
            invariant
                i <= self.devices@.len(),
                wanted@ == name@,
                forall|k: int| 0 <= k < i ==> (#[trigger] self.devices@[k]).name@ != name@,
            decreases self.devices@.len() - i,
        {
            if self.devices[i].name == wanted {
                return Some(&self.devices[i]);
            }
            i = i + 1;
        }
        None
    }

    /// The positions of all devices, in order.
    pub fn iter_idx(&self) -> (r: Vec<DeviceIdx>)
        ensures
            r@.len() == self.devices@.len(),
            forall|i: int| 0 <= i < r@.len() ==> (#[trigger] r@[i]).0 == i,
    {
        let mut r: Vec<DeviceIdx> = Vec::new();
        let mut i: usize = 0;
        while i < self.devices.len()
            invariant
                i <= self.devices@.len(),
                r@.len() == i,
                forall|k: int| 0 <= k < r@.len() ==> (#[trigger] r@[k]).0 == k,
            decreases self.devices@.len() - i,
        {
            r.push(DeviceIdx(i));
            i = i + 1;
        }
        r
    }

    /// Every device with its position, in order.
    pub fn enumerate_device_readings(&self) -> (r: Vec<(DeviceIdx, &DeviceReadings)>)
        ensures
            r@.len() == self.devices@.len(),
            forall|i: int|
                0 <= i < r@.len() ==> (#[trigger] r@[i]).0.0 == i && r@[i].1 == &self.devices@[i],
    {
        let mut r: Vec<(DeviceIdx, &DeviceReadings)> = Vec::new();
        let mut i: usize = 0;
        while i < self.devices.len()
            invariant
                i <= self.devices@.len(),
                r@.len() == i,
                forall|k: int|
                    0 <= k < r@.len() ==> (#[trigger] r@[k]).0.0 == k && r@[k].1 == &self.devices@[k],
            decreases self.devices@.len() - i,
        {
            r.push((DeviceIdx(i), &self.devices[i]));
            i = i + 1;
        }
        r
    }
}

/// Errors within a single device file, for [`Devices`]; the same as [`ParsingError`].
#[derive(Debug)]
pub enum DevicesParsingError {
    MissingUnitsLine,
    MissingNamesLine,
    MissingTimeUnit,
    InvalidTimeUnit(String),
    ParsingErrorUnitsCsv(csv::Error),
    ParsingErrorNamesCsv(csv::Error),
    InvalidUnitsAndNamesCount { units_len: usize, names_len: usize },
    WrongValueCount(usize, usize, usize),
    ParsingErrorCsv(usize, csv::Error),
    ParsingError(usize, usize),
}

/// The devices of a device file with their time column.
#[derive(Debug)]
pub struct Devices {
    /// The bit pattern of the `f32` number of seconds in one unit of the time column.
    pub time_unit_seconds: u32,
    /// The time column, in its unit.
    pub times: Vec<String>,
    pub devices: Vec<DeviceReadings>,
}

/// Whether `d` is the error `e`, variant for variant.
pub open spec fn same_error(e: ParsingError, d: DevicesParsingError) -> bool {
    match (e, d) {
        (ParsingError::MissingUnitsLine, DevicesParsingError::MissingUnitsLine) => true,
        (ParsingError::MissingNamesLine, DevicesParsingError::MissingNamesLine) => true,
        (ParsingError::MissingTimeUnit, DevicesParsingError::MissingTimeUnit) => true,
        (ParsingError::InvalidTimeUnit(a), DevicesParsingError::InvalidTimeUnit(b)) => a@ == b@,
        (ParsingError::ParsingErrorUnitsCsv(a), DevicesParsingError::ParsingErrorUnitsCsv(b)) => a
            == b,
        (ParsingError::ParsingErrorNamesCsv(a), DevicesParsingError::ParsingErrorNamesCsv(b)) => a
            == b,
        (
            ParsingError::InvalidUnitsAndNamesCount { units_len: a, names_len: b },
            DevicesParsingError::InvalidUnitsAndNamesCount { units_len: c, names_len: d },
        ) => a == c && b == d,
        (
            ParsingError::WrongValueCount(a, b, c),
            DevicesParsingError::WrongValueCount(x, y, z),
        ) => a == x && b == y && c == z,
        (ParsingError::ParsingErrorCsv(a, b), DevicesParsingError::ParsingErrorCsv(x, y)) => a == x
            && b == y,
        (ParsingError::ParsingError(a, b), DevicesParsingError::ParsingError(x, y)) => a == x && b
            == y,
        _ => false,
    }
}

/// Whether `d` is the device list `l`.
pub open spec fn same_devices(l: DeviceList, d: Devices) -> bool {
    &&& d.time_unit_seconds == l.time_unit_seconds
    &&& d.times@ == l.times@
    &&& d.devices@ == l.devices@
}

/// The same error for [`Devices`].
fn devices_error(e: ParsingError) -> (r: DevicesParsingError)
    ensures
        same_error(e, r),
{
    match e {
        ParsingError::MissingUnitsLine => DevicesParsingError::MissingUnitsLine,
        ParsingError::MissingNamesLine => DevicesParsingError::MissingNamesLine,
        ParsingError::MissingTimeUnit => DevicesParsingError::MissingTimeUnit,
        ParsingError::InvalidTimeUnit(u) => DevicesParsingError::InvalidTimeUnit(u),
        ParsingError::ParsingErrorUnitsCsv(x) => DevicesParsingError::ParsingErrorUnitsCsv(x),
        ParsingError::ParsingErrorNamesCsv(x) => DevicesParsingError::ParsingErrorNamesCsv(x),
        ParsingError::InvalidUnitsAndNamesCount { units_len, names_len } =>
            DevicesParsingError::InvalidUnitsAndNamesCount { units_len, names_len },
        ParsingError::WrongValueCount(a, b, c) => DevicesParsingError::WrongValueCount(a, b, c),
        ParsingError::ParsingErrorCsv(a, x) => DevicesParsingError::ParsingErrorCsv(a, x),
        ParsingError::ParsingError(a, b) => DevicesParsingError::ParsingError(a, b),
    }
}

impl Devices {
    /// Reads a device file, as [`DeviceList::from_reader`] does.
    pub fn from_reader<F: Fn(String) -> Option<u32>>(data: &[u8], time_unit_seconds: F) -> (r:
        Result<Devices, DevicesParsingError>)
        requires
            forall|u: String| call_requires(time_unit_seconds, (u,)),
        ensures
            exists|r0: Result<DeviceList, ParsingError>|
                {
                    &&& #[trigger] read_outcome(time_unit_seconds, data@, r0)
                    &&& match (r0, r) {
                        (Ok(l), Ok(d)) => same_devices(l, d),
                        (Err(e), Err(d)) => same_error(e, d),
                        _ => false,
                    }
                },
    {
        let r0 = DeviceList::from_reader(data, time_unit_seconds);
        let ghost g0 = r0;
        let r = match r0 {
            Ok(l) => Ok(Devices { time_unit_seconds: l.time_unit_seconds, times: l.times, devices: l.devices }),
            Err(e) => Err(devices_error(e)),
        };
        assert(read_outcome(time_unit_seconds, data@, g0));
        r
    }
}

/// Joining a single device list gives its devices and times back.
pub proof fn law_merge_single<G: Fn(&DeviceList, &DeviceList) -> bool>(
    same: G,
    l: DeviceList,
    r: Result<DeviceList, JoinError>,
)
    requires
        merge_outcome(same, seq![l], r),
    ensures
        r matches Ok(m) && m.devices@ == l.devices@ && m.times@ == l.times@
            && m.time_unit_seconds == l.time_unit_seconds,
{
    let ls = seq![l];
    assert(ls.drop_last() =~= Seq::<DeviceList>::empty());
    assert(all_devices(Seq::<DeviceList>::empty()) =~= Seq::<DeviceReadings>::empty());
    assert(all_devices(ls) =~= l.devices@);
}

/// Reading a device file never reports a missing time unit: a header row without columns is
/// reported as a count mismatch before.
pub proof fn law_no_missing_time_unit<F: Fn(String) -> Option<u32>>(
    f: F,
    data: Seq<u8>,
    r: Result<DeviceList, ParsingError>,
)
    requires
        read_outcome(f, data, r),
    ensures
        !(r matches Err(ParsingError::MissingTimeUnit)),
{
    let recs = csv_records(data);
    if header_ok(recs) {
        let (u, o) = choose|u: String, o: Option<u32>|
            {
                &&& u@ == rec_fields(recs[0])[0]
                &&& call_ensures(f, (u,), o)
                &&& devc_outcome(recs, o, r)
            };
        if o is Some {
            let len = rec_fields(recs[0]).len() - 1;
            match rows_fold(recs, recs.len() as int, len) {
                Err(e) => {
                    assert(row_error_matches(e, r->Err_0));
                },
                Ok(_) => {},
            }
        }
    }
}

proof fn lemma_rows_within_times(recs: Seq<Option<Seq<Seq<char>>>>, k: int, len: int)
    ensures
        rows_fold(recs, k, len) matches Ok(st) ==> st.rows.len() <= st.times.len(),
    decreases k,
{
    if k > 2 {
        lemma_rows_within_times(recs, k - 1, len);
    }
}

/// In a device list read from a file, every device has the same number of readings, one for
/// each row that has values, and there is a time for each of them.
pub proof fn law_columns_match<F: Fn(String) -> Option<u32>>(f: F, data: Seq<u8>, l: DeviceList)
    requires
        read_outcome(f, data, Ok(l)),
    ensures
        forall|j: int, k: int|
            0 <= j < l.devices@.len() && 0 <= k < l.devices@.len() ==> (#[trigger] l.devices@[j]).values@.len()
                == (#[trigger] l.devices@[k]).values@.len(),
        forall|j: int| 0 <= j < l.devices@.len() ==> (#[trigger] l.devices@[j]).values@.len() <= l.times@.len(),
{
    let recs = csv_records(data);
    let r = Ok::<DeviceList, ParsingError>(l);
    if header_ok(recs) {
        let (u, o) = choose|u: String, o: Option<u32>|
            {
                &&& u@ == rec_fields(recs[0])[0]
                &&& call_ensures(f, (u,), o)
                &&& devc_outcome(recs, o, r)
            };
        let len = rec_fields(recs[0]).len() - 1;
        lemma_rows_within_times(recs, recs.len() as int, len);
        let st = rows_fold(recs, recs.len() as int, len)->Ok_0;
        assert forall|j: int| 0 <= j < l.devices@.len() implies (#[trigger] l.devices@[j]).values@.len()
            == st.rows.len() by {
            assert(fields_view(l.devices@[j].values@) == column(st.rows, j));
        }
        assert(fields_view(l.times@) == st.times);
    }
}

} // verus!
