//! Reflection records read from the lines of a reflection file.

use crate::datum::{DatumView, XDSdatum};
use crate::error::XdsError;
use crate::fixed::Fixed;
use crate::lines::{lines, split_lines, split_words, texts, words};
use crate::report::datum_views;
use crate::text::{as_raw, decimal_value, integer_value, parse_fixed, parse_i64};
use vstd::prelude::*;

verus! {

/// The decimal number in word `idx`, where there is such a word and it
/// spells one.
pub open spec fn decimal_field(w: Seq<Seq<u8>>, idx: int) -> Option<int> {
    if 0 <= idx < w.len() {
        decimal_value(w[idx])
    } else {
        None
    }
}

/// The whole number in word `idx`, where there is such a word and it spells
/// one that 32 bits hold.
pub open spec fn index_field(w: Seq<Seq<u8>>, idx: int) -> Option<int> {
    if 0 <= idx < w.len() {
        match integer_value(w[idx]) {
            Some(v) => if i32::MIN <= v <= i32::MAX {
                Some(v)
            } else {
                None
            },
            None => None,
        }
    } else {
        None
    }
}

/// The decimal numbers in `count` words, the first at `first`, each
/// `stride` words behind the one before; none where a word is missing or
/// spells no number.
pub open spec fn decimals_at(w: Seq<Seq<u8>>, first: int, count: nat, stride: int) -> Option<
    Seq<int>,
> {
    if forall|j: int| 0 <= j < count ==> (#[trigger] decimal_field(w, first + j * stride)) is Some {
        Some(Seq::new(count, |j: int| decimal_field(w, first + j * stride).unwrap()))
    } else {
        None
    }
}

/// The raw values of a list of numbers.
pub open spec fn raw_values(v: Seq<Fixed>) -> Seq<int> {
    Seq::new(v.len(), |i: int| v[i]@)
}

/// What an optional list of numbers holds.
pub open spec fn raw_list(r: Option<Vec<Fixed>>) -> Option<Seq<int>> {
    match r {
        Some(v) => Some(raw_values(v@)),
        None => None,
    }
}

/// Reads the decimal number in word `idx`.
pub fn read_decimal(w: &Vec<Vec<u8>>, idx: usize) -> (r: Option<Fixed>)
    ensures
        as_raw(r) == decimal_field(texts(w@), idx as int),
{
    if idx < w.len() {
        assert(texts(w@)[idx as int] == w[idx as int]@);
        parse_fixed(w[idx].as_slice())
    } else {
        None
    }
}

/// Reads the whole number in word `idx`.
pub fn read_index(w: &Vec<Vec<u8>>, idx: usize) -> (r: Option<i32>)
    ensures
        match index_field(texts(w@), idx as int) {
            Some(v) => r == Some(v as i32),
            None => r is None,
        },
{
    if idx < w.len() {
        assert(texts(w@)[idx as int] == w[idx as int]@);
        match parse_i64(w[idx].as_slice()) {
            Some(v) => if -2_147_483_648 <= v && v <= 2_147_483_647 {
                Some(v as i32)
            } else {
                None
            },
            None => None,
        }
    } else {
        None
    }
}

/// Reads `count` decimal numbers, the first in word `first`, each `stride`
/// words behind the one before.
pub(crate) fn read_decimals(w: &Vec<Vec<u8>>, first: usize, count: usize, stride: usize) -> (r: Option<
    Vec<Fixed>,
>)
    requires
        first <= 64,
        count <= 64,
        stride <= 64,
    ensures
        raw_list(r) == decimals_at(texts(w@), first as int, count as nat, stride as int),
        r is Some ==> r.unwrap()@.len() == count,
{
    let mut out: Vec<Fixed> = Vec::new();
    let mut j: usize = 0;
    while j < count
        invariant
            j <= count,
            first <= 64,
            count <= 64,
            stride <= 64,
            out@.len() == j,
            forall|i: int|
                0 <= i < j ==> (#[trigger] decimal_field(texts(w@), first + i * stride)) == Some(
                    out@[i]@,
                ),
        decreases count - j,
    {
        assert(j * stride <= 64 * 64) by (nonlinear_arith)
            requires
                j <= 64,
                stride <= 64,
        ;
        match read_decimal(w, first + j * stride) {
            Some(f) => {
                out.push(f);
            },
            None => {
                return None;
            },
        }
        j = j + 1;
    }
    assert(raw_values(out@) =~= Seq::new(
        count as nat,
        |i: int| decimal_field(texts(w@), first + i * stride).unwrap(),
    ));
    Some(out)
}

/// The record that a line of twelve or more words spells: three indices,
/// then intensity, its uncertainty, the three coordinates of the
/// observation, and the four numbers of the integration.
#[verifier::opaque]
pub open spec fn datum_of_line(line: Seq<u8>) -> Option<DatumView> {
    let w = words(line);
    match decimals_at(w, 3, 9, 1) {
        None => None,
        Some(d) => if index_field(w, 0) is Some && index_field(w, 1) is Some && index_field(w, 2)
            is Some {
            Some(
                DatumView {
                    h: index_field(w, 0).unwrap(),
                    k: index_field(w, 1).unwrap(),
                    l: index_field(w, 2).unwrap(),
                    intensity: d[0],
                    sigma: d[1],
                    xd: d[2],
                    yd: d[3],
                    zd: d[4],
                    rlp: d[5],
                    peak: d[6],
                    corr: d[7],
                    psi: d[8],
                },
            )
        } else {
            None
        },
    }
}

/// What an optional record holds.
pub open spec fn datum_view(r: Option<XDSdatum>) -> Option<DatumView> {
    match r {
        Some(d) => Some(d@),
        None => None,
    }
}

/// Reads one reflection record from a line.
pub fn from_dataline(line: &[u8]) -> (r: Option<XDSdatum>)
    ensures
        datum_view(r) == datum_of_line(line@),
{
    reveal(datum_of_line);
    let w = split_words(line);
    let d = match read_decimals(&w, 3, 9, 1) {
        Some(d) => d,
        None => {
            return None;
        },
    };
    let h = read_index(&w, 0);
    let k = read_index(&w, 1);
    let l = read_index(&w, 2);
    match (h, k, l) {
        (Some(h), Some(k), Some(l)) => {
            assert(raw_values(d@)[0] == d@[0]@ && raw_values(d@)[1] == d@[1]@ && raw_values(d@)[2]
                == d@[2]@ && raw_values(d@)[3] == d@[3]@ && raw_values(d@)[4] == d@[4]@
                && raw_values(d@)[5] == d@[5]@ && raw_values(d@)[6] == d@[6]@ && raw_values(d@)[7]
                == d@[7]@ && raw_values(d@)[8] == d@[8]@);
            Some(
                XDSdatum::observed(h, k, l, d[0], d[1], [d[2], d[3], d[4]]).with_statistics(
                    d[5],
                    d[6],
                    d[7],
                    d[8],
                ),
            )
        },
        _ => None,
    }
}

/// The line is a comment: it starts with an exclamation mark.
pub open spec fn is_comment(line: Seq<u8>) -> bool {
    line.len() > 0 && line[0] == 33
}

/// What has been read of the data so far: the records, and whether the
/// data has ended.
pub struct DataScan {
    pub records: Seq<DatumView>,
    pub ended: bool,
}

/// The records in the first `n` lines: comments are passed over, the first
/// empty line ends the data, and every other line is a record. A line that
/// spells no record leaves nothing.
pub open spec fn scan_data(all: Seq<Seq<u8>>, n: nat) -> Option<DataScan>
    decreases n,
{
    if n == 0 {
        Some(DataScan { records: Seq::empty(), ended: false })
    } else {
        match scan_data(all, (n - 1) as nat) {
            None => None,
            Some(before) => {
                let line = all[n - 1];
                if before.ended || is_comment(line) {
                    Some(before)
                } else if line.len() == 0 {
                    Some(DataScan { records: before.records, ended: true })
                } else {
                    match datum_of_line(line) {
                        None => None,
                        Some(d) => Some(
                            DataScan { records: before.records.push(d), ended: false },
                        ),
                    }
                }
            },
        }
    }
}

/// The reflection records of a file.
pub open spec fn data_of(text: Seq<u8>) -> Result<Seq<DatumView>, XdsError> {
    match scan_data(lines(text), lines(text).len()) {
        None => Err(XdsError::MalformedInput),
        Some(end) => Ok(end.records),
    }
}

/// What a fallible list of records holds.
pub open spec fn data_result(r: Result<Vec<XDSdatum>, XdsError>) -> Result<Seq<DatumView>, XdsError> {
    match r {
        Ok(v) => Ok(datum_views(v@)),
        Err(e) => Err(e),
    }
}

/// Once a line spells no record, the data cannot be read.
proof fn lemma_scan_data_fails(all: Seq<Seq<u8>>, n: nat, m: nat)
    requires
        n <= m,
        scan_data(all, n) is None,
    ensures
        scan_data(all, m) is None,
    decreases m - n,
{
    if n < m {
        lemma_scan_data_fails(all, n, (m - 1) as nat);
    }
}

/// Reads the reflection records of a file.
pub fn readdata(text: &[u8]) -> (r: Result<Vec<XDSdatum>, XdsError>)
    ensures
        data_result(r) == data_of(text@),
{
    let all = split_lines(text);
    let ghost spec_lines = texts(all@);
    let mut records: Vec<XDSdatum> = Vec::new();
    let mut ended = false;
    let mut i: usize = 0;
    assert(datum_views(records@) =~= Seq::<DatumView>::empty());
    while i < all.len()
        invariant
            i <= all.len(),
            spec_lines == texts(all@),
            spec_lines == lines(text@),
            scan_data(spec_lines, i as nat) == Some(
                DataScan { records: datum_views(records@), ended },
            ),
        decreases all.len() - i,
    {
        assert(spec_lines[i as int] == all[i as int]@);
        let line = &all[i];
        if !ended && !(line.len() > 0 && line[0] == 33) {
            if line.len() == 0 {
                ended = true;
            } else {
                match from_dataline(line.as_slice()) {
                    Some(d) => {
                        let ghost before = datum_views(records@);
                        records.push(d);
                        assert(datum_views(records@) =~= before.push(d@));
                    },
                    None => {
                        proof {
                            assert(scan_data(spec_lines, (i + 1) as nat) is None);
                            lemma_scan_data_fails(spec_lines, (i + 1) as nat, all.len() as nat);
                        }
                        return Err(XdsError::MalformedInput);
                    },
                }
            }
        }
        i = i + 1;
    }
    Ok(records)
}

/// The three indices that a line starts with.
#[verifier::opaque]
pub open spec fn indices_of_line(line: Seq<u8>) -> Option<(i32, i32, i32)> {
    let w = words(line);
    if index_field(w, 0) is Some && index_field(w, 1) is Some && index_field(w, 2) is Some {
        Some(
            (
                index_field(w, 0).unwrap() as i32,
                index_field(w, 1).unwrap() as i32,
                index_field(w, 2).unwrap() as i32,
            ),
        )
    } else {
        None
    }
}

/// Reads the three indices that a line starts with.
pub fn line_indices(line: &[u8]) -> (r: Option<(i32, i32, i32)>)
    ensures
        r == indices_of_line(line@),
{
    reveal(indices_of_line);
    let w = split_words(line);
    let h = read_index(&w, 0);
    let k = read_index(&w, 1);
    let l = read_index(&w, 2);
    match (h, k, l) {
        (Some(h), Some(k), Some(l)) => Some((h, k, l)),
        _ => None,
    }
}

/// The indices in the first `n` lines: comments are passed over, and every
/// other line starts with three indices. A line that does not leaves
/// nothing.
pub open spec fn scan_indices(all: Seq<Seq<u8>>, n: nat) -> Option<Seq<(i32, i32, i32)>>
    decreases n,
{
    if n == 0 {
        Some(Seq::empty())
    } else {
        match scan_indices(all, (n - 1) as nat) {
            None => None,
            Some(before) => {
                let line = all[n - 1];
                if is_comment(line) {
                    Some(before)
                } else {
                    match indices_of_line(line) {
                        Some(t) => Some(before.push(t)),
                        None => None,
                    }
                }
            },
        }
    }
}

/// Once a line starts with no indices, the indices cannot be read.
proof fn lemma_scan_indices_fails(all: Seq<Seq<u8>>, n: nat, m: nat)
    requires
        n <= m,
        scan_indices(all, n) is None,
    ensures
        scan_indices(all, m) is None,
    decreases m - n,
{
    if n < m {
        lemma_scan_indices_fails(all, n, (m - 1) as nat);
    }
}

/// Reads the indices of all reflections of a file.
pub fn reflection_indices(text: &[u8]) -> (r: Result<Vec<(i32, i32, i32)>, XdsError>)
    ensures
        match scan_indices(lines(text@), lines(text@).len()) {
            Some(s) => r matches Ok(v) && v@ == s,
            None => r == Err::<Vec<(i32, i32, i32)>, XdsError>(XdsError::MalformedInput),
        },
{
    let all = split_lines(text);
    let ghost spec_lines = texts(all@);
    let mut out: Vec<(i32, i32, i32)> = Vec::new();
    let mut i: usize = 0;
    while i < all.len()
        invariant
            i <= all.len(),
            spec_lines == texts(all@),
            spec_lines == lines(text@),
            scan_indices(spec_lines, i as nat) == Some(out@),
        decreases all.len() - i,
    {
        assert(spec_lines[i as int] == all[i as int]@);
        let line = &all[i];
        if !(line.len() > 0 && line[0] == 33) {
            match line_indices(line.as_slice()) {
                Some(t) => {
                    out.push(t);
                },
                None => {
                    proof {
                        assert(scan_indices(spec_lines, (i + 1) as nat) is None);
                        lemma_scan_indices_fails(spec_lines, (i + 1) as nat, all.len() as nat);
                    }
                    return Err(XdsError::MalformedInput);
                },
            }
        }
        i = i + 1;
    }
    Ok(out)
}

} // verus!
