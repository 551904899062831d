//! The summary that the data reduction writes of one experiment, read from
//! its lines: the cell with its uncertainties, and what a report of the
//! experiment needs besides.

use crate::error::XdsError;
use crate::fixed::Fixed;
use crate::lines::{contains, find, lines, split_lines, split_words, texts, words};
use crate::merge::{six, Cell, CellView};
use crate::records::{
    decimal_field, decimals_at, index_field, raw_values, read_decimal, read_decimals, read_index,
};
use vstd::prelude::*;
use vstd::string::*;

verus! {

/// What a report of one experiment needs besides the cell.
pub struct Pcf {
    /// The file that the summary was read from.
    pub file: String,
    /// The number of reflections that were indexed.
    pub num_refl: i32,
    /// The name of the detector.
    pub detector: Vec<u8>,
    /// The size of the detector in pixels.
    pub nx: i32,
    pub ny: i32,
    /// The size of a pixel.
    pub qx: Fixed,
    pub qy: Fixed,
    /// The distance from the sample to the detector.
    pub distance: Fixed,
    /// The wavelength.
    pub wavelength: Fixed,
    /// The edges and angles of the cell.
    pub cellabc: [Fixed; 6],
    /// Their uncertainties, where the summary states them.
    pub cellesd: Option<[Fixed; 6]>,
}

/// What the summary has stated so far.
pub struct CorrectFields {
    pub wavelength: int,
    pub detector: Seq<u8>,
    pub nx: int,
    pub ny: int,
    pub qx: int,
    pub qy: int,
    pub distance: int,
    pub num_refl: int,
    pub sg: int,
    pub params: Seq<int>,
    pub esd: Option<Seq<int>>,
}

/// What stands before any line is read: a cell of edge ten with right
/// angles, no space group, no uncertainties, and nothing else.
pub open spec fn correct_start() -> CorrectFields {
    CorrectFields {
        wavelength: 0,
        detector: Seq::empty(),
        nx: 0,
        ny: 0,
        qx: 0,
        qy: 0,
        distance: 0,
        num_refl: 0,
        sg: -1,
        params: seq![
            10_000_000_000int,
            10_000_000_000int,
            10_000_000_000int,
            90_000_000_000int,
            90_000_000_000int,
            90_000_000_000int,
        ],
        esd: None,
    }
}

/// The first place from `from` on at which the byte `b` stands; the length
/// of `s` where it stands nowhere.
pub open spec fn index_of(s: Seq<u8>, b: u8, from: int) -> int
    decreases s.len() - from,
{
    if from < 0 || from >= s.len() {
        s.len() as int
    } else if s[from] == b {
        from
    } else {
        index_of(s, b, from + 1)
    }
}

/// What stands between the first and the second equals sign of a line, or
/// behind the first where there is no second.
pub open spec fn after_equals(line: Seq<u8>) -> Seq<u8> {
    let i = index_of(line, 61, 0);
    if i >= line.len() {
        Seq::empty()
    } else {
        line.subrange(i + 1, index_of(line, 61, i + 1))
    }
}

/// What one line adds to what the summary has stated. The first of the
/// headings that stands in the line decides what is read from it; a line
/// with none of them adds nothing; a heading without its numbers leaves
/// nothing.
#[verifier::opaque]
pub open spec fn correct_step(f: CorrectFields, line: Seq<u8>) -> Option<CorrectFields> {
    let w = words(line);
    if contains(line, " X-RAY_WAVELENGTH=".spec_bytes()) {
        match decimal_field(w, 1) {
            Some(x) => Some(CorrectFields { wavelength: x, ..f }),
            None => None,
        }
    } else if contains(line, " DETECTOR=".spec_bytes()) {
        Some(CorrectFields { detector: after_equals(line), ..f })
    } else if contains(line, " NX=".spec_bytes()) {
        match (index_field(w, 1), index_field(w, 3), decimal_field(w, 5), decimal_field(w, 7)) {
            (Some(nx), Some(ny), Some(qx), Some(qy)) => Some(
                CorrectFields { nx, ny, qx, qy, ..f },
            ),
            _ => None,
        }
    } else if contains(line, " DETECTOR_DISTANCE=".spec_bytes()) {
        match decimal_field(w, 1) {
            Some(x) => Some(CorrectFields { distance: x, ..f }),
            None => None,
        }
    } else if contains(line, " INDEXED SPOTS".spec_bytes()) {
        match index_field(w, 7) {
            Some(x) => Some(CorrectFields { num_refl: x, ..f }),
            None => None,
        }
    } else if contains(line, " SPACE GROUP NUMBER ".spec_bytes()) {
        match index_field(w, 3) {
            Some(x) => Some(CorrectFields { sg: x, ..f }),
            None => None,
        }
    } else if contains(line, " UNIT CELL PARAMETERS ".spec_bytes()) {
        match decimals_at(w, 3, 6, 1) {
            Some(p) => Some(CorrectFields { params: p, ..f }),
            None => None,
        }
    } else if contains(line, " E.S.D. OF CELL PARAMETERS".spec_bytes()) {
        if w.len() == 5 {
            Some(CorrectFields { esd: None, ..f })
        } else {
            match decimals_at(w, 4, 6, 1) {
                Some(e) => Some(CorrectFields { esd: Some(e), ..f }),
                None => None,
            }
        }
    } else {
        Some(f)
    }
}

/// What the first `n` lines state.
pub open spec fn scan_correct(all: Seq<Seq<u8>>, n: nat) -> Option<CorrectFields>
    decreases n,
{
    if n == 0 {
        Some(correct_start())
    } else {
        match scan_correct(all, (n - 1) as nat) {
            None => None,
            Some(before) => correct_step(before, all[n - 1]),
        }
    }
}

/// What a summary comes to. An empty summary comes to nothing.
pub open spec fn correct_of(text: Seq<u8>) -> Result<Option<CorrectFields>, XdsError> {
    if text.len() == 0 {
        Ok(None)
    } else {
        match scan_correct(lines(text), lines(text).len()) {
            None => Err(XdsError::MalformedInput),
            Some(f) => Ok(Some(f)),
        }
    }
}

/// What has been read of the summary, as the program holds it.
struct CorrectState {
    wavelength: Fixed,
    detector: Vec<u8>,
    nx: i32,
    ny: i32,
    qx: Fixed,
    qy: Fixed,
    distance: Fixed,
    num_refl: i32,
    sg: i32,
    params: Vec<Fixed>,
    esd: Option<Vec<Fixed>>,
}

impl CorrectState {
    spec fn well_formed(&self) -> bool {
        &&& self.params@.len() == 6
        &&& self.esd matches Some(e) ==> e@.len() == 6
    }
}

impl View for CorrectState {
    type V = CorrectFields;

    closed spec fn view(&self) -> CorrectFields {
        CorrectFields {
            wavelength: self.wavelength@,
            detector: self.detector@,
            nx: self.nx as int,
            ny: self.ny as int,
            qx: self.qx@,
            qy: self.qy@,
            distance: self.distance@,
            num_refl: self.num_refl as int,
            sg: self.sg as int,
            params: raw_values(self.params@),
            esd: match self.esd {
                Some(e) => Some(raw_values(e@)),
                None => None,
            },
        }
    }
}

/// The first place from `from` on at which `b` stands.
fn position_of(s: &[u8], b: u8, from: usize) -> (r: usize)
    ensures
        r == index_of(s@, b, from as int),
        r <= s@.len(),
        from <= s@.len() ==> from <= r,
{
    let n = s.len();
    if from >= n {
        return n;
    }
    let mut i = from;
    while i < n && s[i] != b
        invariant
            from <= i <= n,
            n == s@.len(),
            index_of(s@, b, from as int) == index_of(s@, b, i as int),
        decreases n - i,
    {
        i = i + 1;
    }
    i
}

/// What stands between the first and the second equals sign.
fn piece_after_equals(line: &[u8]) -> (r: Vec<u8>)
    ensures
        r@ == after_equals(line@),
{
    let i = position_of(line, 61, 0);
    if i >= line.len() {
        return Vec::new();
    }
    let j = position_of(line, 61, i + 1);
    let mut out: Vec<u8> = Vec::new();
    let mut k = i + 1;
    while k < j
        invariant
            i + 1 <= k <= j <= line@.len(),
            out@ == line@.subrange(i + 1, k as int),
        decreases j - k,
    {
        out.push(line[k]);
        assert(line@.subrange(i + 1, k + 1) =~= line@.subrange(i + 1, k as int).push(
            line@[k as int],
        ));
        k = k + 1;
    }
    out
}

/// What stands before any line is read.
fn start_state() -> (r: CorrectState)
    ensures
        r@ == correct_start(),
        r.well_formed(),
{
    let ten = Fixed::from_raw(10_000_000_000).unwrap();
    let ninety = Fixed::from_raw(90_000_000_000).unwrap();
    let zero = Fixed::zero();
    let params = vec![ten, ten, ten, ninety, ninety, ninety];
    assert(raw_values(params@) =~= correct_start().params);
    CorrectState {
        wavelength: zero,
        detector: Vec::new(),
        nx: 0,
        ny: 0,
        qx: zero,
        qy: zero,
        distance: zero,
        num_refl: 0,
        sg: -1,
        params,
        esd: None,
    }
}

/// Adds what one line states.
fn step(state: CorrectState, line: &[u8]) -> (r: Option<CorrectState>)
    requires
        state.well_formed(),
    ensures
        match correct_step(state@, line@) {
            Some(f) => r matches Some(s) && s@ == f && s.well_formed(),
            None => r is None,
        },
{
    reveal(correct_step);
    let w = split_words(line);
    let mut next = state;
    if find(line, " X-RAY_WAVELENGTH=".as_bytes()) {
        next.wavelength = read_decimal(&w, 1)?;
    } else if find(line, " DETECTOR=".as_bytes()) {
        next.detector = piece_after_equals(line);
    } else if find(line, " NX=".as_bytes()) {
        let nx = read_index(&w, 1);
        let ny = read_index(&w, 3);
        let qx = read_decimal(&w, 5);
        let qy = read_decimal(&w, 7);
        match (nx, ny, qx, qy) {
            (Some(nx), Some(ny), Some(qx), Some(qy)) => {
                next.nx = nx;
                next.ny = ny;
                next.qx = qx;
                next.qy = qy;
            },
            _ => {
                return None;
            },
        }
    } else if find(line, " DETECTOR_DISTANCE=".as_bytes()) {
        next.distance = read_decimal(&w, 1)?;
    } else if find(line, " INDEXED SPOTS".as_bytes()) {
        next.num_refl = read_index(&w, 7)?;
    } else if find(line, " SPACE GROUP NUMBER ".as_bytes()) {
        next.sg = read_index(&w, 3)?;
    } else if find(line, " UNIT CELL PARAMETERS ".as_bytes()) {
        next.params = read_decimals(&w, 3, 6, 1)?;
    } else if find(line, " E.S.D. OF CELL PARAMETERS".as_bytes()) {
        if w.len() == 5 {
            next.esd = None;
        } else {
            next.esd = Some(read_decimals(&w, 4, 6, 1)?);
        }
    }
    Some(next)
}

/// Once a heading stands without its numbers, the summary cannot be read.
proof fn lemma_scan_correct_fails(all: Seq<Seq<u8>>, n: nat, m: nat)
    requires
        n <= m,
        scan_correct(all, n) is None,
    ensures
        scan_correct(all, m) is None,
    decreases m - n,
{
    if n < m {
        lemma_scan_correct_fails(all, n, (m - 1) as nat);
    }
}

/// Six numbers from a list of six.
fn six_of(v: &Vec<Fixed>) -> (r: [Fixed; 6])
    requires
        v@.len() == 6,
    ensures
        six(r) == raw_values(v@),
{
    let r = [v[0], v[1], v[2], v[3], v[4], v[5]];
    assert(six(r) =~= raw_values(v@));
    r
}

/// The cell that a summary states.
pub open spec fn cell_from(file: Seq<char>, f: CorrectFields) -> CellView {
    CellView { file, sg: f.sg, params: f.params, esd: f.esd }
}

/// What a report record holds of what the summary states: everything but
/// the space group.
pub open spec fn pcf_matches(p: Pcf, file: Seq<char>, f: CorrectFields) -> bool {
    &&& p.file@ == file
    &&& p.num_refl == f.num_refl
    &&& p.detector@ == f.detector
    &&& p.nx == f.nx
    &&& p.ny == f.ny
    &&& p.qx@ == f.qx
    &&& p.qy@ == f.qy
    &&& p.distance@ == f.distance
    &&& p.wavelength@ == f.wavelength
    &&& six(p.cellabc) == f.params
    &&& match p.cellesd {
        Some(e) => f.esd == Some(six(e)),
        None => f.esd is None,
    }
}

/// Reads the summary of one experiment from the text of the file
/// `filename`. An empty text, as of a file that could not be read, gives
/// nothing.
pub fn rd_correct(filename: &str, text: &[u8]) -> (r: Result<Option<(Cell, Pcf)>, XdsError>)
    ensures
        match correct_of(text@) {
            Ok(Some(f)) => r matches Ok(Some(pair)) && pair.0@ == cell_from(filename@, f)
                && pcf_matches(pair.1, filename@, f),
            Ok(None) => r matches Ok(None),
            Err(e) => r matches Err(x) && x == e,
        },
{
    if text.len() == 0 {
        return Ok(None);
    }
    let all = split_lines(text);
    let ghost spec_lines = texts(all@);
    let mut state = start_state();
    let mut i: usize = 0;
    while i < all.len()
        invariant
            i <= all.len(),
            spec_lines == texts(all@),
            spec_lines == lines(text@),
            state.well_formed(),
            scan_correct(spec_lines, i as nat) == Some(state@),
        decreases all.len() - i,
    {
        assert(spec_lines[i as int] == all[i as int]@);
        match step(state, all[i].as_slice()) {
            Some(next) => {
                state = next;
            },
            None => {
                proof {
                    assert(scan_correct(spec_lines, (i + 1) as nat) is None);
                    lemma_scan_correct_fails(spec_lines, (i + 1) as nat, all.len() as nat);
                }
                return Err(XdsError::MalformedInput);
            },
        }
        i = i + 1;
    }
    let params = six_of(&state.params);
    let esd = match &state.esd {
        Some(e) => Some(six_of(e)),
        None => None,
    };
    let cell = Cell { file: String::from_str(filename), sg: state.sg, params, esd };
    let pcf = Pcf {
        file: String::from_str(filename),
        num_refl: state.num_refl,
        detector: state.detector,
        nx: state.nx,
        ny: state.ny,
        qx: state.qx,
        qy: state.qy,
        distance: state.distance,
        wavelength: state.wavelength,
        cellabc: params,
        cellesd: esd,
    };
    Ok(Some((cell, pcf)))
}

} // verus!
