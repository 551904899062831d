//! The header of a reflection file, read from its lines.

use crate::error::{viewed, XdsError};
use crate::fixed::{fits, Fixed, ONE};
use crate::header::{
    detector_frame, sextuple_view, triple_view, Det, DetView, Geom, GeomView, HeaderView,
    XDSheader,
};
use crate::lines::{contains, find, lines, split_lines, split_words, texts, words};
use crate::records::{decimals_at, index_field, raw_values, read_decimals, read_index};
use crate::xyz::{V3, XYZ};
use vstd::prelude::*;
use vstd::string::*;

verus! {

/// The number of keywords that are followed by numbers alone.
pub const HEADER_KEYS: usize = 15;

/// Keyword `k` of the header, with the exclamation mark before and the
/// equals sign behind it.
pub open spec fn header_key(k: int) -> Seq<u8> {
    if k == 0 {
        "!DATA_RANGE=".spec_bytes()
    } else if k == 1 {
        "!ROTATION_AXIS=".spec_bytes()
    } else if k == 2 {
        "!OSCILLATION_RANGE=".spec_bytes()
    } else if k == 3 {
        "!STARTING_ANGLE=".spec_bytes()
    } else if k == 4 {
        "!STARTING_FRAME=".spec_bytes()
    } else if k == 5 {
        "!INCLUDE_RESOLUTION_RANGE=".spec_bytes()
    } else if k == 6 {
        "!SPACE_GROUP_NUMBER=".spec_bytes()
    } else if k == 7 {
        "!UNIT_CELL_CONSTANTS=".spec_bytes()
    } else if k == 8 {
        "!UNIT_CELL_A-AXIS=".spec_bytes()
    } else if k == 9 {
        "!UNIT_CELL_B-AXIS=".spec_bytes()
    } else if k == 10 {
        "!UNIT_CELL_C-AXIS=".spec_bytes()
    } else if k == 11 {
        "!X-RAY_WAVELENGTH=".spec_bytes()
    } else if k == 12 {
        "!INCIDENT_BEAM_DIRECTION=".spec_bytes()
    } else if k == 13 {
        "!DIRECTION_OF_DETECTOR_X-AXIS=".spec_bytes()
    } else {
        "!DIRECTION_OF_DETECTOR_Y-AXIS=".spec_bytes()
    }
}

/// How many numbers follow keyword `k`.
pub open spec fn header_count(k: int) -> nat {
    if k == 0 || k == 5 {
        2
    } else if k == 7 {
        6
    } else if k == 2 || k == 3 || k == 4 || k == 6 || k == 11 {
        1
    } else {
        3
    }
}

/// The numbers that stand for keyword `k` until the header states others.
pub open spec fn header_default(k: int) -> Seq<int> {
    if k == 0 {
        seq![ONE as int, 1_000 * ONE]
    } else if k == 2 {
        seq![500_000_000int]
    } else if k == 3 {
        seq![0int]
    } else if k == 4 {
        seq![ONE as int]
    } else if k == 5 {
        seq![840_000_000int, 999_900_000_000int]
    } else if k == 6 {
        seq![0int]
    } else if k == 7 {
        seq![10 * ONE, 10 * ONE, 10 * ONE, 90 * ONE, 90 * ONE, 90 * ONE]
    } else if k == 8 {
        seq![10 * ONE, 0int, 0int]
    } else if k == 9 {
        seq![0int, 10 * ONE, 0int]
    } else if k == 10 {
        seq![0int, 0int, 10 * ONE]
    } else if k == 11 {
        seq![25_080_000int]
    } else if k == 12 {
        seq![0int, 0int, ONE as int]
    } else {
        seq![ONE as int, 0int, 0int]
    }
}

/// What the header has stated so far.
pub struct HeaderFields {
    /// For each keyword, the numbers that last followed it.
    pub values: Seq<Seq<int>>,
    pub nx: u16,
    pub ny: u16,
    pub qx: int,
    pub qy: int,
}

/// What stands before any line is read.
pub open spec fn header_start() -> HeaderFields {
    HeaderFields {
        values: Seq::new(HEADER_KEYS as nat, |k: int| header_default(k)),
        nx: 1024,
        ny: 512,
        qx: 75_000_000,
        qy: 75_000_000,
    }
}

/// The first keyword from `k` on that stands in the line.
pub open spec fn first_key(line: Seq<u8>, k: int) -> Option<int>
    decreases HEADER_KEYS - k,
{
    if k < 0 || k >= HEADER_KEYS {
        None
    } else if contains(line, header_key(k)) {
        Some(k)
    } else {
        first_key(line, k + 1)
    }
}

/// The whole number in word `idx`, where it is a count that sixteen bits
/// hold.
pub open spec fn count_field(w: Seq<Seq<u8>>, idx: int) -> Option<u16> {
    match index_field(w, idx) {
        Some(v) => if 0 <= v <= 65_535 {
            Some(v as u16)
        } else {
            None
        },
        None => None,
    }
}

/// What one line adds to what the header has stated. A line with one of
/// the keywords gives that keyword its numbers; a line with none of them
/// but with `!NX=` gives the size of the detector and of a pixel, each
/// behind a name of its own; any other line adds nothing. A keyword without
/// its numbers leaves nothing.
#[verifier::opaque]
pub open spec fn header_step(f: HeaderFields, line: Seq<u8>) -> Option<HeaderFields> {
    let w = words(line);
    match first_key(line, 0) {
        Some(k) => match decimals_at(w, 1, header_count(k), 1) {
            Some(v) => Some(HeaderFields { values: f.values.update(k, v), ..f }),
            None => None,
        },
        None => if contains(line, "!NX=".spec_bytes()) {
            match (count_field(w, 1), count_field(w, 3), decimals_at(w, 5, 2, 2)) {
                (Some(nx), Some(ny), Some(q)) => Some(
                    HeaderFields { nx, ny, qx: q[0], qy: q[1], ..f },
                ),
                _ => None,
            }
        } else {
            Some(f)
        },
    }
}

/// The line ends the header.
pub open spec fn ends_header(line: Seq<u8>) -> bool {
    contains(line, "!END_OF_HEADER".spec_bytes())
}

/// How far the header has been read.
pub struct HeaderScan {
    pub fields: HeaderFields,
    pub ended: bool,
}

/// What the first `n` lines state: every line up to the one that ends the
/// header adds its part.
pub open spec fn scan_header(all: Seq<Seq<u8>>, n: nat) -> Option<HeaderScan>
    decreases n,
{
    if n == 0 {
        Some(HeaderScan { fields: header_start(), ended: false })
    } else {
        match scan_header(all, (n - 1) as nat) {
            None => None,
            Some(before) => if before.ended {
                Some(before)
            } else if ends_header(all[n - 1]) {
                Some(HeaderScan { fields: before.fields, ended: true })
            } else {
                match header_step(before.fields, all[n - 1]) {
                    Some(fields) => Some(HeaderScan { fields, ended: false }),
                    None => None,
                }
            },
        }
    }
}

/// The whole part of a raw value as a count: nothing below zero, and no
/// more than `top`.
pub open spec fn saturated(raw: int, top: int) -> int {
    if raw <= 0 {
        0
    } else if raw / (ONE as int) > top {
        top
    } else {
        raw / (ONE as int)
    }
}

/// The vector of three numbers.
pub open spec fn v3_from(t: Seq<int>) -> V3 {
    V3 { x: t[0], y: t[1], z: t[2] }
}

/// The header that the stated numbers come to. What no keyword states is
/// fixed: the names are empty, the beam hits the detector at pixel 512 by
/// 256, the detector stands 123.4 away, and the three numbers on beam and
/// rotation axis are a tenth each. The axes of the detector are brought to
/// length one.
pub open spec fn assemble_header(f: HeaderFields) -> Result<HeaderView, XdsError> {
    match detector_frame(v3_from(f.values[13]), v3_from(f.values[14])) {
        Err(e) => Err(e),
        Ok(frame) => Ok(
            HeaderView {
                name_template: Seq::empty(),
                oscrange: f.values[2][0],
                drange: seq![
                    saturated(f.values[0][0], 65_535) as u16,
                    saturated(f.values[0][1], 65_535) as u16,
                ],
                phi0: f.values[3][0],
                frameno0: saturated(f.values[4][0], 65_535) as u16,
                dmin: f.values[5][0],
                dmax: f.values[5][1],
                sg_number: saturated(f.values[6][0], 255) as u8,
                cell: f.values[7],
                vec_a: v3_from(f.values[8]),
                vec_b: v3_from(f.values[9]),
                vec_c: v3_from(f.values[10]),
                detector: DetView {
                    name: Seq::empty(),
                    detx: frame.0,
                    dety: frame.1,
                    detz: frame.2,
                    nx: f.nx,
                    ny: f.ny,
                    qx: f.qx,
                    qy: f.qy,
                    orgx: 512 * ONE,
                    orgy: 256 * ONE,
                },
                geometry: GeomView {
                    rotaxis: v3_from(f.values[1]),
                    dir_beam: v3_from(f.values[12]),
                    dist: 123_400_000_000,
                    lambda: f.values[11][0],
                    s0r: seq![100_000_000int, 100_000_000int, 100_000_000int],
                },
            },
        ),
    }
}

/// The header of a reflection file.
pub open spec fn header_of(text: Seq<u8>) -> Result<HeaderView, XdsError> {
    match scan_header(lines(text), lines(text).len()) {
        None => Err(XdsError::MalformedInput),
        Some(end) => assemble_header(end.fields),
    }
}

/// What has been read of the header, as the program holds it.
struct HeaderState {
    values: Vec<Vec<Fixed>>,
    nx: u16,
    ny: u16,
    qx: Fixed,
    qy: Fixed,
}

impl HeaderState {
    spec fn well_formed(&self) -> bool {
        &&& self.values@.len() == HEADER_KEYS
        &&& forall|k: int|
            0 <= k < HEADER_KEYS ==> (#[trigger] self.values@[k])@.len() == header_count(k)
    }
}

impl View for HeaderState {
    type V = HeaderFields;

    closed spec fn view(&self) -> HeaderFields {
        HeaderFields {
            values: Seq::new(self.values@.len(), |k: int| raw_values(self.values@[k]@)),
            nx: self.nx,
            ny: self.ny,
            qx: self.qx@,
            qy: self.qy@,
        }
    }
}

/// The text of keyword `k`.
fn header_keyword(k: usize) -> (r: &'static str)
    requires
        k < HEADER_KEYS,
    ensures
        r.spec_bytes() == header_key(k as int),
{
    if k == 0 {
        "!DATA_RANGE="
    } else if k == 1 {
        "!ROTATION_AXIS="
    } else if k == 2 {
        "!OSCILLATION_RANGE="
    } else if k == 3 {
        "!STARTING_ANGLE="
    } else if k == 4 {
        "!STARTING_FRAME="
    } else if k == 5 {
        "!INCLUDE_RESOLUTION_RANGE="
    } else if k == 6 {
        "!SPACE_GROUP_NUMBER="
    } else if k == 7 {
        "!UNIT_CELL_CONSTANTS="
    } else if k == 8 {
        "!UNIT_CELL_A-AXIS="
    } else if k == 9 {
        "!UNIT_CELL_B-AXIS="
    } else if k == 10 {
        "!UNIT_CELL_C-AXIS="
    } else if k == 11 {
        "!X-RAY_WAVELENGTH="
    } else if k == 12 {
        "!INCIDENT_BEAM_DIRECTION="
    } else if k == 13 {
        "!DIRECTION_OF_DETECTOR_X-AXIS="
    } else {
        "!DIRECTION_OF_DETECTOR_Y-AXIS="
    }
}

/// How many numbers follow keyword `k`.
fn header_numbers(k: usize) -> (r: usize)
    requires
        k < HEADER_KEYS,
    ensures
        r == header_count(k as int),
        r <= 6,
{
    if k == 0 || k == 5 {
        2
    } else if k == 7 {
        6
    } else if k == 2 || k == 3 || k == 4 || k == 6 || k == 11 {
        1
    } else {
        3
    }
}

/// A number from a raw value within the limit.
fn number(raw: i64) -> (r: Fixed)
    requires
        fits(raw as int),
    ensures
        r@ == raw,
{
    Fixed::from_raw(raw).unwrap()
}

/// The numbers that stand for keyword `k` at the start.
fn default_numbers(k: usize) -> (r: Vec<Fixed>)
    requires
        k < HEADER_KEYS,
    ensures
        raw_values(r@) == header_default(k as int),
        r@.len() == header_count(k as int),
{
    let one: i64 = 1_000_000_000;
    let r = if k == 0 {
        vec![number(one), number(1_000 * one)]
    } else if k == 2 {
        vec![number(500_000_000)]
    } else if k == 3 {
        vec![number(0)]
    } else if k == 4 {
        vec![number(one)]
    } else if k == 5 {
        vec![number(840_000_000), number(999_900_000_000)]
    } else if k == 6 {
        vec![number(0)]
    } else if k == 7 {
        vec![
            number(10 * one),
            number(10 * one),
            number(10 * one),
            number(90 * one),
            number(90 * one),
            number(90 * one),
        ]
    } else if k == 8 {
        vec![number(10 * one), number(0), number(0)]
    } else if k == 9 {
        vec![number(0), number(10 * one), number(0)]
    } else if k == 10 {
        vec![number(0), number(0), number(10 * one)]
    } else if k == 11 {
        vec![number(25_080_000)]
    } else if k == 12 {
        vec![number(0), number(0), number(one)]
    } else {
        vec![number(one), number(0), number(0)]
    };
    assert(raw_values(r@) =~= header_default(k as int));
    r
}

/// What stands before any line is read.
fn start_state() -> (r: HeaderState)
    ensures
        r@ == header_start(),
        r.well_formed(),
{
    let mut values: Vec<Vec<Fixed>> = Vec::new();
    let mut k: usize = 0;
    while k < HEADER_KEYS
        invariant
            k <= HEADER_KEYS,
            values@.len() == k,
            forall|j: int|
                0 <= j < k ==> raw_values((#[trigger] values@[j])@) == header_default(j)
                    && values@[j]@.len() == header_count(j),
        decreases HEADER_KEYS - k,
    {
        values.push(default_numbers(k));
        k = k + 1;
    }
    let r = HeaderState {
        values,
        nx: 1024,
        ny: 512,
        qx: number(75_000_000),
        qy: number(75_000_000),
    };
    assert(r@.values =~= header_start().values);
    r
}

/// The first keyword that stands in the line.
fn find_key(line: &[u8]) -> (r: Option<usize>)
    ensures
        match first_key(line@, 0) {
            Some(k) => r == Some(k as usize) && 0 <= k < HEADER_KEYS,
            None => r is None,
        },
{
    let mut k: usize = 0;
    while k < HEADER_KEYS
        invariant
            k <= HEADER_KEYS,
            first_key(line@, 0) == first_key(line@, k as int),
        decreases HEADER_KEYS - k,
    {
        if find(line, header_keyword(k).as_bytes()) {
            return Some(k);
        }
        k = k + 1;
    }
    None
}

/// Reads the count in word `idx`.
fn read_count(w: &Vec<Vec<u8>>, idx: usize) -> (r: Option<u16>)
    ensures
        r == count_field(texts(w@), idx as int),
{
    match read_index(w, idx) {
        Some(v) => if 0 <= v && v <= 65_535 {
            Some(v as u16)
        } else {
            None
        },
        None => None,
    }
}

/// Adds what one line states.
fn step(state: HeaderState, line: &[u8]) -> (r: Option<HeaderState>)
    requires
        state.well_formed(),
    ensures
        match header_step(state@, line@) {
            Some(f) => r matches Some(s) && s@ == f && s.well_formed(),
            None => r is None,
        },
{
    reveal(header_step);
    let w = split_words(line);
    match find_key(line) {
        Some(k) => match read_decimals(&w, 1, header_numbers(k), 1) {
            Some(v) => {
                let mut next = state;
                let ghost before = next@;
                next.values[k] = v;
                assert(next@.values =~= before.values.update(k as int, raw_values(v@)));
                Some(next)
            },
            None => None,
        },
        None => if find(line, "!NX=".as_bytes()) {
            let nx = read_count(&w, 1);
            let ny = read_count(&w, 3);
            let q = read_decimals(&w, 5, 2, 2);
            match (nx, ny, q) {
                (Some(nx), Some(ny), Some(q)) => {
                    assert(raw_values(q@)[0] == q@[0]@ && raw_values(q@)[1] == q@[1]@);
                    Some(HeaderState { values: state.values, nx, ny, qx: q[0], qy: q[1] })
                },
                _ => None,
            }
        } else {
            Some(state)
        },
    }
}

/// Once a keyword stands without its numbers, the header cannot be read.
proof fn lemma_scan_header_fails(all: Seq<Seq<u8>>, n: nat, m: nat)
    requires
        n <= m,
        scan_header(all, n) is None,
    ensures
        scan_header(all, m) is None,
    decreases m - n,
{
    if n < m {
        lemma_scan_header_fails(all, n, (m - 1) as nat);
    }
}

/// The whole part of a number as a count of at most `top`.
fn saturate(x: &Fixed, top: u16) -> (r: u16)
    ensures
        r == saturated(x@, top as int),
{
    let raw = x.raw();
    if raw <= 0 {
        0
    } else {
        let whole = raw / 1_000_000_000;
        if whole > top as i64 {
            top
        } else {
            whole as u16
        }
    }
}

/// The vector of the three numbers in `t`.
fn vector_of(t: &Vec<Fixed>) -> (r: XYZ)
    requires
        t@.len() == 3,
    ensures
        r@ == v3_from(raw_values(t@)),
{
    XYZ::new(t[0], t[1], t[2])
}

/// Makes the header of what the lines have stated.
fn assemble(state: &HeaderState) -> (r: Result<XDSheader, XdsError>)
    requires
        state.well_formed(),
    ensures
        viewed(r) == assemble_header(state@),
{
    let v = &state.values;
    assert(forall|k: int| 0 <= k < HEADER_KEYS ==> state@.values[k] == raw_values(v@[k]@));
    assert(v@[0]@.len() == header_count(0) && v@[1]@.len() == header_count(1) && v@[2]@.len()
        == header_count(2) && v@[3]@.len() == header_count(3) && v@[4]@.len() == header_count(4)
        && v@[5]@.len() == header_count(5) && v@[6]@.len() == header_count(6) && v@[7]@.len()
        == header_count(7) && v@[8]@.len() == header_count(8) && v@[9]@.len() == header_count(9)
        && v@[10]@.len() == header_count(10) && v@[11]@.len() == header_count(11)
        && v@[12]@.len() == header_count(12) && v@[13]@.len() == header_count(13)
        && v@[14]@.len() == header_count(14));
    let detx = vector_of(&v[13]);
    let dety = vector_of(&v[14]);
    let detector = Det::new(
        String::new(),
        &detx,
        &dety,
        state.nx,
        state.ny,
        state.qx,
        state.qy,
        number(512_000_000_000),
        number(256_000_000_000),
    )?;
    let tenth = number(100_000_000);
    let s0r = [tenth, tenth, tenth];
    let geometry = Geom::new(
        vector_of(&v[1]),
        vector_of(&v[12]),
        number(123_400_000_000),
        v[11][0],
        s0r,
    );
    let cell = [v[7][0], v[7][1], v[7][2], v[7][3], v[7][4], v[7][5]];
    let drange = [saturate(&v[0][0], 65_535), saturate(&v[0][1], 65_535)];
    let header = XDSheader {
        name_template: String::new(),
        oscrange: v[2][0],
        drange,
        phi0: v[3][0],
        frameno0: saturate(&v[4][0], 65_535),
        dmin: v[5][0],
        dmax: v[5][1],
        sg_number: saturate(&v[6][0], 255) as u8,
        cell,
        vec_a: vector_of(&v[8]),
        vec_b: vector_of(&v[9]),
        vec_c: vector_of(&v[10]),
        detector,
        geometry,
    };
    proof {
        assert(sextuple_view(cell) =~= raw_values(v@[7]@));
        assert(triple_view(s0r) =~= seq![100_000_000int, 100_000_000int, 100_000_000int]);
        assert(drange@ =~= seq![
            saturated(state@.values[0][0], 65_535) as u16,
            saturated(state@.values[0][1], 65_535) as u16,
        ]);
    }
    Ok(header)
}

/// Reads the header of a reflection file.
pub fn readheader(text: &[u8]) -> (r: Result<XDSheader, XdsError>)
    ensures
        viewed(r) == header_of(text@),
{
    let all = split_lines(text);
    let ghost spec_lines = texts(all@);
    let mut state = start_state();
    let mut ended = false;
    let mut i: usize = 0;
    while i < all.len() && !ended
        invariant
            i <= all.len(),
            spec_lines == texts(all@),
            spec_lines == lines(text@),
            state.well_formed(),
            scan_header(spec_lines, i as nat) == Some(HeaderScan { fields: state@, ended }),
        decreases all.len() - i,
    {
        assert(spec_lines[i as int] == all[i as int]@);
        let line = all[i].as_slice();
        if find(line, "!END_OF_HEADER".as_bytes()) {
            ended = true;
        } else {
            match step(state, line) {
                Some(next) => {
                    state = next;
                },
                None => {
                    proof {
                        assert(scan_header(spec_lines, (i + 1) as nat) is None);
                        lemma_scan_header_fails(spec_lines, (i + 1) as nat, all.len() as nat);
                    }
                    return Err(XdsError::MalformedInput);
                },
            }
        }
        i = i + 1;
    }
    proof {
        lemma_scan_header_ended(spec_lines, i as nat, all.len() as nat);
    }
    assemble(&state)
}

/// Once the header has ended, no further line adds to it.
proof fn lemma_scan_header_ended(all: Seq<Seq<u8>>, n: nat, m: nat)
    requires
        n <= m,
        scan_header(all, n) is Some,
        n < m ==> scan_header(all, n).unwrap().ended,
    ensures
        scan_header(all, m) is Some,
        scan_header(all, m).unwrap().fields == scan_header(all, n).unwrap().fields,
        n < m ==> scan_header(all, m).unwrap().ended,
    decreases m - n,
{
    if n < m {
        lemma_scan_header_ended(all, n, (m - 1) as nat);
    }
}

} // verus!
