use xds_geometry::error::XdsError;
use xds_geometry::fixed::ONE;
use xds_geometry::lines::{find, split_lines, split_words};
use xds_geometry::reading::readheader;
use xds_geometry::records::{from_dataline, line_indices, readdata, reflection_indices};
use xds_geometry::report::scale_of_data;
use xds_geometry::text::parse_fixed;

fn fixed(text: &str) -> Option<i64> {
    parse_fixed(text.as_bytes()).map(|f| f.raw())
}

fn strings(v: Vec<Vec<u8>>) -> Vec<String> {
    v.into_iter().map(|w| String::from_utf8(w).unwrap()).collect()
}

#[test]
fn decimal_numbers() {
    assert_eq!(fixed("0"), Some(0));
    assert_eq!(fixed("1"), Some(ONE));
    assert_eq!(fixed("-1"), Some(-ONE));
    assert_eq!(fixed("+1.5"), Some(1_500_000_000));
    assert_eq!(fixed("10.000"), Some(10 * ONE));
    assert_eq!(fixed("0.075000"), Some(75_000_000));
    assert_eq!(fixed(".5"), Some(500_000_000));
    assert_eq!(fixed("5."), Some(5 * ONE));
    assert_eq!(fixed("-0.000000001"), Some(-1));
    assert_eq!(fixed("0.0000000019"), Some(1));
    assert_eq!(fixed("-0.0000000019"), Some(-1));
    assert_eq!(fixed("0.0000000009"), Some(0));
    assert_eq!(fixed("123456789.123456789"), Some(123_456_789_123_456_789));
    assert_eq!(fixed("1000000000"), Some(1_000_000_000 * ONE));
    assert_eq!(fixed("-1000000000.0"), Some(-1_000_000_000 * ONE));
}

#[test]
fn decimal_numbers_with_exponents() {
    assert_eq!(fixed("1.8E-03"), Some(1_800_000));
    assert_eq!(fixed("1.234E+03"), Some(1_234 * ONE));
    assert_eq!(fixed("-4.362E+01"), Some(-43_620_000_000));
    assert_eq!(fixed("0.0E+00"), Some(0));
    assert_eq!(fixed("1e9"), Some(1_000_000_000 * ONE));
    assert_eq!(fixed("1e-9"), Some(1));
    assert_eq!(fixed("1e-10"), Some(0));
    assert_eq!(fixed("25e-1"), Some(2_500_000_000));
    assert_eq!(fixed("0.00000000001e11"), Some(ONE));
    assert_eq!(fixed("1e-99"), Some(0));
}

#[test]
fn what_is_no_decimal_number() {
    for text in [
        "", "+", "-", ".", "+.", "e5", ".e5", "1e", "1e+", "1e1.5", "1e1e1", "1.2.3", "--1", "1-",
        "1 ", " 1", "1,5", "0x10", "inf", "nan", "1f", "1e100", "1e-100",
    ] {
        assert_eq!(fixed(text), None, "{:?}", text);
    }
}

#[test]
fn decimal_numbers_beyond_the_limit() {
    assert_eq!(fixed("1000000000.000000001"), None);
    assert_eq!(fixed("1000000001"), None);
    assert_eq!(fixed("1e10"), None);
    assert_eq!(fixed("-1e10"), None);
    // more digits than the reader takes
    assert_eq!(fixed("1.00000000000000000000000000000"), None);
    assert_eq!(fixed("1.0000000000000000000000000000"), Some(ONE));
}

#[test]
fn decimal_numbers_agree_with_the_standard_library() {
    for text in ["0.84", "999.9", "0.02508", "123.4", "-17.25", "3.0E-02", "7", "65.1234"] {
        let ours = fixed(text).unwrap() as f64 / 1e9;
        let theirs: f64 = text.parse().unwrap();
        assert!((ours - theirs).abs() < 1e-9, "{}", text);
    }
}

#[test]
fn words_of_a_line() {
    assert_eq!(strings(split_words(b"  a bc\t\tdef \r\n")), vec!["a", "bc", "def"]);
    assert_eq!(strings(split_words(b"one")), vec!["one"]);
    assert!(split_words(b"").is_empty());
    assert!(split_words(b" \t\x0b\x0c\r\n ").is_empty());
    assert_eq!(strings(split_words(b"!NX=  1028  NY=  1062")), vec!["!NX=", "1028", "NY=", "1062"]);
    for text in ["a  b", " x", "x ", "\ta\nb\rc", "", "   "] {
        let ours = strings(split_words(text.as_bytes()));
        let theirs: Vec<String> = text.split_whitespace().map(|s| s.to_string()).collect();
        assert_eq!(ours, theirs);
    }
}

#[test]
fn lines_of_a_text() {
    for text in ["", "a", "a\n", "a\nb", "a\r\nb\r\n", "\n", "\n\n", "a\n\nb", "a\r", "a\rb\n", "\r\n", "x\n\r"] {
        let ours = strings(split_lines(text.as_bytes()));
        let theirs: Vec<String> = text.lines().map(|s| s.to_string()).collect();
        assert_eq!(ours, theirs, "{:?}", text);
    }
}

#[test]
fn looking_for_a_keyword() {
    assert!(find(b"!ROTATION_AXIS=  1 0 0", b"!ROTATION_AXIS="));
    assert!(find(b"  !NX=  5", b"!NX="));
    assert!(find(b"abc", b""));
    assert!(find(b"", b""));
    assert!(find(b"abc", b"abc"));
    assert!(find(b"aab", b"ab"));
    assert!(!find(b"abc", b"abcd"));
    assert!(!find(b"", b"a"));
    assert!(!find(b"!ROTATION AXIS=", b"!ROTATION_AXIS="));
    for (text, key) in [("hello world", "o w"), ("hello", "lo"), ("hello", "hl"), ("aaa", "aaaa")] {
        assert_eq!(find(text.as_bytes(), key.as_bytes()), text.contains(key));
    }
}

const LINE: &[u8] =
    b"     1     0    -2  1.234E+03  4.567E+01   512.3   256.7     12.5 0.98765 100  95   -43.62";

#[test]
fn reflection_record_from_a_line() {
    let d = from_dataline(LINE).unwrap();
    assert_eq!((d.h(), d.k(), d.l()), (1, 0, -2));
    assert_eq!(d.I().raw(), 1_234 * ONE);
    assert_eq!(d.sigI().raw(), 45_670_000_000);
    assert_eq!(d.xd().raw(), 512_300_000_000);
    assert_eq!(d.yd().raw(), 256_700_000_000);
    assert_eq!(d.zd().raw(), 12_500_000_000);
}

#[test]
fn line_that_is_no_record() {
    assert!(from_dataline(b"").is_none());
    assert!(from_dataline(b"1 0 -2 1.0 1.0 1.0 1.0 1.0 1.0 1.0 1.0").is_none());
    assert!(from_dataline(b"1.5 0 -2 1.0 1.0 1.0 1.0 1.0 1.0 1.0 1.0 1.0").is_none());
    assert!(from_dataline(b"1 0 -2 1.0 x 1.0 1.0 1.0 1.0 1.0 1.0 1.0").is_none());
    assert!(from_dataline(b"1 0 3000000000 1.0 1.0 1.0 1.0 1.0 1.0 1.0 1.0 1.0").is_none());
    // more words than twelve are passed over
    assert!(from_dataline(b"1 0 -2 1.0 1.0 1.0 1.0 1.0 1.0 1.0 1.0 1.0 extra").is_some());
}

const FILE: &str = "!FORMAT=XDS_ASCII    MERGE=FALSE    FRIEDEL'S_LAW=TRUE\n\
!DATA_RANGE=       1     720\n\
!ROTATION_AXIS=  0.999998  0.001720 -0.000956\n\
!OSCILLATION_RANGE=  0.250000\n\
!STARTING_ANGLE=    10.000\n\
!STARTING_FRAME=       1\n\
!INCLUDE_RESOLUTION_RANGE=    47.123     1.187\n\
!SPACE_GROUP_NUMBER=   19\n\
!UNIT_CELL_CONSTANTS=    38.112    53.207    67.912  90.000  90.000  90.000\n\
!UNIT_CELL_A-AXIS=    36.384    10.696    -3.556\n\
!UNIT_CELL_B-AXIS=   -13.964    51.077    -5.231\n\
!UNIT_CELL_C-AXIS=     4.535     9.277    67.123\n\
!X-RAY_WAVELENGTH=  0.976250\n\
!INCIDENT_BEAM_DIRECTION=  0.001431 -0.002116  1.024320\n\
!DIRECTION_OF_DETECTOR_X-AXIS=   2.00000   0.00000   0.00000\n\
!DIRECTION_OF_DETECTOR_Y-AXIS=   0.00000   1.00000   0.00000\n\
!NX=  2463  NY=  2527    QX=  0.172000  QY=  0.172000\n\
!END_OF_HEADER\n\
!DATA_RANGE=       5     6\n\
     1     0    -2  1.234E+03  4.567E+01   512.3   256.7     12.5 0.98765 100  95   -43.62\n\
     0     3     1 -2.000E+00  9.900E+01  1012.0    77.1    100.2 1.00000 100  80    12.00\n\
!END_OF_DATA\n";

#[test]
fn header_of_a_file() {
    let h = readheader(FILE.as_bytes()).unwrap();
    assert_eq!(h.drange, [1, 720]);
    assert_eq!(h.oscrange.raw(), 250_000_000);
    assert_eq!(h.phi0.raw(), 10 * ONE);
    assert_eq!(h.frameno0, 1);
    assert_eq!(h.dmin.raw(), 47_123_000_000);
    assert_eq!(h.dmax.raw(), 1_187_000_000);
    assert_eq!(h.sg_number, 19);
    let cell: Vec<i64> = h.cell.iter().map(|f| f.raw()).collect();
    assert_eq!(
        cell,
        vec![38_112_000_000, 53_207_000_000, 67_912_000_000, 90 * ONE, 90 * ONE, 90 * ONE]
    );
    assert_eq!(h.a().x().raw(), 36_384_000_000);
    assert_eq!(h.b().y().raw(), 51_077_000_000);
    assert_eq!(h.c().z().raw(), 67_123_000_000);
    assert_eq!(h.geometry.lambda().raw(), 976_250_000);
    assert_eq!(h.geometry.rotaxis().x().raw(), 999_998_000);
    assert_eq!(h.geometry.rotaxis().z().raw(), -956_000);
    assert_eq!(h.dir_beam().z().raw(), 1_024_320_000);
    // the axes of the detector are brought to length one
    assert_eq!(h.detector.detx().x().raw(), ONE);
    assert_eq!(h.detector.dety().y().raw(), ONE);
    assert_eq!(h.detz().z().raw(), ONE);
    assert_eq!((h.detector.nx(), h.detector.ny()), (2463, 2527));
    assert_eq!(h.detector.qx().raw(), 172_000_000);
    assert_eq!(h.detector.qy().raw(), 172_000_000);
    // what the header does not state
    assert_eq!(h.detector.orgx().raw(), 512 * ONE);
    assert_eq!(h.detector.orgy().raw(), 256 * ONE);
    assert_eq!(h.geometry.det_dist().raw(), 123_400_000_000);
    assert_eq!(h.name_template, "");
}

#[test]
fn header_of_nothing_is_all_defaults() {
    let h = readheader(b"").unwrap();
    assert_eq!(h.drange, [1, 1000]);
    assert_eq!(h.sg_number, 0);
    assert_eq!(h.oscrange.raw(), ONE / 2);
    assert_eq!(h.dmin.raw(), 840_000_000);
    assert_eq!(h.dmax.raw(), 999_900_000_000);
    assert_eq!(h.geometry.lambda().raw(), 25_080_000);
    assert_eq!(h.a().x().raw(), 10 * ONE);
    assert_eq!((h.detector.nx(), h.detector.ny()), (1024, 512));
    assert_eq!(h.detector.qx().raw(), 75_000_000);
    // both detector axes start along x, so that the normal has no length
    assert_eq!(h.detz().z().raw(), 0);
}

#[test]
fn header_counts_are_cut_off_and_held() {
    let h = readheader(b"!DATA_RANGE= -5 70000.9\n!SPACE_GROUP_NUMBER= 300\n!STARTING_FRAME= 7.99\n")
        .unwrap();
    assert_eq!(h.drange, [0, 65_535]);
    assert_eq!(h.sg_number, 255);
    assert_eq!(h.frameno0, 7);
}

#[test]
fn keyword_without_its_numbers() {
    assert_eq!(readheader(b"!ROTATION_AXIS= 1 0\n").err(), Some(XdsError::MalformedInput));
    assert_eq!(readheader(b"!X-RAY_WAVELENGTH= long\n").err(), Some(XdsError::MalformedInput));
    assert_eq!(readheader(b"!NX= 10 NY= 10 QX= 0.1\n").err(), Some(XdsError::MalformedInput));
    assert_eq!(readheader(b"!NX= 70000 NY= 10 QX= 0.1 QY= 0.1\n").err(), Some(XdsError::MalformedInput));
    assert_eq!(readheader(b"!NX= 1.0 NY= 10 QX= 0.1 QY= 0.1\n").err(), Some(XdsError::MalformedInput));
    // behind the end of the header nothing is read
    assert!(readheader(b"!END_OF_HEADER\n!ROTATION_AXIS= 1 0\n").is_ok());
}

#[test]
fn detector_axis_without_length() {
    assert_eq!(
        readheader(b"!DIRECTION_OF_DETECTOR_X-AXIS= 0 0 0\n").err(),
        Some(XdsError::DegenerateGeometry)
    );
}

#[test]
fn records_of_a_file() {
    let data = readdata(FILE.as_bytes()).unwrap();
    assert_eq!(data.len(), 2);
    assert_eq!((data[0].h(), data[0].k(), data[0].l()), (1, 0, -2));
    assert_eq!((data[1].h(), data[1].k(), data[1].l()), (0, 3, 1));
    assert_eq!(data[1].I().raw(), -2 * ONE);
    // the largest demand: the intensity 1234
    assert_eq!(scale_of_data(&data).unwrap().raw(), 1_234 * ONE);
}

#[test]
fn records_end_with_the_first_empty_line() {
    let text = "!c\n1 2 3 1 1 1 1 1 1 1 1 1\n\nnot a record\n4 5 6 1 1 1 1 1 1 1 1 1\n";
    let data = readdata(text.as_bytes()).unwrap();
    assert_eq!(data.len(), 1);
    assert!(readdata(b"").unwrap().is_empty());
    assert!(readdata(b"!only\n!comments\n").unwrap().is_empty());
}

#[test]
fn records_with_a_bad_line() {
    let text = "1 2 3 1 1 1 1 1 1 1 1 1\n4 5 6 1 1\n";
    assert_eq!(readdata(text.as_bytes()).err(), Some(XdsError::MalformedInput));
}

#[test]
fn indices_of_a_file() {
    assert_eq!(reflection_indices(FILE.as_bytes()).unwrap(), vec![(1, 0, -2), (0, 3, 1)]);
    assert_eq!(line_indices(b" 7 -8 9 and more"), Some((7, -8, 9)));
    assert_eq!(line_indices(b" 7 -8"), None);
    assert_eq!(reflection_indices(b"1 2 3\n\n4 5 6\n").err(), Some(XdsError::MalformedInput));
    assert!(reflection_indices(b"").unwrap().is_empty());
}
