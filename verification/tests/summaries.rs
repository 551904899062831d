use xds_geometry::correct::rd_correct;
use xds_geometry::error::XdsError;
use xds_geometry::fixed::ONE;
use xds_geometry::merge::merge_cells;
use xds_geometry::stats::UncertaintyPolicy;

fn summary() -> String {
    [
        "",
        " ***** CORRECT *****",
        " X-RAY_WAVELENGTH=  0.976250",
        " DETECTOR=PILATUS  MINIMUM_VALID_PIXEL_VALUE=0  OVERLOAD= 1048500",
        " NX=  2463  NY=  2527    QX=  0.172000  QY=  0.172000",
        " DETECTOR_DISTANCE=   300.250",
        " REFINED VALUES OF DIFFRACTION PARAMETERS DERIVED FROM  16859 INDEXED SPOTS",
        " SPACE GROUP NUMBER     19",
        " UNIT CELL PARAMETERS     38.112    53.207    67.912  90.000  90.000  90.000",
        " E.S.D. OF CELL PARAMETERS  1.8E-02 2.5E-02 3.6E-02 0.0E+00 0.0E+00 0.0E+00",
        " something else",
        "",
    ]
    .join("\n")
}

fn raws(v: &[xds_geometry::fixed::Fixed; 6]) -> Vec<i64> {
    v.iter().map(|f| f.raw()).collect()
}

#[test]
fn summary_of_one_experiment() {
    let (cell, pcf) = rd_correct("run1/CORRECT.LP", summary().as_bytes()).unwrap().unwrap();
    assert_eq!(cell.file, "run1/CORRECT.LP");
    assert_eq!(cell.sg, 19);
    let expected =
        vec![38_112_000_000, 53_207_000_000, 67_912_000_000, 90 * ONE, 90 * ONE, 90 * ONE];
    assert_eq!(raws(&cell.params), expected);
    assert_eq!(raws(&cell.esd.unwrap()), vec![18_000_000, 25_000_000, 36_000_000, 0, 0, 0]);
    assert_eq!(pcf.file, "run1/CORRECT.LP");
    assert_eq!(pcf.wavelength.raw(), 976_250_000);
    assert_eq!(pcf.detector, b"PILATUS  MINIMUM_VALID_PIXEL_VALUE".to_vec());
    assert_eq!((pcf.nx, pcf.ny), (2463, 2527));
    assert_eq!((pcf.qx.raw(), pcf.qy.raw()), (172_000_000, 172_000_000));
    assert_eq!(pcf.distance.raw(), 300_250_000_000);
    assert_eq!(pcf.num_refl, 16859);
    assert_eq!(raws(&pcf.cellabc), expected);
    assert_eq!(raws(&pcf.cellesd.unwrap()), vec![18_000_000, 25_000_000, 36_000_000, 0, 0, 0]);
}

#[test]
fn empty_summary_gives_nothing() {
    assert!(rd_correct("x", b"").unwrap().is_none());
}

#[test]
fn summary_without_headings_is_all_defaults() {
    let (cell, pcf) = rd_correct("x", b"nothing of interest\n").unwrap().unwrap();
    assert_eq!(cell.sg, -1);
    assert_eq!(raws(&cell.params), vec![10 * ONE, 10 * ONE, 10 * ONE, 90 * ONE, 90 * ONE, 90 * ONE]);
    assert!(cell.esd.is_none());
    assert_eq!(pcf.num_refl, 0);
    assert!(pcf.detector.is_empty());
    assert_eq!((pcf.nx, pcf.ny), (0, 0));
    assert_eq!(pcf.wavelength.raw(), 0);
}

#[test]
fn summary_without_uncertainties() {
    let text = " SPACE GROUP NUMBER      4\n E.S.D. OF CELL PARAMETERS  1 2 3 4 5 6\n E.S.D. OF CELL PARAMETERS  -\n";
    let (cell, _) = rd_correct("x", text.as_bytes()).unwrap().unwrap();
    assert_eq!(cell.sg, 4);
    assert!(cell.esd.is_none());
}

#[test]
fn headings_start_with_a_blank() {
    let (cell, _) = rd_correct("x", b"SPACE GROUP NUMBER     19\n").unwrap().unwrap();
    assert_eq!(cell.sg, -1);
}

#[test]
fn later_lines_replace_earlier_ones() {
    let text = " SPACE GROUP NUMBER      4\n SPACE GROUP NUMBER     19\n";
    let (cell, _) = rd_correct("x", text.as_bytes()).unwrap().unwrap();
    assert_eq!(cell.sg, 19);
}

#[test]
fn heading_without_its_numbers() {
    for text in [
        " X-RAY_WAVELENGTH=\n",
        " X-RAY_WAVELENGTH= short\n",
        " NX=  2463  NY=  2527    QX=  0.172000\n",
        " NX=  2463.5  NY=  2527    QX=  0.172000  QY=  0.172000\n",
        " DETECTOR_DISTANCE= far\n",
        " FROM 16859 INDEXED SPOTS\n",
        " SPACE GROUP NUMBER  P212121\n",
        " UNIT CELL PARAMETERS     38.112    53.207    67.912  90.000  90.000\n",
        " E.S.D. OF CELL PARAMETERS  1.8E-02 2.5E-02 3.6E-02\n",
    ] {
        assert_eq!(rd_correct("x", text.as_bytes()).err(), Some(XdsError::MalformedInput), "{}", text);
    }
}

#[test]
fn detector_name_stands_behind_the_equals_sign() {
    let (_, pcf) = rd_correct("x", b" DETECTOR=EIGER\n").unwrap().unwrap();
    assert_eq!(pcf.detector, b"EIGER".to_vec());
    let (_, pcf) = rd_correct("x", b" DETECTOR=\n").unwrap().unwrap();
    assert!(pcf.detector.is_empty());
}

#[test]
fn summaries_merge_into_one_cell() {
    let other = summary().replace("38.112", "38.200").replace("1.8E-02", "3.6E-02");
    let (first, _) = rd_correct("a", summary().as_bytes()).unwrap().unwrap();
    let (second, _) = rd_correct("b", other.as_bytes()).unwrap().unwrap();
    let merged =
        merge_cells(&vec![first, second], UncertaintyPolicy::VarianceWeightedResidual).unwrap();
    assert_eq!(merged.sg, 19);
    // weights 4 to 1: 38.112 + 0.088 / 5
    let a = merged.params[0].raw();
    assert!((a - 38_129_600_000).abs() < 1_000, "{}", a);
    assert_eq!(merged.params[3].raw(), 90 * ONE);
    assert_eq!(merged.esd.unwrap()[3].raw(), 0);
}
