use xds_geometry::angle::Angle;
use xds_geometry::cell::{abc2vector, U_AB};
use xds_geometry::datum::XDSdatum;
use xds_geometry::fixed::Fixed;
use xds_geometry::header::{Det, Geom, XDSheader};
use xds_geometry::stats::{wmean, UncertaintyPolicy};
use xds_geometry::xyz::XYZ;

type V = [f64; 3];

fn fx(x: f64) -> Fixed {
    Fixed::from_raw((x * 1e9).round() as i64).unwrap()
}

fn val(x: Fixed) -> f64 {
    x.raw() as f64 / 1e9
}

fn vector(v: V) -> XYZ {
    XYZ::new(fx(v[0]), fx(v[1]), fx(v[2]))
}

fn dot(a: V, b: V) -> f64 {
    a[0] * b[0] + a[1] * b[1] + a[2] * b[2]
}

fn cross(a: V, b: V) -> V {
    [a[1] * b[2] - a[2] * b[1], a[2] * b[0] - a[0] * b[2], a[0] * b[1] - a[1] * b[0]]
}

fn scale(a: V, s: f64) -> V {
    [a[0] * s, a[1] * s, a[2] * s]
}

fn plus(a: V, b: V) -> V {
    [a[0] + b[0], a[1] + b[1], a[2] + b[2]]
}

fn unit(a: V) -> V {
    scale(a, 1.0 / dot(a, a).sqrt())
}

/// The angle between two vectors, its sine and its cosine.
fn angle(a: V, b: V) -> [f64; 3] {
    let cosine = dot(a, b) / (dot(a, a) * dot(b, b)).sqrt();
    let sine = (1.0 - cosine * cosine).max(0.0).sqrt();
    [sine.atan2(cosine), sine, cosine]
}

fn from_cosine(c: f64) -> f64 {
    (1.0 - c * c).max(0.0).sqrt().atan2(c)
}

/// `v` turned about the unit vector `k` by `angle`.
fn rotate(v: V, k: V, angle: f64) -> V {
    let (s, c) = angle.sin_cos();
    plus(plus(scale(v, c), scale(cross(k, v), s)), scale(k, dot(k, v) * (1.0 - c)))
}

struct Setup {
    cell: [f64; 6],
    rotaxis: V,
    beam: V,
    detx: V,
    dety: V,
    qx: f64,
    qy: f64,
    orgx: f64,
    orgy: f64,
    dist: f64,
    lambda: f64,
}

fn setup() -> Setup {
    Setup {
        cell: [38.112, 53.207, 67.912, 85.0, 97.5, 101.25],
        rotaxis: unit([0.999998, 0.00172, -0.000956]),
        beam: unit([0.001431, -0.002116, 1.02432]),
        detx: [1.0, 0.0, 0.0],
        dety: [0.0, 1.0, 0.0],
        qx: 0.172,
        qy: 0.172,
        orgx: 1231.5,
        orgy: 1263.5,
        dist: 300.25,
        lambda: 0.97625,
    }
}

fn degrees(d: f64) -> Angle {
    let r = d.to_radians();
    Angle::new(fx(r.cos()), fx(r.sin())).unwrap()
}

/// The header and the orientation matrix in fixed point, and the same
/// orientation matrix and the triple on beam and rotation axis as floats.
fn both(s: &Setup) -> (XDSheader, [Fixed; 9], [f64; 9], [f64; 3]) {
    let c = s.cell;
    let (a, b, cc) =
        abc2vector(&fx(c[0]), &fx(c[1]), &fx(c[2]), &degrees(c[3]), &degrees(c[4]), &degrees(c[5]))
            .unwrap();
    let u = U_AB(&a, &b, &cc).unwrap();
    let mut uf = [0.0; 9];
    for i in 0..9 {
        uf[i] = val(u[i]);
    }
    let between = angle(s.beam, s.rotaxis);
    let detector = Det::new(
        String::new(),
        &vector(s.detx),
        &vector(s.dety),
        2463,
        2527,
        fx(s.qx),
        fx(s.qy),
        fx(s.orgx),
        fx(s.orgy),
    )
    .unwrap();
    let geometry = Geom::new(
        vector(s.rotaxis),
        vector(s.beam),
        fx(s.dist),
        fx(s.lambda),
        [fx(between[0]), fx(between[1]), fx(between[2])],
    );
    let header = XDSheader {
        name_template: String::new(),
        oscrange: fx(0.25),
        drange: [1, 720],
        phi0: fx(0.0),
        frameno0: 1,
        dmin: fx(47.0),
        dmax: fx(1.2),
        sg_number: 1,
        cell: [fx(c[0]), fx(c[1]), fx(c[2]), fx(c[3]), fx(c[4]), fx(c[5])],
        vec_a: a,
        vec_b: b,
        vec_c: cc,
        detector,
        geometry,
    };
    (header, u, uf, between)
}

/// The direction cosines by the formulas in floating point, with the gap
/// between the best and the second best candidate.
fn reference(s: &Setup, u: &[f64; 9], s0r: &[f64; 3], hkl: [i32; 3], xd: f64, yd: f64) -> ([f64; 7], f64) {
    let (h, k, l) = (hkl[0] as f64, hkl[1] as f64, hkl[2] as f64);
    let p = [
        h * u[0] + k * u[1] + l * u[2],
        h * u[3] + k * u[4] + l * u[5],
        h * u[6] + k * u[7] + l * u[8],
    ];
    let lc = dot(p, p).sqrt();
    let c = unit(p);
    let sthl = 0.5 * lc;
    let sinetheta = sthl * s.lambda;
    let phi = from_cosine(sinetheta);
    let phi_rot = angle(c, s.rotaxis);
    let phi_s0 = angle(c, s.beam);
    let s0r_angle = angle(s.beam, s.rotaxis);
    let cs = (phi_rot[2] * s0r_angle[2] - phi_s0[2]) / (phi_rot[1] * s0r_angle[1]);
    let sa = from_cosine(cs);
    let r = (sinetheta - phi_rot[2] * s0r[2]) / (phi_rot[1] * s0r[1]);
    let t = from_cosine(r);
    let x = s.qx * (xd - s.orgx);
    let y = s.qy * (yd - s.orgy);
    let detz = cross(unit(s.detx), unit(s.dety));
    let e3 = plus(plus(scale(unit(s.detx), x), scale(unit(s.dety), y)), scale(detz, s.dist));
    let candidates = [-t - sa, t - sa, sa - t, t + sa];
    let mut best = 0;
    let mut scores = [0.0; 4];
    for i in 0..4 {
        let crot = rotate(c, s.rotaxis, candidates[i]);
        let e1 = unit(cross(crot, s.beam));
        let e2 = rotate(crot, e1, phi);
        scores[i] = angle(e2, e3)[0];
        if scores[i] < scores[best] {
            best = i;
        }
    }
    let mut gap = f64::INFINITY;
    for i in 0..4 {
        if i != best {
            gap = gap.min(scores[i] - scores[best]);
        }
    }
    let crot = rotate(c, s.rotaxis, candidates[best]);
    let e1 = unit(cross(crot, s.beam));
    let e2 = rotate(crot, e1, phi);
    let mut out = [0.0; 7];
    for i in 0..3 {
        let axis = unit([u[i], u[i + 3], u[i + 6]]);
        let turned = rotate(axis, s.rotaxis, candidates[best]);
        out[2 * i] = -angle(turned, s.beam)[2];
        out[2 * i + 1] = angle(turned, e2)[2];
    }
    out[6] = sthl;
    (out, gap)
}

#[test]
fn direction_cosines_agree_with_floating_point() {
    let s = setup();
    let (header, u, uf, s0r) = both(&s);
    let mut compared = 0;
    let mut worst: f64 = 0.0;
    for h in -4..5 {
        for k in -3..4 {
            for l in -5..6 {
                if h == 0 && k == 0 && l == 0 {
                    continue;
                }
                let xd = 1231.5 + 37.0 * h as f64 - 11.0 * l as f64;
                let yd = 1263.5 + 29.0 * k as f64 + 7.0 * h as f64;
                let (expected, gap) = reference(&s, &uf, &s0r, [h, k, l], xd, yd);
                if !(gap > 1e-5) || expected.iter().any(|x| !x.is_finite()) {
                    continue;
                }
                let d = XDSdatum::observed(h, k, l, fx(1.0), fx(1.0), [fx(xd), fx(yd), fx(0.0)]);
                let g = d.cosines(&u, &header).unwrap();
                let got = g.cosines();
                for i in 0..6 {
                    let off = (val(got[i]) - expected[i]).abs();
                    worst = worst.max(off);
                    assert!(
                        off < 5e-6,
                        "{} {} {}: cosine {} is {} for {}",
                        h, k, l, i, val(got[i]), expected[i]
                    );
                }
                assert!((val(g.sthl()) - expected[6]).abs() < 1e-8);
                compared += 1;
            }
        }
    }
    assert!(compared > 300, "{}", compared);
    // nine places carry the cosines to within a few millionths
    assert!(worst < 5e-6, "{}", worst);
}

#[test]
fn weighted_means_agree_with_floating_point() {
    let values = [10.234, 10.25, 10.241, 10.2375, 10.229];
    let sigmas = [0.002, 0.005, 0.003, 0.0045, 0.01];
    let weights: Vec<f64> = sigmas.iter().map(|s| 1.0 / (s * s)).collect();
    let mean = values.iter().zip(&weights).map(|(v, w)| v * w).sum::<f64>()
        / weights.iter().sum::<f64>();
    let residual = (values.iter().zip(&sigmas).map(|(v, s)| s * (v - mean) * (v - mean)).sum::<f64>()
        / sigmas.iter().sum::<f64>())
    .sqrt();
    let w: Vec<f64> = values.iter().map(|v| 1.0 - (mean - v) * (mean - v) / (mean * mean)).collect();
    let bounded =
        w.iter().zip(&sigmas).map(|(w, s)| w * s).sum::<f64>() / w.iter().sum::<f64>();
    let v: Vec<Fixed> = values.iter().map(|x| fx(*x)).collect();
    let s: Vec<Fixed> = sigmas.iter().map(|x| fx(*x)).collect();
    let (m, e) = wmean(&v, &s, UncertaintyPolicy::VarianceWeightedResidual).unwrap();
    assert!((val(m) - mean).abs() < 1e-8);
    assert!((val(e) - residual).abs() < 1e-8, "{} {}", val(e), residual);
    let (m, e) = wmean(&v, &s, UncertaintyPolicy::BoundedResidualWeight).unwrap();
    assert!((val(m) - mean).abs() < 1e-8);
    assert!((val(e) - bounded).abs() < 1e-8);
}
