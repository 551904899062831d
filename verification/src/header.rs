//! What the header of a reflection file says of the experiment: the
//! detector, the beam and rotation geometry, and the cell.

use crate::angle::Angle;
use crate::error::XdsError;
use crate::fixed::Fixed;
use crate::xyz::{angle_between, angle_of, checked_v3, V3, XYZ};
use vstd::prelude::*;
use vstd::string::*;

verus! {

/// What a detector description holds.
pub struct DetView {
    pub name: Seq<char>,
    pub detx: V3,
    pub dety: V3,
    pub detz: V3,
    pub nx: u16,
    pub ny: u16,
    pub qx: int,
    pub qy: int,
    pub orgx: int,
    pub orgy: int,
}

/// The detector: the directions of its two axes and of its normal, each of
/// length one, its size in pixels, the size of a pixel and the pixel that
/// the direct beam hits.
pub struct Det {
    name: String,
    detx: XYZ,
    dety: XYZ,
    detz: XYZ,
    nx: u16,
    ny: u16,
    qx: Fixed,
    qy: Fixed,
    orgx: Fixed,
    orgy: Fixed,
}

impl View for Det {
    type V = DetView;

    closed spec fn view(&self) -> DetView {
        DetView {
            name: self.name@,
            detx: self.detx@,
            dety: self.dety@,
            detz: self.detz@,
            nx: self.nx,
            ny: self.ny,
            qx: self.qx@,
            qy: self.qy@,
            orgx: self.orgx@,
            orgy: self.orgy@,
        }
    }
}

/// The three directions of a detector whose axes point along `x` and `y`:
/// the two unit vectors and their vector product, which completes a
/// right-handed system.
pub open spec fn detector_frame(x: V3, y: V3) -> Result<(V3, V3, V3), XdsError> {
    if x.norm() == 0 || y.norm() == 0 {
        Err(XdsError::DegenerateGeometry)
    } else {
        match checked_v3(x.unit().cross(y.unit())) {
            Ok(z) => Ok((x.unit(), y.unit(), z)),
            Err(e) => Err(e),
        }
    }
}

impl Det {
    /// The detector with axes along `detx` and `dety`. The axes are brought
    /// to length one and the normal is derived from them.
    pub fn new(
        name: String,
        detx: &XYZ,
        dety: &XYZ,
        nx: u16,
        ny: u16,
        qx: Fixed,
        qy: Fixed,
        orgx: Fixed,
        orgy: Fixed,
    ) -> (r: Result<Det, XdsError>)
        ensures
            match detector_frame(detx@, dety@) {
                Ok(f) => r matches Ok(d) && d@ == (DetView {
                    name: name@,
                    detx: f.0,
                    dety: f.1,
                    detz: f.2,
                    nx,
                    ny,
                    qx: qx@,
                    qy: qy@,
                    orgx: orgx@,
                    orgy: orgy@,
                }),
                Err(e) => r matches Err(f) && f == e,
            },
    {
        let ux = detx.unit();
        let uy = dety.unit();
        let ux = ux?;
        let uy = uy?;
        let uz = ux.cross(&uy)?;
        Ok(Det { name, detx: ux, dety: uy, detz: uz, nx, ny, qx, qy, orgx, orgy })
    }

    /// The direction of the detector normal.
    pub fn detz(&self) -> (r: XYZ)
        ensures
            r@ == self@.detz,
    {
        self.detz
    }

    /// The name of the detector.
    pub fn name(&self) -> (r: String)
        ensures
            r@ == self@.name,
    {
        self.name.clone()
    }

    /// The direction of the detector's first axis.
    pub fn detx(&self) -> (r: XYZ)
        ensures
            r@ == self@.detx,
    {
        self.detx
    }

    /// The direction of the detector's second axis.
    pub fn dety(&self) -> (r: XYZ)
        ensures
            r@ == self@.dety,
    {
        self.dety
    }

    /// The number of pixels along the first axis.
    pub fn nx(&self) -> (r: u16)
        ensures
            r == self@.nx,
    {
        self.nx
    }

    /// The number of pixels along the second axis.
    pub fn ny(&self) -> (r: u16)
        ensures
            r == self@.ny,
    {
        self.ny
    }

    /// The size of a pixel along the first axis.
    pub fn qx(&self) -> (r: Fixed)
        ensures
            r@ == self@.qx,
    {
        self.qx
    }

    /// The size of a pixel along the second axis.
    pub fn qy(&self) -> (r: Fixed)
        ensures
            r@ == self@.qy,
    {
        self.qy
    }

    /// The pixel, along the first axis, that the direct beam hits.
    pub fn orgx(&self) -> (r: Fixed)
        ensures
            r@ == self@.orgx,
    {
        self.orgx
    }

    /// The pixel, along the second axis, that the direct beam hits.
    pub fn orgy(&self) -> (r: Fixed)
        ensures
            r@ == self@.orgy,
    {
        self.orgy
    }
}

/// What a description of the beam and rotation geometry holds.
pub struct GeomView {
    pub rotaxis: V3,
    pub dir_beam: V3,
    pub dist: int,
    pub lambda: int,
    pub s0r: Seq<int>,
}

/// The geometry of the experiment: the rotation axis, the direction of the
/// incident beam, the distance from the sample to the detector, the
/// wavelength, and three numbers on the beam relative to the rotation axis,
/// of which the second stands for a sine and the third for a cosine.
#[derive(Clone, Copy)]
pub struct Geom {
    rotaxis: XYZ,
    dir_beam: XYZ,
    dist: Fixed,
    lambda: Fixed,
    s0r: [Fixed; 3],
}

/// The raw values of three numbers.
pub open spec fn triple_view(t: [Fixed; 3]) -> Seq<int> {
    Seq::new(3, |i: int| t[i]@)
}

impl View for Geom {
    type V = GeomView;

    closed spec fn view(&self) -> GeomView {
        GeomView {
            rotaxis: self.rotaxis@,
            dir_beam: self.dir_beam@,
            dist: self.dist@,
            lambda: self.lambda@,
            s0r: triple_view(self.s0r),
        }
    }
}

impl Geom {
    /// The geometry with the given parts.
    pub fn new(rotaxis: XYZ, dir_beam: XYZ, dist: Fixed, lambda: Fixed, s0r: [Fixed; 3]) -> (r: Geom)
        ensures
            r@ == (GeomView {
                rotaxis: rotaxis@,
                dir_beam: dir_beam@,
                dist: dist@,
                lambda: lambda@,
                s0r: triple_view(s0r),
            }),
    {
        Geom { rotaxis, dir_beam, dist, lambda, s0r }
    }

    /// The rotation axis.
    pub fn rotaxis(&self) -> (r: XYZ)
        ensures
            r@ == self@.rotaxis,
    {
        self.rotaxis
    }

    /// The direction of the incident beam.
    pub fn dir_beam(&self) -> (r: XYZ)
        ensures
            r@ == self@.dir_beam,
    {
        self.dir_beam
    }

    /// The three numbers on the beam relative to the rotation axis.
    #[allow(non_snake_case)]
    pub fn S0R(&self) -> (r: [Fixed; 3])
        ensures
            triple_view(r) == self@.s0r,
    {
        self.s0r
    }

    /// The distance from the sample to the detector.
    pub fn det_dist(&self) -> (r: Fixed)
        ensures
            r@ == self@.dist,
    {
        self.dist
    }

    /// The wavelength.
    pub fn lambda(&self) -> (r: Fixed)
        ensures
            r@ == self@.lambda,
    {
        self.lambda
    }

    /// The angle between the incident beam and the axis `raxis`.
    #[allow(non_snake_case)]
    pub fn S0_rotation_angle(&self, raxis: &XYZ) -> (r: Result<Angle, XdsError>)
        ensures
            angle_of(r) == angle_between(self@.dir_beam, raxis@),
    {
        self.dir_beam.rad_sin_cos(raxis)
    }
}

/// Everything the header of a reflection file says of the experiment.
pub struct XDSheader {
    /// The pattern that the names of the frames follow.
    pub name_template: String,
    /// The rotation per frame, in degrees.
    pub oscrange: Fixed,
    /// The first and the last frame.
    pub drange: [u16; 2],
    /// The rotation angle at which the first frame starts, in degrees.
    pub phi0: Fixed,
    /// The number of the first frame.
    pub frameno0: u16,
    /// The low-resolution limit.
    pub dmin: Fixed,
    /// The high-resolution limit.
    pub dmax: Fixed,
    /// The number of the space group, zero where it is not known.
    pub sg_number: u8,
    /// The edges of the cell and its angles, in degrees.
    pub cell: [Fixed; 6],
    /// The first axis of the cell.
    pub vec_a: XYZ,
    /// The second axis of the cell.
    pub vec_b: XYZ,
    /// The third axis of the cell.
    pub vec_c: XYZ,
    /// The detector.
    pub detector: Det,
    /// The beam and rotation geometry.
    pub geometry: Geom,
}

impl XDSheader {
    /// The first axis of the cell.
    pub fn a(&self) -> (r: &XYZ)
        ensures
            *r == self.vec_a,
    {
        &self.vec_a
    }

    /// The second axis of the cell.
    pub fn b(&self) -> (r: &XYZ)
        ensures
            *r == self.vec_b,
    {
        &self.vec_b
    }

    /// The third axis of the cell.
    pub fn c(&self) -> (r: &XYZ)
        ensures
            *r == self.vec_c,
    {
        &self.vec_c
    }

    /// The direction of the incident beam.
    pub fn dir_beam(&self) -> (r: XYZ)
        ensures
            r@ == self.geometry@.dir_beam,
    {
        self.geometry.dir_beam()
    }

    /// The direction of the detector normal.
    pub fn detz(&self) -> (r: XYZ)
        ensures
            r@ == self.detector@.detz,
    {
        self.detector.detz()
    }
}

/// What a header holds.
pub struct HeaderView {
    pub name_template: Seq<char>,
    pub oscrange: int,
    pub drange: Seq<u16>,
    pub phi0: int,
    pub frameno0: u16,
    pub dmin: int,
    pub dmax: int,
    pub sg_number: u8,
    pub cell: Seq<int>,
    pub vec_a: V3,
    pub vec_b: V3,
    pub vec_c: V3,
    pub detector: DetView,
    pub geometry: GeomView,
}

/// The raw values of six numbers.
pub open spec fn sextuple_view(c: [Fixed; 6]) -> Seq<int> {
    Seq::new(6, |i: int| c[i]@)
}

impl View for XDSheader {
    type V = HeaderView;

    open spec fn view(&self) -> HeaderView {
        HeaderView {
            name_template: self.name_template@,
            oscrange: self.oscrange@,
            drange: self.drange@,
            phi0: self.phi0@,
            frameno0: self.frameno0,
            dmin: self.dmin@,
            dmax: self.dmax@,
            sg_number: self.sg_number,
            cell: sextuple_view(self.cell),
            vec_a: self.vec_a@,
            vec_b: self.vec_b@,
            vec_c: self.vec_c@,
            detector: self.detector@,
            geometry: self.geometry@,
        }
    }
}

} // verus!
