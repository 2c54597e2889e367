//! Point lights with no falloff.
use vstd::prelude::*;
use crate::vec3::{Color, Point3};

verus! {

/// What a light offers to shading: its diffuse and specular intensities and
/// its position.
pub trait Light {
    spec fn diffuse_spec(&self) -> Color;

    spec fn specular_spec(&self) -> Color;

    spec fn origin_spec(&self) -> Point3;

    fn diffuse(&self) -> (r: Color)
        ensures
            r == self.diffuse_spec(),
    ;

    fn specular(&self) -> (r: Color)
        ensures
            r == self.specular_spec(),
    ;

    fn origin(&self) -> (r: Point3)
        ensures
            r == self.origin_spec(),
    ;
}

/// A point light with the same intensities at every distance.
#[derive(Clone, Copy, Debug, PartialEq, Eq, Structural)]
pub struct SimpleLight {
    pub i_diff: Color,
    pub i_spec: Color,
    pub origin: Point3,
}

impl SimpleLight {
    pub open spec fn wf(self) -> bool {
        self.i_diff.wf() && self.i_spec.wf() && self.origin.wf()
    }

    pub fn new(i_diff: Color, i_spec: Color, o: Point3) -> (r: SimpleLight)
        ensures
            r.diffuse_spec() == i_diff,
            r.specular_spec() == i_spec,
            r.origin_spec() == o,
    {
        SimpleLight { i_diff, i_spec, origin: o }
    }
}

impl Light for SimpleLight {
    open spec fn diffuse_spec(&self) -> Color {
        self.i_diff
    }

    open spec fn specular_spec(&self) -> Color {
        self.i_spec
    }

    open spec fn origin_spec(&self) -> Point3 {
        self.origin
    }

    fn diffuse(&self) -> (r: Color) {
        self.i_diff
    }

    fn specular(&self) -> (r: Color) {
        self.i_spec
    }

    fn origin(&self) -> (r: Point3) {
        self.origin
    }
}

/// The lights of a scene, in order.
pub type Lighting = Vec<SimpleLight>;

pub open spec fn lighting_wf(lights: Seq<SimpleLight>) -> bool {
    forall|i: int| 0 <= i < lights.len() ==> (#[trigger] lights[i]).wf()
}

} // verus!
