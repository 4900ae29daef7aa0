//! Primitive kinds of the canonical scene.

use vstd::prelude::*;

verus! {

/// The kind of geometric primitive. A triangle carries its inline vertex
/// payload (`[x y z; x y z; x y z]`).
#[derive(Debug, PartialEq, Eq)]
pub enum PrimitiveKind {
    Box,
    Sphere,
    Cylinder,
    Mesh,
    Line,
    Dot,
    Grid,
    Template,
    Triangle(String),
}

/// The value of a primitive kind, with a triangle's payload as characters.
pub enum PrimitiveKindV {
    Box,
    Sphere,
    Cylinder,
    Mesh,
    Line,
    Dot,
    Grid,
    Template,
    Triangle(Seq<char>),
}

impl View for PrimitiveKind {
    type V = PrimitiveKindV;

    open spec fn view(&self) -> PrimitiveKindV {
        match self {
            PrimitiveKind::Box => PrimitiveKindV::Box,
            PrimitiveKind::Sphere => PrimitiveKindV::Sphere,
            PrimitiveKind::Cylinder => PrimitiveKindV::Cylinder,
            PrimitiveKind::Mesh => PrimitiveKindV::Mesh,
            PrimitiveKind::Line => PrimitiveKindV::Line,
            PrimitiveKind::Dot => PrimitiveKindV::Dot,
            PrimitiveKind::Grid => PrimitiveKindV::Grid,
            PrimitiveKind::Template => PrimitiveKindV::Template,
            PrimitiveKind::Triangle(p) => PrimitiveKindV::Triangle(p@),
        }
    }
}

impl Clone for PrimitiveKind {
    fn clone(&self) -> (r: Self)
        ensures
            r@ == self@,
    {
        match self {
            PrimitiveKind::Box => PrimitiveKind::Box,
            PrimitiveKind::Sphere => PrimitiveKind::Sphere,
            PrimitiveKind::Cylinder => PrimitiveKind::Cylinder,
            PrimitiveKind::Mesh => PrimitiveKind::Mesh,
            PrimitiveKind::Line => PrimitiveKind::Line,
            PrimitiveKind::Dot => PrimitiveKind::Dot,
            PrimitiveKind::Grid => PrimitiveKind::Grid,
            PrimitiveKind::Template => PrimitiveKind::Template,
            PrimitiveKind::Triangle(p) => PrimitiveKind::Triangle(p.clone()),
        }
    }
}

} // verus!
