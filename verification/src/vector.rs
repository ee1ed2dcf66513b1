//! Plain carriers for planar vectors and colours.

use vstd::prelude::*;

verus! {

/// A vector of the plane.  The components are carried, never computed with.
#[derive(Clone, Copy, Debug, PartialEq)]
pub struct Vec2<T> {
    pub x: T,
    pub y: T,
}

/// A colour with its opacity.
#[derive(Clone, Copy, Debug, PartialEq)]
pub struct Color<T> {
    pub r: T,
    pub g: T,
    pub b: T,
    pub a: T,
}

} // verus!
