//! A ray caster in fixed-point arithmetic.
//!
//! A scene of spheres and triangles is drawn by sending one ray through every
//! pixel: the ray is tried against every object, the nearest point it meets
//! is coloured by ambient, diffuse and specular light, and a second ray from
//! that point toward the light decides whether the point lies in shadow.
//!
//! Every number is an integer count of millionths (`fixed`), every vector a
//! triple of such numbers (`geometry`). Each type that runs has a
//! mathematical model, its view, over unbounded integers, and the contract of
//! every function says exactly which value of the model it returns. On these
//! models the library proves, among others, that a normalised vector has
//! unit length up to rounding, that the nearest point met does not depend on
//! the order of the objects, that the in-triangle test depends neither on the
//! naming of the corners nor on that of the axes, and that adding objects to
//! a scene never brings light to a point.

pub mod fixed;
pub mod geometry;
pub mod image;
pub mod material;
pub mod objects;
pub mod polygon;
pub mod rays;
pub mod scene;
pub mod sphere;
pub mod triangle;
