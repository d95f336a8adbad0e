//! A recursive ray tracer's discrete core: the OBJ mesh grammar, the
//! nearest-hit rule, the bounce budget and the assembly of the output raster.

pub mod camera;
pub mod image_generator;
pub mod lexical;
pub mod obj;
pub mod raster;
pub mod render;
