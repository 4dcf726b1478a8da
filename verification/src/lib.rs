//! Geometry and scene bookkeeping for a small OpenGL gym scene: Wavefront OBJ
//! parsing, triangle expansion of polygon faces, cylinder mesh topology,
//! 4x4 matrix transposition, texture preparation and the scene's keyboard
//! state machine.
//! Everything that draws, reads files or computes with floats lives in `app/`.

pub mod alglin;
pub mod bytes;
pub mod cena;
pub mod cilindro;
pub mod faces;
pub mod objetos;
pub mod textura;
