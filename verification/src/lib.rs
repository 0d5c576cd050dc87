//! Verified core of a local 3D-model library browser: indexed meshes and their wire
//! format, binary STL decoding, 3MF package resolution, request-path validation and the
//! filtered directory tree.
pub mod mesh;
pub mod stl;
pub mod text;
pub mod floatlit;
pub mod paths;
pub mod tree;
pub mod xml;
pub mod threemf;
pub mod zipio;
pub mod frontend;
