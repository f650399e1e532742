//! A reader for Wavefront OBJ geometry and MTL material libraries.
//!
//! The reader turns the text of a model into flat arrays: positions, texture
//! coordinates and normals, one record per polygon, the corner triples that
//! the polygons share, a stream of triangles over those corners, and the
//! materials, objects and groups that the polygons belong to.
//!
//! [`Mesh::new_from_bytes`] reads a model from memory. A model that names
//! material libraries is read with [`Mesh::new_with_callbacks`], which asks
//! a [`Source`] for each file, or step by step with a [`Loader`], which
//! pauses at each library and leaves it to its caller to fetch it.
//!
//! The text is permissive. A line that starts with an unknown word is
//! passed over, a number that cannot be read is 0, a field of a corner that
//! refers to nothing is 0, and a polygon with fewer than three corners, or
//! with a corner without a position, is passed over. Numbers are kept as
//! decimals, see [`Decimal`]: nothing here computes with floating point.
//! Positions, texture coordinates and normals are counted from 1 in a
//! corner, as the text counts them, and 0 stands for none.
//!
//! What a function returns is stated over the model of `model`, in which a
//! mesh is a record of sequences and each line of text is a function from
//! state to state; `laws` holds what follows for every mesh.

pub mod assemble;
pub mod error;
pub mod group;
pub mod index;
pub mod laws;
pub mod loader;
pub mod material;
pub mod mesh;
pub mod model;
pub mod number;
pub mod scan;
pub mod text;

pub use assemble::Assembler;
pub use error::ObjLoadError;
pub use group::Group;
pub use index::Index;
pub use loader::{Fetched, Loader, Source, Step};
pub use material::{Material, Texture};
pub use mesh::Mesh;
pub use number::Decimal;
pub use scan::Class;
