//! Verified core of a scene-to-collision-proxy converter.
//!
//! The library walks a scene graph handed over as plain data, extracts each
//! meshed node's geometry, applies the node's transform, optionally fuses the
//! meshes into one, drives an external convex-decomposition service, and
//! renders the resulting hulls as OBJ or JSON documents.  Coordinates travel
//! through the pipeline as opaque IEEE-754 bit patterns; all index and
//! formatting logic is verified, while the floating-point work is delegated
//! to trusted calls into outside crates.

pub mod aggregate;
pub mod decomp;
pub mod jsondoc;
pub mod mesh;
pub mod objdoc;
pub mod pipeline;
pub mod scene;
pub mod textenc;
pub mod transform;
