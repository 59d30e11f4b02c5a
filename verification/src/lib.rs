//! Codec for the packed resource segments of a late-1990s 3D platformer.
//!
//! The core is the level-setup codec: a self-delimiting, command-tagged,
//! nested block format describing a level's navigation-voxel grid, camera
//! waypoint graph and lighting probes.  Around it sit a sprite codec, the
//! pixel-format conversion core, and a textual document form for the
//! structured assets.

pub mod assets;
pub mod bytes;
pub mod error;
pub mod level;
pub mod level_codec;
pub mod level_proof;
pub mod pixels;
pub mod reader;
pub mod sprite;
pub mod text;
pub mod text_proof;
