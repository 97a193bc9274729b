//! The logic of an interactive-fiction play session.

use vstd::prelude::*;

pub mod art;
pub mod canvas;
pub mod debug;
pub mod disasm;
pub mod dump;
pub mod elements;
pub mod events;
pub mod floats;
pub mod input;
pub mod layers;
pub mod machine;
pub mod mapping;
pub mod memo;
pub mod model;
pub mod objwords;
pub mod oplist;
pub mod order;
pub mod orders;
pub mod pacing;
pub mod pict;
pub mod pixels;
pub mod prompt;
pub mod prose;
pub mod raster;
pub mod refs;
pub mod restore;
pub mod roundtrip;
pub mod saves;
pub mod saving;
pub mod scott;
pub mod scottdump;
pub mod screen;
pub mod session;
pub mod showing;
pub mod text;
pub mod titles;
pub mod transcript;
pub mod tree;
pub mod turn;
pub mod vocab;
pub mod windows;
pub mod windump;
pub mod words;

verus! {

} // verus!
