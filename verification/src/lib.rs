use vstd::prelude::*;

pub mod ascii;
pub mod raster;
pub mod font;
pub mod files;
pub mod order;
pub mod status;
pub mod settings;
pub mod assoc;
pub mod launch;
pub mod envelope;
pub mod player;
pub mod icon;

verus! {
}
