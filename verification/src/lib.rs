//! Verified core of a procedural flight renderer.
use vstd::prelude::*;

pub mod airframe;
pub mod clouds;
pub mod detail;
pub mod ears;
pub mod fin;
pub mod flags;
pub mod frame_budget;
pub mod frame_loop;
pub mod frames;
pub mod fx_gpu;
pub mod gfx;
pub mod hud;
pub mod icosphere;
pub mod input;
pub mod jpeg;
pub mod ledger;
pub mod mesh;
pub mod noise;
pub mod pcm;
pub mod pipelines;
pub mod plane;
pub mod polygon;
pub mod quality;
pub mod record;
pub mod screenshot;
pub mod shader_cache;
pub mod surface;
pub mod swap;
pub mod text;
pub mod tiling;
pub mod trail;

verus! {

} // verus!
