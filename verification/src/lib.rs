use vstd::prelude::*;

pub mod browser_laws;
pub mod browser_panel;
pub mod devices;
pub mod doc_panel;
pub mod log;
pub mod markdown;
pub mod sample_scan;
pub mod sample_tree;
pub mod scene_nav;
pub mod sequencer;
pub mod server;
pub mod session;
pub mod settings;
pub mod text;
pub mod tools;
pub mod transport;

verus! {

} // verus!
