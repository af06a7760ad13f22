use vstd::prelude::*;

pub mod app_state;
pub mod assets;
pub mod backend;
pub mod backend_state;
pub mod backups;
pub mod ios;
pub mod links;
pub mod listing;
pub mod markdown;
pub mod mermaid;
pub mod navigation;
pub mod persistence;
pub mod preview;
pub mod preview_controller;
pub mod save_coordinator;
pub mod search_index;
pub mod smb;
pub mod text;
pub mod workspace;

verus! {

} // verus!
