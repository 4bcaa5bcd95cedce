pub mod cm_fidl_analyzer;
pub mod component_manager;
pub mod input_pipeline;
pub mod lsm_tree;
pub mod setui;
pub mod starnix;
pub mod vfs;
pub mod wlancfg;
pub mod zircon;
