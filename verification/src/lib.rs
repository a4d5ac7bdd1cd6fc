pub mod agents;
pub mod builder;
pub mod cli;
pub mod config;
pub mod config_laws;
pub mod daemon;
pub mod filter_laws;
pub mod git;
pub mod help;
pub mod keys;
pub mod matching;
pub mod model;
pub mod opencode;
pub mod path;
pub mod picker;
pub mod places;
pub mod picker_edit;
pub mod picker_events;
pub mod picker_feed;
pub mod picker_help;
pub mod picker_mouse;
pub mod picker_nav;
pub mod report;
pub mod text;
pub mod tmux;
pub mod tree;
pub mod tree_order;
pub mod view;
pub mod write_laws;
pub mod picker_laws;
pub mod windows;
pub mod json;
pub mod order_laws;
