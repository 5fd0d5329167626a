//! Gantry control logic: node graphs and path finding, G-code command
//! handling, the recipe builder and recipe runs, the node and action
//! editors, and logging decisions.
pub mod text;
pub mod nodes;
pub mod paths;
pub mod editor;
pub mod logger;
pub mod grbl;
pub mod run;
pub mod actions;
pub mod recipe;
pub mod tracker;
pub mod manual;
pub mod config;
pub mod naming;
pub mod action_tab;
pub mod log_tab;
pub mod grbl_tab;
pub mod style;
pub mod grid;
pub mod build_tab;
pub mod recipe_run;
