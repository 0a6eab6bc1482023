//! Compares a fresh folder with a production folder and plans which files to deploy.

pub mod text;
pub mod diff;
pub mod order;
pub mod path;
pub mod hash;
pub mod error;
pub mod index;
pub mod state;
pub mod store;
pub mod compare;
pub mod deploy;
pub mod panel;
pub mod walk;
pub mod args;
pub mod screen;
pub mod pages;
pub mod workflow;
pub mod session;
