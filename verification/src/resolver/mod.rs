//! The decisions taken while the user repairs broken links one by one.

pub mod action;
pub mod confirm;
pub mod fs_ops;
pub mod input;
pub mod model;
