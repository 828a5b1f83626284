//! Native backend library for a desktop text editor: the workspace
//! directory-tree builder (ordering, filtering and depth-cutoff rules),
//! path normalisation for OS dialogs, menu-event routing, and the
//! credential-storage helpers.

pub mod casefold;
pub mod dialog;
pub mod menu;
pub mod storage;
pub mod strutil;
pub mod tree;
