//! A quick-launcher core: a registry of named actions reachable by shortcut
//! or fuzzy search, and a small stack-based script language that invokes
//! those actions.

pub mod matching;
pub mod registry;
pub mod script;
pub mod text;
