//! A web browser for a keyboard-first, accessibility-first reader.

pub mod address;
pub mod cdp;
pub mod consent;
pub mod forms;
pub mod gate;
pub mod history;
pub mod json;
pub mod languages;
pub mod launch;
pub mod localize;
pub mod outside;
pub mod page;
pub mod protocol;
pub mod provider;
pub mod scripts;
pub mod settle;
pub mod table;
pub mod text;
pub mod tree;
pub mod worker;
