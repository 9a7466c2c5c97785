//! A small model of a bounded inventory of stackable items, together with a
//! line-oriented parser for an item catalog and a stream of fill directives,
//! and an orchestrator that replays the directives into inventories.

pub mod inventory;
pub mod items;
pub mod orchestrator;
pub mod parser;
pub mod text;
