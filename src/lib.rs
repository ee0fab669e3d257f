//! Match-history extraction for a player's statistics page: the data model,
//! the row interpretation with its enemy-champion rule, and the builder that
//! turns a rendered page into a dated, chronologically ordered session.

pub mod game_structs;
pub mod text;
pub mod history;
pub mod document;
pub mod date;
