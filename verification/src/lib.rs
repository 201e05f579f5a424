//! Rating bookkeeping for a fighting-game ranking: the data that is read from
//! the tournament services, the decisions taken on it, and the per-player
//! rating table, each with a contract checked by Verus.

pub mod confidence;
pub mod constants;
pub mod database;
pub mod startgg;
pub mod elo;
pub mod text;
pub mod challonge_tournaments;
pub mod challonge;
pub mod bracket_search;
pub mod startgg_ignores;
pub mod graphql;
pub mod selection;
