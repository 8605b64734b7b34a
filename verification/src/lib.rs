//! A terminal lyrics companion for MPRIS media players: the verified core.
pub mod text;
pub mod lrc;
pub mod lrclib;
pub mod lyrics;
pub mod player;
pub mod mpris;
pub mod view;
pub mod app;
