//! Verified core of a Discord music bot that plays internet radio and media from a Jellyfin server.

pub mod text;
pub mod jellyfin;
pub mod catalog;
pub mod choices;
pub mod response;
pub mod commands;
pub mod voice;
