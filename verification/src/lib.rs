//! Seating and queueing rules of a Discord bot that runs trial rounds at a
//! few tables.

pub mod commands;
pub mod completion;
pub mod config;
pub mod deployments;
pub mod interaction;
pub mod laws;
pub mod listings;
pub mod presets;
pub mod promises;
pub mod queue;
pub mod seating;
pub mod store;
pub mod text;
pub mod voice;
pub mod walk;
