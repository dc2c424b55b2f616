//! Core logic of a Discord moderation and utility bot: strike records and
//! their rendering, command-usage analytics, and the fixed replies of the
//! bot's commands.

pub mod emoji;
pub mod text;
pub mod time;
pub mod strikes;
pub mod replies;
pub mod analytics;
