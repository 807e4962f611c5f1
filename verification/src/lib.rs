//! A webhook-driven command dispatcher for chat bots.
//!
//! An incoming form-encoded payload is decoded into fields, parsed into a
//! command invocation, dispatched through a name-keyed handler table, and the
//! handler's reply lines are rendered as a JSON object in which per-response
//! display overrides fall back to the bot's defaults.

pub mod bot;
pub mod command;
pub mod manager;
pub mod number;
pub mod pairs;
pub mod query;
pub mod response;
pub mod text;

pub use bot::{Config, HttpReply, SlackBot};
pub use command::{Field, RequestError, SlackCommand};
pub use manager::{CommandHandler, CommandManager, VersionCommand};
pub use response::SlackResponse;
