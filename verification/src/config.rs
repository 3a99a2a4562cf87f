//! Settings loaded once at start-up.

use crate::text::texts;
use vstd::prelude::*;

verus! {

/// What the bot needs to know before it can serve: the chat account, the
/// channels to join and where the commands are persisted.
#[derive(Debug, PartialEq, Eq)]
pub struct VuekoConfig {
    /// Login of the chat account.
    pub user: String,
    /// Token of the chat account.
    pub tmi_password: String,
    /// The channels to join, each with its marker character.
    pub channels: Vec<String>,
    /// Where the command table is kept.
    pub database: String,
}

/// [`VuekoConfig`] over mathematical text.
pub struct ConfigView {
    pub user: Seq<char>,
    pub tmi_password: Seq<char>,
    pub channels: Seq<Seq<char>>,
    pub database: Seq<char>,
}

impl View for VuekoConfig {
    type V = ConfigView;

    open spec fn view(&self) -> ConfigView {
        ConfigView {
            user: self.user@,
            tmi_password: self.tmi_password@,
            channels: texts(self.channels@),
            database: self.database@,
        }
    }
}

} // verus!
