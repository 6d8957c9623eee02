use vstd::prelude::*;
use crate::text::str_eq;

verus! {

/// What the bot is told about an interaction.
pub enum Incoming {
    /// A slash command, by its name.
    Command(String),
    /// A click on a component (a vote button).
    Component,
    /// Any other interaction.
    Other,
}

/// What the bot does about an interaction.
#[derive(PartialEq, Eq, Structural, Debug, Clone, Copy)]
pub enum Action {
    /// Open a poll.
    RunPoll,
    /// Close a poll.
    RunClose,
    /// Tell about the bot.
    RunInfo,
    /// Refuse a command that the bot does not know.
    UnknownCommand,
    /// Answer that commands are only taken in channels the bot can see.
    RefuseUnseenChannel,
    /// Record a vote.
    Vote,
    /// Do nothing.
    Ignore,
}

/// Commands are only run where the bot can see the channel; a vote is taken
/// wherever it comes from.
pub open spec fn route_spec(incoming: Incoming, can_see_channel: bool) -> Action {
    match incoming {
        Incoming::Command(name) => if !can_see_channel {
            Action::RefuseUnseenChannel
        } else if name@ == "poll"@ {
            Action::RunPoll
        } else if name@ == "close"@ {
            Action::RunClose
        } else if name@ == "info"@ {
            Action::RunInfo
        } else {
            Action::UnknownCommand
        },
        Incoming::Component => Action::Vote,
        Incoming::Other => Action::Ignore,
    }
}

/// Decides what to do about an interaction.
pub fn route_interaction(incoming: &Incoming, can_see_channel: bool) -> (action: Action)
    ensures
        action == route_spec(*incoming, can_see_channel),
{
    match incoming {
        Incoming::Command(name) => {
            if !can_see_channel {
                Action::RefuseUnseenChannel
            } else if str_eq(name.as_str(), "poll") {
                Action::RunPoll
            } else if str_eq(name.as_str(), "close") {
                Action::RunClose
            } else if str_eq(name.as_str(), "info") {
                Action::RunInfo
            } else {
                Action::UnknownCommand
            }
        },
        Incoming::Component => Action::Vote,
        Incoming::Other => Action::Ignore,
    }
}

/// A message adds options to a poll when it replies to a message of the bot
/// (the polls are the bot's messages).
pub fn replies_to_bot(referenced_author: u64, bot_id: u64) -> (r: bool)
    ensures
        r == (referenced_author == bot_id),
{
    referenced_author == bot_id
}


/// Law: a command in a channel the bot cannot see is always refused, whatever
/// its name; where the bot can see the channel, `poll`, `close` and `info`
/// run their command and any other name is unknown; a vote is always taken and
/// any other interaction ignored.
pub proof fn lemma_routing(name: String, can_see_channel: bool)
    ensures
        !can_see_channel ==> route_spec(Incoming::Command(name), false)
            == Action::RefuseUnseenChannel,
        can_see_channel && name@ == "poll"@ ==> route_spec(Incoming::Command(name), true)
            == Action::RunPoll,
        can_see_channel && name@ == "close"@ ==> route_spec(Incoming::Command(name), true)
            == Action::RunClose,
        can_see_channel && name@ == "info"@ ==> route_spec(Incoming::Command(name), true)
            == Action::RunInfo,
        can_see_channel && name@ != "poll"@ && name@ != "close"@ && name@ != "info"@
            ==> route_spec(Incoming::Command(name), true) == Action::UnknownCommand,
        route_spec(Incoming::Component, can_see_channel) == Action::Vote,
        route_spec(Incoming::Other, can_see_channel) == Action::Ignore,
{
    reveal_strlit("poll");
    reveal_strlit("close");
    reveal_strlit("info");
    assert("close"@[0] != "poll"@[0]);
    assert("info"@[0] != "poll"@[0]);
    assert("info"@[0] != "close"@[0]);
}

} // verus!
