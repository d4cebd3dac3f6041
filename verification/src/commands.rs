//! What the bridge answers by itself.

use vstd::prelude::*;

use crate::clock::Span;
use crate::numbers;
use crate::numbers::push_decimal;
use crate::status;
use crate::status::AgentStatus;
use crate::text;
use crate::text_laws;
use crate::text::{first_word, same_text, to_chars};

verus! {

/// A command that the bridge knows.
#[derive(Debug, Clone, Copy, PartialEq, Eq, Structural)]
pub enum BotCommand {
    Start,
    Help,
    Status,
}

/// Whether a message is for the bridge itself.
pub open spec fn is_command(s: Seq<char>) -> bool {
    s.len() > 0 && s[0] == '/'
}

/// Whether a message is for the bridge itself: it starts with a slash.
pub fn is_bot_command(s: &str) -> (yes: bool)
    ensures
        yes == is_command(s@),
{
    let chars = to_chars(s);
    chars.len() > 0 && chars[0] == '/'
}

/// The command in a message: its first word, if the bridge knows it.
pub open spec fn command_of(s: Seq<char>) -> Option<BotCommand> {
    let word = text::first_word_of(s);
    if word == "/start"@ {
        Some(BotCommand::Start)
    } else if word == "/help"@ {
        Some(BotCommand::Help)
    } else if word == "/status"@ {
        Some(BotCommand::Status)
    } else {
        None
    }
}

/// The command in a message: its first word, if the bridge knows it.
pub fn parse_command(s: &str) -> (command: Option<BotCommand>)
    ensures
        command == command_of(s@),
{
    let word = first_word(s);
    if same_text(word.as_str(), "/start") {
        Some(BotCommand::Start)
    } else if same_text(word.as_str(), "/help") {
        Some(BotCommand::Help)
    } else if same_text(word.as_str(), "/status") {
        Some(BotCommand::Status)
    } else {
        None
    }
}

/// The answer to a command, from the name that the agent goes by, the whole seconds that the bridge
/// has been up and what is known of the agent.
pub open spec fn answer(
    command: BotCommand,
    agent: Seq<char>,
    uptime: int,
    s: status::StatusModel,
) -> Seq<char> {
    match command {
        BotCommand::Start => "I'm a "@ + agent
            + " Code bridge bot. Messages sent here are forwarded to your active "@ + agent
            + " Code session, and "@ + agent + "'s replies appear back in this chat."@,
        BotCommand::Help => "Available commands:\n/start — What this bot does\n/help — Show this message\n/status — Bot status\n\nSend any other message and it will be forwarded to "@
            + agent + " Code (if you have access)."@,
        BotCommand::Status => "Bridge:   online, uptime "@ + numbers::decimal(
            (uptime / 3600) as nat,
        ) + "h "@ + numbers::decimal(((uptime % 3600) / 60) as nat) + "m\n"@ + s.rendered(),
    }
}

/// The answer to a command. It never goes through the agent, so that it still comes when the agent
/// is stuck.
pub fn command_reply(command: BotCommand, agent: &str, uptime: Span, s: &AgentStatus) -> (reply:
    String)
    ensures
        reply@ == answer(command, agent@, status::seconds_in(uptime@), s@),
{
    match command {
        BotCommand::Start => {
            let mut reply = "I'm a ".to_owned();
            reply.append(agent);
            reply.append(" Code bridge bot. Messages sent here are forwarded to your active ");
            reply.append(agent);
            reply.append(" Code session, and ");
            reply.append(agent);
            reply.append("'s replies appear back in this chat.");
            reply
        },
        BotCommand::Help => {
            let mut reply =
                "Available commands:\n/start — What this bot does\n/help — Show this message\n/status — Bot status\n\nSend any other message and it will be forwarded to ".to_owned();
            reply.append(agent);
            reply.append(" Code (if you have access).");
            reply
        },
        BotCommand::Status => {
            let secs: u64 = uptime.as_secs();
            let mut reply = "Bridge:   online, uptime ".to_owned();
            push_decimal(&mut reply, secs / 3600);
            reply.append("h ");
            push_decimal(&mut reply, (secs % 3600) / 60);
            reply.append("m\n");
            reply.append(s.render().as_str());
            reply
        },
    }
}

/// The answer to a message for the bridge itself, if it holds a command that the bridge knows.
pub fn handle_bot_command(message: &str, agent: &str, uptime: Span, s: &AgentStatus) -> (reply:
    Option<String>)
    ensures
        match command_of(message@) {
            Some(command) => reply matches Some(r) && r@ == answer(
                command,
                agent@,
                status::seconds_in(uptime@),
                s@,
            ),
            None => reply is None,
        },
{
    match parse_command(message) {
        Some(command) => Some(command_reply(command, agent, uptime, s)),
        None => None,
    }
}

/// A message is for the bridge itself exactly if it starts with a slash; the command is its first
/// word, whatever follows behind a blank, and the bridge knows three.
pub proof fn lemma_what_is_a_command(rest: Seq<char>, s: Seq<char>)
    requires
        rest.len() > 0 ==> text_laws::blank(rest[0]),
    ensures
        is_command(s) <==> s.len() > 0 && s[0] == '/',
        command_of("/start"@ + rest) == Some(BotCommand::Start),
        command_of("/help"@ + rest) == Some(BotCommand::Help),
        command_of("/status"@ + rest) == Some(BotCommand::Status),
{
    reveal_strlit("/start");
    reveal_strlit("/help");
    reveal_strlit("/status");
    let none = Seq::<char>::empty();
    assert("/start"@.len() == 6 && "/help"@.len() == 5 && "/status"@.len() == 7);
    text_laws::lemma_first_word(none, "/start"@, rest);
    text_laws::lemma_first_word(none, "/help"@, rest);
    text_laws::lemma_first_word(none, "/status"@, rest);
    assert(none + "/start"@ + rest =~= "/start"@ + rest);
    assert(none + "/help"@ + rest =~= "/help"@ + rest);
    assert(none + "/status"@ + rest =~= "/status"@ + rest);
}

/// Any other first word is no command.
pub proof fn lemma_other_words_are_no_commands(word: Seq<char>, rest: Seq<char>)
    requires
        word.len() > 0,
        text_laws::no_blank(word),
        rest.len() > 0 ==> text_laws::blank(rest[0]),
        word != "/start"@,
        word != "/help"@,
        word != "/status"@,
    ensures
        command_of(word + rest) is None,
{
    let none = Seq::<char>::empty();
    text_laws::lemma_first_word(none, word, rest);
    assert(none + word + rest =~= word + rest);
}

/// The bridge says for how many hours and minutes it has been up, and then what the agent is doing.
pub proof fn lemma_uptime(
    agent: Seq<char>,
    hours: nat,
    minutes: nat,
    seconds: nat,
    s: status::StatusModel,
)
    requires
        minutes < 60,
        seconds < 60,
    ensures
        answer(BotCommand::Status, agent, (hours * 3600 + minutes * 60 + seconds) as int, s)
            == "Bridge:   online, uptime "@ + numbers::decimal(hours) + "h "@ + numbers::decimal(
            minutes,
        ) + "m\n"@ + s.rendered(),
{
    let t = (hours * 3600 + minutes * 60 + seconds) as int;
    assert(t / 3600 == hours && t % 3600 == minutes * 60 + seconds);
    assert((minutes * 60 + seconds) / 60 == minutes);
}

/// What the bridge says of itself, and of its commands.
pub proof fn lemma_what_the_bridge_says(agent: Seq<char>, uptime: int, s: status::StatusModel)
    ensures
        answer(BotCommand::Start, agent, uptime, s) == "I'm a "@ + agent
            + " Code bridge bot. Messages sent here are forwarded to your active "@ + agent
            + " Code session, and "@ + agent + "'s replies appear back in this chat."@,
        answer(BotCommand::Help, agent, uptime, s)
            == "Available commands:\n/start — What this bot does\n/help — Show this message\n/status — Bot status\n\nSend any other message and it will be forwarded to "@
            + agent + " Code (if you have access)."@,
{
}

} // verus!
