//! The chat box: what it shows, and what a line typed into it does.
use vstd::prelude::*;
use crate::backend::networking::protocol::ClientMessage;

verus! {

/// Messages shown in the chat box, and the line being typed.
#[derive(Debug, Default, Clone)]
pub struct ChatState {
    pub messages: Vec<String>,
    pub input: String,
}

/// What a line typed into the chat does: a message to send, the help text, or a complaint
/// about an unknown command.
#[derive(Debug)]
pub enum ChatCommand {
    Send(ClientMessage),
    Help,
    Invalid,
}

/// Unicode white space (the characters `char::is_whitespace` accepts).
pub open spec fn is_white(c: char) -> bool {
    ||| '\u{9}' <= c <= '\u{d}'
    ||| c == ' '
    ||| c == '\u{85}'
    ||| c == '\u{a0}'
    ||| c == '\u{1680}'
    ||| '\u{2000}' <= c <= '\u{200a}'
    ||| c == '\u{2028}'
    ||| c == '\u{2029}'
    ||| c == '\u{202f}'
    ||| c == '\u{205f}'
    ||| c == '\u{3000}'
}

fn white(c: char) -> (b: bool)
    ensures
        b == is_white(c),
{
    ('\u{9}' <= c && c <= '\u{d}') || c == ' ' || c == '\u{85}' || c == '\u{a0}' || c == '\u{1680}'
        || ('\u{2000}' <= c && c <= '\u{200a}') || c == '\u{2028}' || c == '\u{2029}' || c == '\u{202f}'
        || c == '\u{205f}' || c == '\u{3000}'
}

/// The position of the first white space in `s` from position `i` on, or the length of `s`.
pub open spec fn word_end(s: Seq<char>, i: int) -> int
    decreases s.len() - i,
{
    if i < 0 || i >= s.len() {
        s.len() as int
    } else if is_white(s[i]) {
        i
    } else {
        word_end(s, i + 1)
    }
}

/// A line starting with "/" is a command, named by its first word: "/quit" leaves the game,
/// "/help" asks for help, anything else is not a command; any other line is said in the
/// chat.
pub open spec fn chat_command(s: Seq<char>, r: ChatCommand) -> bool {
    if s.len() > 0 && s[0] == '/' {
        let word = s.take(word_end(s, 0));
        if word == "/quit"@ {
            r matches ChatCommand::Send(ClientMessage::Disconnect)
        } else if word == "/help"@ {
            r is Help
        } else {
            r is Invalid
        }
    } else {
        r matches ChatCommand::Send(ClientMessage::ChatMessage { message }) && message@ == s
    }
}

/// What the typed line `input` does.
pub fn handle_chat_input(input: String) -> (r: ChatCommand)
    ensures
        chat_command(input@, r),
{
    let n = input.as_str().unicode_len();
    if n > 0 && input.as_str().get_char(0) == '/' {
        let mut end: usize = 0;
        while end < n && !white(input.as_str().get_char(end))
            invariant
                n == input@.len(),
                end <= n,
                word_end(input@, 0) == word_end(input@, end as int),
            decreases n - end,
        {
            end += 1;
        }
        assert(word_end(input@, end as int) == end);
        let word = String::from_str(input.as_str().substring_char(0, end));
        assert(word@ =~= input@.take(end as int));
        if word == String::from_str("/quit") {
            ChatCommand::Send(ClientMessage::Disconnect)
        } else if word == String::from_str("/help") {
            ChatCommand::Help
        } else {
            ChatCommand::Invalid
        }
    } else {
        ChatCommand::Send(ClientMessage::ChatMessage { message: input })
    }
}

} // verus!
