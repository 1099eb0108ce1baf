//! What is spoken, by whom, and where the speech is asked for.

use vstd::prelude::*;
use vstd::string::StringExecFns;
use crate::events::ChatEvent;
use crate::state::{AppState, MessageRole};
use crate::strings::string_of;

verus! {

/// The voices of the speech engine.
#[derive(Debug, Clone, Copy, PartialEq, Eq, Structural)]
pub enum Speakers {
    Metan,
    Zundamon,
}

/// The number under which the speech engine knows a voice.
pub open spec fn speaker_id(speaker: Speakers) -> u32 {
    match speaker {
        Speakers::Metan => 2,
        Speakers::Zundamon => 3,
    }
}

impl From<Speakers> for u32 {
    fn from(val: Speakers) -> (id: u32) {
        match val {
            Speakers::Metan => 2,
            Speakers::Zundamon => 3,
        }
    }
}

impl vstd::std_specs::convert::FromSpecImpl<Speakers> for u32 {
    open spec fn obeys_from_spec() -> bool {
        true
    }

    open spec fn from_spec(val: Speakers) -> u32 {
        speaker_id(val)
    }
}

/// The character of a decimal digit.
pub open spec fn digit_char(digit: int) -> char {
    if digit == 0 {
        '0'
    } else if digit == 1 {
        '1'
    } else if digit == 2 {
        '2'
    } else if digit == 3 {
        '3'
    } else if digit == 4 {
        '4'
    } else if digit == 5 {
        '5'
    } else if digit == 6 {
        '6'
    } else if digit == 7 {
        '7'
    } else if digit == 8 {
        '8'
    } else {
        '9'
    }
}

/// A number written in decimal digits, without leading zeros.
pub open spec fn decimal(n: nat) -> Seq<char>
    decreases n,
{
    if n < 10 {
        seq![digit_char(n as int)]
    } else {
        decimal(n / 10).push(digit_char((n % 10) as int))
    }
}

fn digit_of(digit: u32) -> (c: char)
    requires
        digit < 10,
    ensures
        c == digit_char(digit as int),
{
    if digit == 0 {
        '0'
    } else if digit == 1 {
        '1'
    } else if digit == 2 {
        '2'
    } else if digit == 3 {
        '3'
    } else if digit == 4 {
        '4'
    } else if digit == 5 {
        '5'
    } else if digit == 6 {
        '6'
    } else if digit == 7 {
        '7'
    } else if digit == 8 {
        '8'
    } else {
        '9'
    }
}

/// Writes `n` in decimal digits.
pub fn decimal_text(n: u32) -> (text: String)
    ensures
        text@ == decimal(n as nat),
{
    let mut low_first: Vec<char> = Vec::new();
    let mut rest: u32 = n;
    while rest >= 10
        invariant
            decimal(rest as nat) + low_first@.reverse() == decimal(n as nat),
        decreases rest,
    {
        let ghost before = low_first@;
        let ghost digit = digit_char((rest % 10) as int);
        low_first.push(digit_of(rest % 10));
        proof {
            assert(low_first@.reverse() =~= seq![digit] + before.reverse());
            assert(decimal((rest / 10) as nat).push(digit) + before.reverse() =~= decimal(
                (rest / 10) as nat,
            ) + low_first@.reverse());
        }
        rest = rest / 10;
    }
    low_first.push(digit_of(rest));
    let mut digits: Vec<char> = Vec::new();
    let mut i: usize = low_first.len();
    assert(low_first@.reverse() =~= decimal(n as nat)) by {
        let before = low_first@.drop_last();
        assert(low_first@.reverse() =~= seq![digit_char(rest as int)] + before.reverse());
    }
    while i > 0
        invariant
            i <= low_first@.len(),
            digits@ == low_first@.reverse().take(low_first@.len() - i),
        decreases i,
    {
        i = i - 1;
        digits.push(low_first[i]);
        assert(digits@ =~= low_first@.reverse().take(low_first@.len() - i));
    }
    assert(digits@ =~= low_first@.reverse());
    string_of(digits.as_slice())
}

/// The address at which a query for speech is made at the engine `origin`.
pub fn audio_query_url(origin: &str) -> (url: String)
    ensures
        url@ == origin@ + "/audio_query"@,
{
    let mut url = String::from_str(origin);
    url.append("/audio_query");
    url
}

/// The address at which the engine `origin` makes speech in the voice
/// `speaker`.
pub fn synthesis_url(origin: &str, speaker: Speakers) -> (url: String)
    ensures
        url@ == origin@ + "/synthesis?speaker="@ + decimal(speaker_id(speaker) as nat),
{
    let id: u32 = match speaker {
        Speakers::Metan => 2,
        Speakers::Zundamon => 3,
    };
    let mut url = String::from_str(origin);
    url.append("/synthesis?speaker=");
    url.append(decimal_text(id).as_str());
    url
}

/// What is to be spoken when `event` arrives, before it is applied to the
/// state: the last message, if the event completes a reply and the message
/// is the assistant's.
pub open spec fn spoken_text(event: ChatEvent, state: AppState) -> Option<Seq<char>> {
    if event is StreamingComplete && state.messages@.len() > 0 && state.messages@.last().role
        == MessageRole::Assistant {
        Some(state.messages@.last().content@)
    } else {
        None
    }
}

/// The text to speak when `chat_event` arrives, if there is any. To be
/// asked before the event is applied to the state.
pub fn handle_voice_event(chat_event: &ChatEvent, app_state: &AppState) -> (text: Option<String>)
    ensures
        match text {
            Some(spoken) => spoken_text(*chat_event, *app_state) == Some(spoken@),
            None => spoken_text(*chat_event, *app_state) is None,
        },
{
    match chat_event {
        ChatEvent::StreamingComplete(_) => {
            let count = app_state.messages.len();
            if count > 0 {
                match app_state.messages[count - 1].role {
                    MessageRole::Assistant => Some(app_state.messages[count - 1].content.clone()),
                    _ => None,
                }
            } else {
                None
            }
        },
        _ => None,
    }
}

} // verus!
