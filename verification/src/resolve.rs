//! Turning the game API's answers about a player into a resolved identity.
//!
//! The network calls themselves happen outside the library; what they
//! returned arrives here as a [`ResolveEvent`], and the decision of what
//! that outcome means is made by [`get_discord_info`].

use vstd::prelude::*;
use vstd::string::StringExecFns;
use crate::text::{digit_char, digit_to_char, push_char, spec_dec, u64_to_dec, chars_to_string};

verus! {

/// The outcome of resolving a username: either the identity triple, or the
/// upstream failure message to surface verbatim.
pub struct DiscordInfo {
    pub username: Option<String>,
    pub uuid: Option<String>,
    pub discord: Option<String>,
    pub error: Option<String>,
}

impl DiscordInfo {
    /// A resolution either failed with a message and carries nothing else,
    /// or succeeded and carries the full identity triple.
    pub open spec fn wf(&self) -> bool {
        ||| (self.error is Some && self.username is None && self.uuid is None
            && self.discord is None)
        ||| (self.error is None && self.username is Some && self.uuid is Some
            && self.discord is Some)
    }

    /// The failed outcome carrying `err`.
    pub fn from_err(err: String) -> (r: Self)
        ensures
            r.username is None,
            r.uuid is None,
            r.discord is None,
            r.error == Some(err),
            r.wf(),
    {
        Self { username: None, uuid: None, discord: None, error: Some(err) }
    }
}

/// What the two game-API calls behind a resolution came back with.
pub enum ResolveEvent {
    /// Either call failed; the upstream message is surfaced verbatim.
    Failed { message: String },
    /// Both calls answered: the player's username and uuid, and the
    /// chat-platform tag published in their profile, if any.
    Fetched { username: String, uuid: String, discord: Option<String> },
}

/// The text appended to a username when the player has not published a
/// chat-platform tag in-game.
pub open spec fn not_linked_suffix() -> Seq<char> {
    " is not linked on Hypixel"@
}

/// Interpret what the game API answered: a failure is surfaced verbatim, a
/// player without a published tag is a domain-level failure naming the
/// player, and otherwise the full identity triple comes back.
pub fn get_discord_info(ev: ResolveEvent) -> (r: DiscordInfo)
    ensures
        r.wf(),
        (ev matches ResolveEvent::Failed { message } ==> (r.error matches Some(m) && m@
            == message@)),
        (ev matches ResolveEvent::Fetched { username, uuid, discord } ==> (match discord {
            Some(tag) => {
                &&& r.error is None
                &&& (r.username matches Some(u) && u@ == username@)
                &&& (r.uuid matches Some(x) && x@ == uuid@)
                &&& (r.discord matches Some(t) && t@ == tag@)
            },
            None => (r.error matches Some(m) && m@ == username@ + not_linked_suffix()),
        })),
{
    match ev {
        ResolveEvent::Failed { message } => DiscordInfo::from_err(message),
        ResolveEvent::Fetched { username, uuid, discord } => {
            match discord {
                Some(tag) => DiscordInfo {
                    username: Some(username),
                    uuid: Some(uuid),
                    discord: Some(tag),
                    error: None,
                },
                None => {
                    let mut m = username;
                    m.append(" is not linked on Hypixel");
                    DiscordInfo::from_err(m)
                },
            }
        },
    }
}

/// A discriminator rendered the way the chat platform displays it: padded
/// to at least four digits.
pub open spec fn spec_dec4(n: nat) -> Seq<char> {
    if n >= 10000 {
        spec_dec(n)
    } else {
        seq![
            digit_char(n / 1000 % 10),
            digit_char(n / 100 % 10),
            digit_char(n / 10 % 10),
            digit_char(n % 10),
        ]
    }
}

fn format_discriminator(d: u16) -> (r: Vec<char>)
    ensures
        r@ == spec_dec4(d as nat),
{
    if d >= 10000 {
        u64_to_dec(d as u64)
    } else {
        let mut r: Vec<char> = Vec::new();
        r.push(digit_to_char((d / 1000 % 10) as u64));
        r.push(digit_to_char((d / 100 % 10) as u64));
        r.push(digit_to_char((d / 10 % 10) as u64));
        r.push(digit_to_char((d % 10) as u64));
        proof {
            assert(r@ =~= spec_dec4(d as nat));
        }
        r
    }
}


/// The unique tag of the invoking chat-platform user: name, '#', and the
/// discriminator padded to four digits.
pub fn user_tag(name: &str, discriminator: u16) -> (r: String)
    ensures
        r@ == name@ + seq!['#'] + spec_dec4(discriminator as nat),
{
    let mut s = String::from_str(name);
    push_char(&mut s, '#');
    let digits = format_discriminator(discriminator);
    let tail = chars_to_string(&digits);
    s.append(tail.as_str());
    proof {
        assert(s@ =~= name@ + seq!['#'] + spec_dec4(discriminator as nat));
    }
    s
}

} // verus!
