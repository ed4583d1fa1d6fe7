//! The slash-command surface: which command a name selects, and the closed
//! grammar of the free-text `settings` subcommand.

use vstd::prelude::*;
use vstd::string::StringExecFns;
use crate::reqs::ReqField;
use crate::text::{
    chars_eq_lit, sub_chars, chars_to_string, fold_eq, join_sp, join_tokens, parse_u64_chars,
    spec_parse_u64, split_sp, split_spaces, str_to_chars, verb_eq, views_of,
};

verus! {

/// Which top-level slash command a name selects.
#[derive(Clone, Copy, Debug, PartialEq, Eq, Structural)]
pub enum CommandKind {
    Verify,
    Settings,
    User,
    Reqs,
    Help,
    Unknown,
}

pub open spec fn spec_classify(s: Seq<char>) -> CommandKind {
    if s == "verify"@ {
        CommandKind::Verify
    } else if s == "settings"@ {
        CommandKind::Settings
    } else if s == "user"@ {
        CommandKind::User
    } else if s == "reqs"@ {
        CommandKind::Reqs
    } else if s == "help"@ {
        CommandKind::Help
    } else {
        CommandKind::Unknown
    }
}

/// Map a command name to the command it selects; anything unrecognized is
/// answered as unknown.
pub fn classify_command(name: &str) -> (r: CommandKind)
    ensures
        r == spec_classify(name@),
{
    let v = str_to_chars(name);
    if chars_eq_lit(&v, "verify") {
        CommandKind::Verify
    } else if chars_eq_lit(&v, "settings") {
        CommandKind::Settings
    } else if chars_eq_lit(&v, "user") {
        CommandKind::User
    } else if chars_eq_lit(&v, "reqs") {
        CommandKind::Reqs
    } else if chars_eq_lit(&v, "help") {
        CommandKind::Help
    } else {
        CommandKind::Unknown
    }
}

// ---------------------------------------------------------------------------
// The `settings` subcommand grammar
// ---------------------------------------------------------------------------

/// One parsed `settings` subcommand, carrying its typed arguments.
pub enum SettingsCmd {
    /// `view`
    ViewAll,
    /// `verified_role <@&role>`
    VerifiedRole { role: u64 },
    /// `guild_role <guild name...> <@&role>`
    GuildRole { guild_name: String, role: u64 },
    /// `reqs clear <guild>`
    ReqsClear { guild_name: String },
    /// `reqs set <guild> <field> <amount>`
    ReqsSet { guild_name: String, field: ReqField, amount: i64 },
}

/// Ghost image of a parsed subcommand.
pub enum SettingsCmdV {
    ViewAll,
    VerifiedRole { role: u64 },
    GuildRole { guild_name: Seq<char>, role: u64 },
    ReqsClear { guild_name: Seq<char> },
    ReqsSet { guild_name: Seq<char>, field: ReqField, amount: int },
}

impl View for SettingsCmd {
    type V = SettingsCmdV;

    open spec fn view(&self) -> SettingsCmdV {
        match self {
            SettingsCmd::ViewAll => SettingsCmdV::ViewAll,
            SettingsCmd::VerifiedRole { role } => SettingsCmdV::VerifiedRole { role: *role },
            SettingsCmd::GuildRole { guild_name, role } => SettingsCmdV::GuildRole {
                guild_name: guild_name@,
                role: *role,
            },
            SettingsCmd::ReqsClear { guild_name } => SettingsCmdV::ReqsClear {
                guild_name: guild_name@,
            },
            SettingsCmd::ReqsSet { guild_name, field, amount } => SettingsCmdV::ReqsSet {
                guild_name: guild_name@,
                field: *field,
                amount: *amount as int,
            },
        }
    }
}

/// Why a `settings` subcommand was rejected.
#[derive(Clone, Copy, Debug, PartialEq, Eq, Structural)]
pub enum SettingsParseError {
    /// The token in role position is not a role mention or plain role id.
    BadMention,
    /// The amount is not a plain non-negative integer that fits.
    BadAmount,
    /// The field name is none of the four requirement fields.
    UnknownField,
    /// The token shape matches no recognized form.
    Malformed,
}

/// A role mention with its wrapper removed: a leading `<@&` and a trailing
/// `>` are each dropped when present.
pub open spec fn strip_mention(s: Seq<char>) -> Seq<char> {
    let a = if s.len() >= 3 && s[0] == '<' && s[1] == '@' && s[2] == '&' {
        s.skip(3)
    } else {
        s
    };
    if a.len() >= 1 && a.last() == '>' {
        a.drop_last()
    } else {
        a
    }
}

/// The role id a mention token denotes: the unwrapped digits as a `u64`,
/// which must be a valid (non-zero) role id.
pub open spec fn spec_parse_mention(s: Seq<char>) -> Option<u64> {
    match spec_parse_u64(strip_mention(s)) {
        Some(n) => if n > 0 {
            Some(n)
        } else {
            None
        },
        None => None,
    }
}

/// The requirement field a token names, matched ignoring ASCII letter case.
pub open spec fn spec_field_of_token(t: Seq<char>) -> Option<ReqField> {
    if fold_eq(t, "slayer"@) {
        Some(ReqField::Slayer)
    } else if fold_eq(t, "skills"@) {
        Some(ReqField::Skills)
    } else if fold_eq(t, "catacombs"@) {
        Some(ReqField::Catacombs)
    } else if fold_eq(t, "weight"@) {
        Some(ReqField::Weight)
    } else {
        None
    }
}

/// The whole grammar: tokenize on single spaces, match the verb ignoring
/// ASCII letter case, and type-check the arguments of the matched form.
pub open spec fn spec_parse_settings(s: Seq<char>) -> Result<SettingsCmdV, SettingsParseError> {
    let t = split_sp(s);
    if t.len() == 2 && fold_eq(t[0], "verified_role"@) {
        match spec_parse_mention(t[1]) {
            Some(role) => Ok(SettingsCmdV::VerifiedRole { role }),
            None => Err(SettingsParseError::BadMention),
        }
    } else if t.len() >= 3 && fold_eq(t[0], "guild_role"@) {
        match spec_parse_mention(t[t.len() - 1]) {
            Some(role) => Ok(
                SettingsCmdV::GuildRole {
                    guild_name: join_sp(t.subrange(1, t.len() - 1)),
                    role,
                },
            ),
            None => Err(SettingsParseError::BadMention),
        }
    } else if t.len() == 1 && fold_eq(t[0], "view"@) {
        Ok(SettingsCmdV::ViewAll)
    } else if t.len() == 3 && fold_eq(t[0], "reqs"@) && fold_eq(t[1], "clear"@) {
        Ok(SettingsCmdV::ReqsClear { guild_name: t[2] })
    } else if t.len() == 5 && fold_eq(t[0], "reqs"@) && fold_eq(t[1], "set"@) {
        match spec_parse_u64(t[4]) {
            Some(a) => if a <= i64::MAX {
                match spec_field_of_token(t[3]) {
                    Some(field) => Ok(
                        SettingsCmdV::ReqsSet { guild_name: t[2], field, amount: a as int },
                    ),
                    None => Err(SettingsParseError::UnknownField),
                }
            } else {
                Err(SettingsParseError::BadAmount)
            },
            None => Err(SettingsParseError::BadAmount),
        }
    } else {
        Err(SettingsParseError::Malformed)
    }
}

/// Unwrap a role mention and parse the role id.
fn parse_mention(tok: &Vec<char>) -> (r: Option<u64>)
    ensures
        r == spec_parse_mention(tok@),
{
    let n = tok.len();
    let start: usize = if n >= 3 && tok[0] == '<' && tok[1] == '@' && tok[2] == '&' {
        3
    } else {
        0
    };
    let end: usize = if n - start >= 1 && tok[n - 1] == '>' {
        n - 1
    } else {
        n
    };
    let digits = sub_chars(tok, start, end);
    proof {
        let a = if tok@.len() >= 3 && tok@[0] == '<' && tok@[1] == '@' && tok@[2] == '&' {
            tok@.skip(3)
        } else {
            tok@
        };
        assert(a =~= tok@.subrange(start as int, n as int));
        if a.len() >= 1 && a.last() == '>' {
            assert(a.drop_last() =~= tok@.subrange(start as int, end as int));
        }
        assert(strip_mention(tok@) =~= digits@);
    }
    match parse_u64_chars(&digits) {
        Some(id) => if id > 0 {
            Some(id)
        } else {
            None
        },
        None => None,
    }
}

/// Match a token against the four requirement fields.
fn field_of_token(tok: &Vec<char>) -> (r: Option<ReqField>)
    ensures
        r == spec_field_of_token(tok@),
{
    if verb_eq(tok, "slayer") {
        Some(ReqField::Slayer)
    } else if verb_eq(tok, "skills") {
        Some(ReqField::Skills)
    } else if verb_eq(tok, "catacombs") {
        Some(ReqField::Catacombs)
    } else if verb_eq(tok, "weight") {
        Some(ReqField::Weight)
    } else {
        None
    }
}

/// Parse a free-text `settings` subcommand into its typed form, rejecting
/// unrecognized shapes before anything is dispatched.
pub fn parse_settings_command(cmd: &str) -> (r: Result<SettingsCmd, SettingsParseError>)
    ensures
        (r matches Ok(c) ==> spec_parse_settings(cmd@) == Ok::<SettingsCmdV, SettingsParseError>(
            c@,
        )),
        (r matches Err(e) ==> spec_parse_settings(cmd@) == Err::<SettingsCmdV, SettingsParseError>(
            e,
        )),
{
    let chars = str_to_chars(cmd);
    let toks = split_spaces(&chars);
    let n = toks.len();
    proof {
        assert(views_of(toks@).len() == n);
    }
    if n == 2 && verb_eq(&toks[0], "verified_role") {
        match parse_mention(&toks[1]) {
            Some(role) => Ok(SettingsCmd::VerifiedRole { role }),
            None => Err(SettingsParseError::BadMention),
        }
    } else if n >= 3 && verb_eq(&toks[0], "guild_role") {
        match parse_mention(&toks[n - 1]) {
            Some(role) => {
                let name_chars = join_tokens(&toks, 1, n - 1);
                let guild_name = chars_to_string(&name_chars);
                Ok(SettingsCmd::GuildRole { guild_name, role })
            },
            None => Err(SettingsParseError::BadMention),
        }
    } else if n == 1 && verb_eq(&toks[0], "view") {
        Ok(SettingsCmd::ViewAll)
    } else if n == 3 && verb_eq(&toks[0], "reqs") && verb_eq(&toks[1], "clear") {
        let guild_name = chars_to_string(&toks[2]);
        Ok(SettingsCmd::ReqsClear { guild_name })
    } else if n == 5 && verb_eq(&toks[0], "reqs") && verb_eq(&toks[1], "set") {
        match parse_u64_chars(&toks[4]) {
            Some(a) => if a <= i64::MAX as u64 {
                match field_of_token(&toks[3]) {
                    Some(field) => {
                        let guild_name = chars_to_string(&toks[2]);
                        Ok(SettingsCmd::ReqsSet { guild_name, field, amount: a as i64 })
                    },
                    None => Err(SettingsParseError::UnknownField),
                }
            } else {
                Err(SettingsParseError::BadAmount)
            },
            None => Err(SettingsParseError::BadAmount),
        }
    } else {
        Err(SettingsParseError::Malformed)
    }
}

/// The response to a rejected `settings` subcommand.
pub open spec fn spec_settings_error(e: SettingsParseError) -> Seq<char> {
    match e {
        SettingsParseError::BadMention => "Invalid role mention"@,
        SettingsParseError::BadAmount => "Invalid amount"@,
        SettingsParseError::UnknownField => "Invalid requirement type"@,
        SettingsParseError::Malformed => "Invalid command"@,
    }
}

pub fn settings_error_reply(e: SettingsParseError) -> (r: String)
    ensures
        r@ == spec_settings_error(e),
{
    match e {
        SettingsParseError::BadMention => String::from_str("Invalid role mention"),
        SettingsParseError::BadAmount => String::from_str("Invalid amount"),
        SettingsParseError::UnknownField => String::from_str("Invalid requirement type"),
        SettingsParseError::Malformed => String::from_str("Invalid command"),
    }
}

/// The static help text naming every command.
pub open spec fn spec_help_text() -> Seq<char> {
    "`/help`\n`/verify <player>`\n`/reqs <player> [profile]`\n`/user <@user>`\n`/settings view`\n`/settings verified_role <@role>`\n`/settings guild_role <guild> <@role>`\n`/settings reqs clear <guild>`\n`/settings reqs set <guild> <type> <amount>`"@
}

pub fn help_text() -> (r: String)
    ensures
        r@ == spec_help_text(),
{
    String::from_str(
        "`/help`\n`/verify <player>`\n`/reqs <player> [profile]`\n`/user <@user>`\n`/settings view`\n`/settings verified_role <@role>`\n`/settings guild_role <guild> <@role>`\n`/settings reqs clear <guild>`\n`/settings reqs set <guild> <type> <amount>`",
    )
}

/// The response to a command name the bot does not know.
pub fn unknown_command_reply() -> (r: String)
    ensures
        r@ == "Unknown Command"@,
{
    String::from_str("Unknown Command")
}

} // verus!
