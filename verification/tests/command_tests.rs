//! The slash-command surface and the `settings` subcommand grammar.

use bot::commands::{
    classify_command, help_text, parse_settings_command, settings_error_reply,
    unknown_command_reply, CommandKind, SettingsCmd, SettingsParseError,
};
use bot::reqs::ReqField;

#[test]
fn command_names_are_classified() {
    assert_eq!(classify_command("verify"), CommandKind::Verify);
    assert_eq!(classify_command("settings"), CommandKind::Settings);
    assert_eq!(classify_command("user"), CommandKind::User);
    assert_eq!(classify_command("reqs"), CommandKind::Reqs);
    assert_eq!(classify_command("help"), CommandKind::Help);
    assert_eq!(classify_command("dance"), CommandKind::Unknown);
    assert_eq!(classify_command("Verify"), CommandKind::Unknown);
}

#[test]
fn view_subcommand() {
    assert!(matches!(parse_settings_command("view"), Ok(SettingsCmd::ViewAll)));
    assert!(matches!(parse_settings_command("VIEW"), Ok(SettingsCmd::ViewAll)));
    assert!(matches!(
        parse_settings_command("view extra"),
        Err(SettingsParseError::Malformed)
    ));
}

#[test]
fn verified_role_subcommand() {
    match parse_settings_command("verified_role <@&123>") {
        Ok(SettingsCmd::VerifiedRole { role }) => assert_eq!(role, 123),
        other => panic!("unexpected parse: {:?}", other.is_ok()),
    }
    match parse_settings_command("Verified_Role 456") {
        Ok(SettingsCmd::VerifiedRole { role }) => assert_eq!(role, 456),
        _ => panic!("a bare role id is accepted"),
    }
    assert!(matches!(
        parse_settings_command("verified_role banana"),
        Err(SettingsParseError::BadMention)
    ));
    assert!(matches!(
        parse_settings_command("verified_role <@&0>"),
        Err(SettingsParseError::BadMention)
    ));
    assert!(matches!(
        parse_settings_command("verified_role"),
        Err(SettingsParseError::Malformed)
    ));
}

#[test]
fn guild_role_subcommand_keeps_multiword_names() {
    match parse_settings_command("guild_role My Great Guild <@&77>") {
        Ok(SettingsCmd::GuildRole { guild_name, role }) => {
            assert_eq!(guild_name, "My Great Guild");
            assert_eq!(role, 77);
        }
        _ => panic!("a multi-word guild name parses"),
    }
    assert!(matches!(
        parse_settings_command("guild_role OnlyName nonsense"),
        Err(SettingsParseError::BadMention)
    ));
}

#[test]
fn reqs_clear_subcommand() {
    match parse_settings_command("reqs clear Sky") {
        Ok(SettingsCmd::ReqsClear { guild_name }) => assert_eq!(guild_name, "Sky"),
        _ => panic!("reqs clear parses"),
    }
    assert!(matches!(
        parse_settings_command("reqs clear two words"),
        Err(SettingsParseError::Malformed)
    ));
}

#[test]
fn reqs_set_subcommand() {
    match parse_settings_command("reqs set Sky weight 500") {
        Ok(SettingsCmd::ReqsSet { guild_name, field, amount }) => {
            assert_eq!(guild_name, "Sky");
            assert_eq!(field, ReqField::Weight);
            assert_eq!(amount, 500);
        }
        _ => panic!("reqs set parses"),
    }
    assert!(matches!(
        parse_settings_command("reqs set Sky SLAYER 10"),
        Ok(SettingsCmd::ReqsSet { field: ReqField::Slayer, .. })
    ));
    assert!(matches!(
        parse_settings_command("reqs set Sky banana 10"),
        Err(SettingsParseError::UnknownField)
    ));
    assert!(matches!(
        parse_settings_command("reqs set Sky weight -5"),
        Err(SettingsParseError::BadAmount)
    ));
    assert!(matches!(
        parse_settings_command("reqs set Sky weight 99999999999999999999"),
        Err(SettingsParseError::BadAmount)
    ));
    assert!(matches!(
        parse_settings_command("reqs set Sky weight"),
        Err(SettingsParseError::Malformed)
    ));
}

#[test]
fn unrecognized_subcommands() {
    assert!(matches!(parse_settings_command(""), Err(SettingsParseError::Malformed)));
    assert!(matches!(parse_settings_command("dance now"), Err(SettingsParseError::Malformed)));
}

#[test]
fn error_replies_name_the_problem() {
    assert_eq!(settings_error_reply(SettingsParseError::BadMention), "Invalid role mention");
    assert_eq!(settings_error_reply(SettingsParseError::BadAmount), "Invalid amount");
    assert_eq!(
        settings_error_reply(SettingsParseError::UnknownField),
        "Invalid requirement type"
    );
    assert_eq!(settings_error_reply(SettingsParseError::Malformed), "Invalid command");
}

#[test]
fn help_lists_every_command() {
    let text = help_text();
    for needle in [
        "`/help`",
        "`/verify <player>`",
        "`/reqs <player> [profile]`",
        "`/user <@user>`",
        "`/settings view`",
        "`/settings verified_role <@role>`",
        "`/settings guild_role <guild> <@role>`",
        "`/settings reqs clear <guild>`",
        "`/settings reqs set <guild> <type> <amount>`",
    ] {
        assert!(text.contains(needle), "help text misses {needle}");
    }
    assert_eq!(unknown_command_reply(), "Unknown Command");
}
