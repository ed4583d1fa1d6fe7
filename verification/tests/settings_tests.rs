//! The `settings` transitions over the document.

use bot::codec::encode_server_config;
use bot::engine::{
    render_view, settings_guild_role, settings_reqs_clear, settings_reqs_set,
    settings_verified_role, GuildName,
};
use bot::reqs::ReqField;
use bot::settings::ServerConfig;

#[test]
fn verified_role_persists_only_a_listed_role() {
    // the example scenario: an empty document and a role that exists
    let mut doc = ServerConfig::new();
    let reply = settings_verified_role(&mut doc, 123, &vec![10, 123, 99]);
    assert!(reply.persist);
    assert!(reply.message.contains("123"));
    assert_eq!(reply.message, "Set verified role to <@&123>");
    assert_eq!(doc.verified_role, "123");
    // a later view names the role and shows no guild-role lines
    let view = render_view(&doc, &Vec::new()).expect("view renders");
    assert_eq!(view, "Verified Role: <@&123>\nGuild Roles:\nReqs:");
}

#[test]
fn verified_role_rejects_an_unknown_role() {
    let mut doc = ServerConfig::new();
    settings_verified_role(&mut doc, 5, &vec![5]);
    let before = encode_server_config(&doc);
    let reply = settings_verified_role(&mut doc, 123, &vec![10, 99]);
    assert!(!reply.persist);
    assert_eq!(reply.message, "Invalid role: <@&123>");
    // the document is byte-for-byte what it was
    assert_eq!(encode_server_config(&doc), before);
}

#[test]
fn guild_role_maps_the_guild_id() {
    let mut doc = ServerConfig::new();
    let guild = GuildName { guild_id: String::from("abc123"), name: String::from("Sky Guild") };
    let reply = settings_guild_role(&mut doc, &guild, 77);
    assert!(reply.persist);
    assert_eq!(reply.message, "Set guild role for Sky Guild to <@&77>");
    assert_eq!(doc.get_guild_role(&String::from("abc123")), Some(&String::from("77")));
    // view resolves the stored id through the name table
    let names = vec![GuildName { guild_id: String::from("abc123"), name: String::from("Sky Guild") }];
    let view = render_view(&doc, &names).expect("view renders");
    assert_eq!(view, "Verified Role: <@&>\nGuild Roles:\n  \u{2022} Sky Guild: <@&77>\nReqs:");
    // a missing name is a hard error for the whole view
    let err = render_view(&doc, &Vec::new()).expect_err("missing name fails");
    assert_eq!(err, "Invalid guild");
}

#[test]
fn setting_one_field_keeps_the_others() {
    let mut doc = ServerConfig::new();
    settings_reqs_set(&mut doc, String::from("Sky"), ReqField::Weight, 500);
    let reply = settings_reqs_set(&mut doc, String::from("Sky"), ReqField::Slayer, 10);
    assert_eq!(reply.message, "Set slayer req to 10 for Sky");
    let reqs = doc.get_reqs_or_default(&String::from("Sky"));
    assert_eq!(reqs.weight, 500);
    assert_eq!(reqs.slayer, 10);
    assert_eq!(reqs.skills, 0);
    assert_eq!(reqs.catacombs, 0);
    assert_eq!(doc.guild_reqs.len(), 1);
}

#[test]
fn clearing_without_a_record_is_a_quiet_success() {
    let mut doc = ServerConfig::new();
    let before = encode_server_config(&doc);
    let reply = settings_reqs_clear(&mut doc, &String::from("Sky"));
    assert!(reply.persist);
    assert_eq!(reply.message, "Cleared reqs for Sky");
    assert_eq!(encode_server_config(&doc), before);
}

#[test]
fn clearing_drops_the_record() {
    let mut doc = ServerConfig::new();
    settings_reqs_set(&mut doc, String::from("Sky"), ReqField::Skills, 40);
    settings_reqs_clear(&mut doc, &String::from("Sky"));
    assert!(doc.guild_reqs.is_empty());
    let reqs = doc.get_reqs_or_default(&String::from("Sky"));
    assert_eq!(reqs.skills, 0);
}

#[test]
fn view_lists_requirements() {
    let mut doc = ServerConfig::new();
    settings_verified_role(&mut doc, 9, &vec![9]);
    settings_reqs_set(&mut doc, String::from("Sky"), ReqField::Catacombs, 30);
    let view = render_view(&doc, &Vec::new()).expect("view renders");
    assert_eq!(
        view,
        "Verified Role: <@&9>\nGuild Roles:\nReqs:\n  \u{2022} Sky: slayer = 0, skills = 0, cata = 30, weight = 0"
    );
}
