//! The `verify` transition, identity resolution, and user lookup.

use bot::engine::{roles_to_grant, user_lookup_reply, verify_transition, GuildName};
use bot::engine::settings_guild_role;
use bot::linked::{LinkedAccount, LinkedStore};
use bot::resolve::{get_discord_info, user_tag, DiscordInfo, ResolveEvent};
use bot::settings::ServerConfig;

fn resolved(username: &str, uuid: &str, tag: &str) -> DiscordInfo {
    get_discord_info(ResolveEvent::Fetched {
        username: String::from(username),
        uuid: String::from(uuid),
        discord: Some(String::from(tag)),
    })
}

#[test]
fn user_tags_are_zero_padded() {
    assert_eq!(user_tag("Bar", 2), "Bar#0002");
    assert_eq!(user_tag("Foo", 1234), "Foo#1234");
}

#[test]
fn resolution_failures_carry_the_upstream_message() {
    let info = get_discord_info(ResolveEvent::Failed { message: String::from("boom") });
    assert_eq!(info.error.as_deref(), Some("boom"));
    assert!(info.username.is_none());
}

#[test]
fn players_without_a_published_tag_are_reported() {
    let info = get_discord_info(ResolveEvent::Fetched {
        username: String::from("Notch"),
        uuid: String::from("u1"),
        discord: None,
    });
    assert_eq!(info.error.as_deref(), Some("Notch is not linked on Hypixel"));
}

#[test]
fn tag_mismatch_never_touches_the_store() {
    // the example scenario: claimed tag Foo#0001, invoker tag Bar#0002
    let mut store = LinkedStore::new();
    let info = resolved("Notch", "u1", "Foo#0001");
    let outcome = verify_transition(
        &mut store,
        info,
        &user_tag("Bar", 2),
        &String::from("9001"),
        1000,
        true,
        &ServerConfig::new(),
        &None,
    );
    assert!(!outcome.linked);
    assert!(outcome.grants.is_empty());
    assert_eq!(
        outcome.message,
        "Your Discord tag (`Bar#0002`) does not match the in-game Discord tag (`Foo#0001`)"
    );
    assert!(store.rows.is_empty());
}

#[test]
fn storage_failure_grants_nothing() {
    let mut store = LinkedStore::new();
    let info = resolved("Notch", "u1", "Bar#0002");
    let outcome = verify_transition(
        &mut store,
        info,
        &user_tag("Bar", 2),
        &String::from("9001"),
        1000,
        false,
        &ServerConfig::new(),
        &None,
    );
    assert!(!outcome.linked);
    assert!(outcome.grants.is_empty());
    assert_eq!(outcome.message, "Error inserting into database");
    assert!(store.rows.is_empty());
}

#[test]
fn a_matching_tag_links_and_grants() {
    let mut store = LinkedStore::new();
    let mut doc = ServerConfig::new();
    doc.verified_role = String::from("555");
    let guild = GuildName { guild_id: String::from("gid"), name: String::from("Sky") };
    settings_guild_role(&mut doc, &guild, 777);
    let info = resolved("Notch", "u1", "Bar#0002");
    let outcome = verify_transition(
        &mut store,
        info,
        &user_tag("Bar", 2),
        &String::from("9001"),
        1000,
        true,
        &doc,
        &Some(String::from("gid")),
    );
    assert!(outcome.linked);
    assert_eq!(outcome.message, "Successfully linked Bar#0002 to Notch");
    assert_eq!(outcome.grants, vec![String::from("555"), String::from("777")]);
    assert_eq!(store.rows.len(), 1);
    assert_eq!(store.rows[0].uuid, "u1");
    assert_eq!(store.rows[0].username, "Notch");
    assert_eq!(store.rows[0].discord, "9001");
    assert_eq!(store.rows[0].last_updated, 1000);
}

#[test]
fn reverifying_leaves_one_row_per_identity() {
    let mut store = LinkedStore::new();
    store.rows.push(LinkedAccount {
        uuid: String::from("u1"),
        username: String::from("OldName"),
        discord: String::from("1"),
        last_updated: 1,
    });
    store.rows.push(LinkedAccount {
        uuid: String::from("u2"),
        username: String::from("Other"),
        discord: String::from("9001"),
        last_updated: 2,
    });
    // the new row shares its uuid with one old row and its discord id with
    // another: both must be superseded
    let info = resolved("Notch", "u1", "Bar#0002");
    let outcome = verify_transition(
        &mut store,
        info,
        &user_tag("Bar", 2),
        &String::from("9001"),
        3,
        true,
        &ServerConfig::new(),
        &None,
    );
    assert!(outcome.linked);
    assert_eq!(store.rows.len(), 1);
    assert_eq!(store.rows[0].uuid, "u1");
    assert_eq!(store.rows[0].username, "Notch");
    assert_eq!(store.rows[0].discord, "9001");
}

#[test]
fn grants_skip_unmapped_guilds() {
    let mut doc = ServerConfig::new();
    doc.verified_role = String::from("5");
    assert_eq!(roles_to_grant(&doc, &None), vec![String::from("5")]);
    assert_eq!(roles_to_grant(&doc, &Some(String::from("nope"))), vec![String::from("5")]);
}

#[test]
fn user_lookup_reports_the_linked_account() {
    let mut store = LinkedStore::new();
    store.rows.push(LinkedAccount {
        uuid: String::from("u1"),
        username: String::from("Notch"),
        discord: String::from("9001"),
        last_updated: 1,
    });
    let ok = user_lookup_reply(&store, &String::from("9001")).expect("the row is found");
    assert_eq!(ok, "<@9001> is linked to [Notch](https://mine.ly/u1)");
    let err = user_lookup_reply(&store, &String::from("404")).expect_err("no row");
    assert_eq!(err, "User is not linked");
}
