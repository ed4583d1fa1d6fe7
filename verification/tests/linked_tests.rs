//! The linked-accounts store model.

use bot::linked::{LinkedAccount, LinkedStore};
use bot::resolve::DiscordInfo;

fn row(uuid: &str, username: &str, discord: &str, at: i64) -> LinkedAccount {
    LinkedAccount {
        uuid: String::from(uuid),
        username: String::from(username),
        discord: String::from(discord),
        last_updated: at,
    }
}

#[test]
fn upsert_replaces_every_conflicting_row() {
    let mut store = LinkedStore::new();
    store.upsert(row("u1", "Alpha", "1", 10));
    store.upsert(row("u2", "Beta", "2", 20));
    store.upsert(row("u3", "Gamma", "3", 30));
    // shares the username of one row and the discord id of another
    store.upsert(row("u9", "Alpha", "3", 40));
    assert_eq!(store.rows.len(), 2);
    assert_eq!(store.rows[0].uuid, "u2");
    assert_eq!(store.rows[1].uuid, "u9");
    assert_eq!(store.rows[1].last_updated, 40);
}

#[test]
fn upsert_by_uuid_updates_the_name() {
    let mut store = LinkedStore::new();
    store.upsert(row("u1", "OldName", "1", 10));
    store.upsert(row("u1", "NewName", "1", 20));
    assert_eq!(store.rows.len(), 1);
    assert_eq!(store.rows[0].username, "NewName");
}

#[test]
fn lookup_by_discord_id() {
    let mut store = LinkedStore::new();
    store.upsert(row("u1", "Alpha", "1", 10));
    assert_eq!(
        store.find_by_discord(&String::from("1")),
        Some((String::from("Alpha"), String::from("u1")))
    );
    assert_eq!(store.find_by_discord(&String::from("2")), None);
}

#[test]
fn a_failed_resolution_carries_only_the_error() {
    let info = DiscordInfo::from_err(String::from("oops"));
    assert_eq!(info.error.as_deref(), Some("oops"));
    assert!(info.username.is_none() && info.uuid.is_none() && info.discord.is_none());
}
