//! The storage encoding: exact output, round trips, and rejected input.

use bot::codec::{encode_server_config, parse_server_config};
use bot::reqs::GuildReqs;
use bot::settings::{ReqEntry, RoleEntry, ServerConfig};

fn sample_config() -> ServerConfig {
    ServerConfig {
        verified_role: String::from("123"),
        guild_roles: vec![
            RoleEntry { guild_id: String::from("g1"), role: String::from("41") },
            RoleEntry { guild_id: String::from("g2"), role: String::from("42") },
        ],
        guild_reqs: vec![ReqEntry {
            guild_name: String::from("Sky"),
            reqs: GuildReqs { slayer: 1, skills: 2, catacombs: 3, weight: 4 },
        }],
    }
}

#[test]
fn encode_empty_document() {
    let doc = ServerConfig::new();
    let text = encode_server_config(&doc);
    assert_eq!(text, "{\"verified_role\":\"\",\"guild_roles\":{},\"guild_reqs\":{}}");
}

#[test]
fn encode_sample_document() {
    let text = encode_server_config(&sample_config());
    assert_eq!(
        text,
        "{\"verified_role\":\"123\",\"guild_roles\":{\"g1\":\"41\",\"g2\":\"42\"},\
         \"guild_reqs\":{\"Sky\":{\"slayer\":1,\"skills\":2,\"catacombs\":3,\"weight\":4}}}"
    );
}

#[test]
fn parse_bare_empty_object() {
    let doc = parse_server_config("{}").expect("the boot document must parse");
    assert_eq!(doc.verified_role, "");
    assert!(doc.guild_roles.is_empty());
    assert!(doc.guild_reqs.is_empty());
}

#[test]
fn round_trip_sample_document() {
    let doc = sample_config();
    let text = encode_server_config(&doc);
    let back = parse_server_config(&text).expect("an encoded document must parse");
    assert_eq!(back.verified_role, doc.verified_role);
    assert_eq!(back.guild_roles.len(), 2);
    assert_eq!(back.guild_roles[0].guild_id, "g1");
    assert_eq!(back.guild_roles[0].role, "41");
    assert_eq!(back.guild_roles[1].guild_id, "g2");
    assert_eq!(back.guild_roles[1].role, "42");
    assert_eq!(back.guild_reqs.len(), 1);
    assert_eq!(back.guild_reqs[0].guild_name, "Sky");
    assert_eq!(back.guild_reqs[0].reqs, GuildReqs { slayer: 1, skills: 2, catacombs: 3, weight: 4 });
}

#[test]
fn round_trip_escaped_names() {
    let doc = ServerConfig {
        verified_role: String::from(""),
        guild_roles: Vec::new(),
        guild_reqs: vec![ReqEntry {
            guild_name: String::from("a\"b\\c"),
            reqs: GuildReqs { slayer: 0, skills: 0, catacombs: 0, weight: 0 },
        }],
    };
    let text = encode_server_config(&doc);
    assert!(text.contains("a\\\"b\\\\c"));
    let back = parse_server_config(&text).expect("escapes must round-trip");
    assert_eq!(back.guild_reqs[0].guild_name, "a\"b\\c");
}

#[test]
fn parse_rejects_malformed_input() {
    assert!(parse_server_config("").is_none());
    assert!(parse_server_config("{").is_none());
    assert!(parse_server_config("{\"verified_role\":\"x\"}").is_none());
    assert!(parse_server_config("not json at all").is_none());
    // trailing bytes after a complete document
    let text = encode_server_config(&sample_config());
    let mut with_trailing = text.clone();
    with_trailing.push(' ');
    assert!(parse_server_config(&with_trailing).is_none());
    // an unterminated string
    assert!(parse_server_config("{\"verified_role\":\"abc").is_none());
}

#[test]
fn parse_rejects_duplicate_guild_keys() {
    let text = "{\"verified_role\":\"\",\"guild_roles\":{\"g\":\"1\",\"g\":\"2\"},\"guild_reqs\":{}}";
    assert!(parse_server_config(text).is_none());
}
