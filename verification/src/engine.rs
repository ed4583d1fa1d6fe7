//! The command engine: the state transition each slash command performs,
//! with the exact response text it produces.

use vstd::prelude::*;
use vstd::string::StringExecFns;
use crate::linked::{
    count_key, find_discord, purge, IdKey, LinkedAccount, LinkedAccountV, LinkedStore,
};
use crate::reqs::{spec_set_field, GuildReqs, GuildReqsV, ReqField};
use crate::resolve::DiscordInfo;
use crate::settings::{
    assoc_find, assoc_remove, assoc_update, lemma_assoc_absent_find, lemma_assoc_find_absent,
    lemma_assoc_find_first, lemma_assoc_find_some_index, lemma_assoc_find_update,
    lemma_assoc_map_remove, lemma_assoc_map_update, lemma_assoc_remove_unique,
    lemma_assoc_update_unique, ServerConfig, ServerConfigV,
};
use crate::text::{chars_to_string, spec_dec, u64_to_dec, u64_to_string};

verus! {

/// An in-game guild as the engine needs it: its stable id and its display
/// name.
pub struct GuildName {
    pub guild_id: String,
    pub name: String,
}

impl View for GuildName {
    type V = (Seq<char>, Seq<char>);

    open spec fn view(&self) -> (Seq<char>, Seq<char>) {
        (self.guild_id@, self.name@)
    }
}

/// What a `settings` subcommand answered, and whether the document must be
/// written back.
pub struct SettingsReply {
    pub message: String,
    pub persist: bool,
}

/// Does the invoking guild's role list hold this role id?
pub fn role_in_list(ids: &Vec<u64>, role: u64) -> (b: bool)
    ensures
        b == ids@.contains(role),
{
    let mut i: usize = 0;
    while i < ids.len()
        invariant
            0 <= i <= ids@.len(),
            forall|j: int| 0 <= j < i ==> ids@[j] != role,
        decreases ids@.len() - i,
    {
        if ids[i] == role {
            return true;
        }
        i = i + 1;
    }
    proof {
        assert(forall|j: int| 0 <= j < ids@.len() ==> ids@[j] != role);
    }
    false
}

// ---------------------------------------------------------------------------
// settings verified_role
// ---------------------------------------------------------------------------

pub open spec fn spec_set_verified_msg(role: u64) -> Seq<char> {
    "Set verified role to <@&"@ + spec_dec(role as nat) + ">"@
}

pub open spec fn spec_invalid_role_msg(role: u64) -> Seq<char> {
    "Invalid role: <@&"@ + spec_dec(role as nat) + ">"@
}

/// The document after `settings verified_role` is accepted.
pub open spec fn spec_with_verified_role(c: ServerConfigV, role: u64) -> ServerConfigV {
    ServerConfigV { verified_role: spec_dec(role as nat), ..c }
}

/// `settings verified_role <@&role>`: persist the role as the new verified
/// role exactly when its id occurs in the invoking guild's role list;
/// otherwise leave the document untouched and report the role as invalid.
pub fn settings_verified_role(doc: &mut ServerConfig, role: u64, guild_role_ids: &Vec<u64>) -> (r:
    SettingsReply)
    requires
        old(doc).wf(),
    ensures
        final(doc).wf(),
        guild_role_ids@.contains(role) ==> {
            &&& final(doc)@ == spec_with_verified_role(old(doc)@, role)
            &&& r.persist
            &&& r.message@ == spec_set_verified_msg(role)
        },
        !guild_role_ids@.contains(role) ==> {
            &&& final(doc)@ == old(doc)@
            &&& !r.persist
            &&& r.message@ == spec_invalid_role_msg(role)
        },
{
    let digits = u64_to_dec(role);
    let role_text = chars_to_string(&digits);
    if role_in_list(guild_role_ids, role) {
        doc.put_verified_role(role_text.clone());
        let mut message = String::from_str("Set verified role to <@&");
        message.append(role_text.as_str());
        message.append(">");
        proof {
            assert(message@ =~= spec_set_verified_msg(role));
            assert(final(doc)@ =~= spec_with_verified_role(old(doc)@, role));
        }
        SettingsReply { message, persist: true }
    } else {
        let mut message = String::from_str("Invalid role: <@&");
        message.append(role_text.as_str());
        message.append(">");
        proof {
            assert(message@ =~= spec_invalid_role_msg(role));
            assert(final(doc)@ =~= old(doc)@);
        }
        SettingsReply { message, persist: false }
    }
}

// ---------------------------------------------------------------------------
// settings guild_role
// ---------------------------------------------------------------------------

pub open spec fn spec_set_guild_role_msg(guild_display: Seq<char>, role: u64) -> Seq<char> {
    "Set guild role for "@ + guild_display + " to <@&"@ + spec_dec(role as nat) + ">"@
}

/// The document after `settings guild_role` is accepted for a resolved
/// guild.
pub open spec fn spec_with_guild_role(c: ServerConfigV, guild_id: Seq<char>, role: u64)
    -> ServerConfigV {
    ServerConfigV {
        guild_roles: assoc_update(c.guild_roles, guild_id, spec_dec(role as nat)),
        ..c
    }
}

/// `settings guild_role <guild> <@&role>` once the role id was validated
/// and the guild resolved: map the guild's id to the role and persist.
pub fn settings_guild_role(doc: &mut ServerConfig, guild: &GuildName, role: u64) -> (r:
    SettingsReply)
    requires
        old(doc).wf(),
    ensures
        final(doc).wf(),
        final(doc)@ == spec_with_guild_role(old(doc)@, guild.guild_id@, role),
        final(doc)@.roles_map() == old(doc)@.roles_map().insert(
            guild.guild_id@,
            spec_dec(role as nat),
        ),
        r.persist,
        r.message@ == spec_set_guild_role_msg(guild.name@, role),
{
    let digits = u64_to_dec(role);
    let role_text = chars_to_string(&digits);
    doc.put_guild_role(guild.guild_id.clone(), role_text.clone());
    let mut message = String::from_str("Set guild role for ");
    message.append(guild.name.as_str());
    message.append(" to <@&");
    message.append(role_text.as_str());
    message.append(">");
    proof {
        lemma_assoc_update_unique(old(doc)@.guild_roles, guild.guild_id@, spec_dec(role as nat));
        lemma_assoc_map_update(old(doc)@.guild_roles, guild.guild_id@, spec_dec(role as nat));
        assert(message@ =~= spec_set_guild_role_msg(guild.name@, role));
        assert(final(doc)@ =~= spec_with_guild_role(old(doc)@, guild.guild_id@, role));
    }
    SettingsReply { message, persist: true }
}

/// The response when the guild name resolves to nothing.
pub fn invalid_guild_reply() -> (r: String)
    ensures
        r@ == "Invalid guild"@,
{
    String::from_str("Invalid guild")
}

// ---------------------------------------------------------------------------
// settings reqs clear
// ---------------------------------------------------------------------------

pub open spec fn spec_cleared_msg(guild_name: Seq<char>) -> Seq<char> {
    "Cleared reqs for "@ + guild_name
}

/// The document after `settings reqs clear`.
pub open spec fn spec_with_reqs_cleared(c: ServerConfigV, guild_name: Seq<char>)
    -> ServerConfigV {
    ServerConfigV { guild_reqs: assoc_remove(c.guild_reqs, guild_name), ..c }
}

/// `settings reqs clear <guild>`: drop the guild's requirement record.
/// Clearing a guild that has no record succeeds and changes nothing.
pub fn settings_reqs_clear(doc: &mut ServerConfig, guild_name: &String) -> (r: SettingsReply)
    requires
        old(doc).wf(),
    ensures
        final(doc).wf(),
        final(doc)@ == spec_with_reqs_cleared(old(doc)@, guild_name@),
        final(doc)@.reqs_map() == old(doc)@.reqs_map().remove(guild_name@),
        !old(doc)@.reqs_map().contains_key(guild_name@) ==> final(doc)@ == old(doc)@,
        r.persist,
        r.message@ == spec_cleared_msg(guild_name@),
{
    doc.remove_reqs(guild_name);
    let mut message = String::from_str("Cleared reqs for ");
    message.append(guild_name.as_str());
    proof {
        let orig = old(doc)@.guild_reqs;
        lemma_assoc_remove_unique(orig, guild_name@);
        lemma_assoc_map_remove(orig, guild_name@);
        assert(forall|i: int|
            0 <= i < final(doc)@.guild_reqs.len() ==> (#[trigger] final(doc)@.guild_reqs[i]).1.wf())
            by {
            lemma_assoc_remove_unique(orig, guild_name@);
        }
        if !old(doc)@.reqs_map().contains_key(guild_name@) {
            lemma_assoc_absent_find(orig, guild_name@);
            crate::settings::lemma_assoc_remove_absent(orig, guild_name@);
        }
        assert(message@ =~= spec_cleared_msg(guild_name@));
        assert(final(doc)@ =~= spec_with_reqs_cleared(old(doc)@, guild_name@));
    }
    SettingsReply { message, persist: true }
}

// ---------------------------------------------------------------------------
// settings reqs set
// ---------------------------------------------------------------------------

/// The record stored for a guild, or the all-zero record when none is.
pub open spec fn reqs_or_zero(c: ServerConfigV, guild_name: Seq<char>) -> GuildReqsV {
    match assoc_find(c.guild_reqs, guild_name) {
        Some(r) => r,
        None => GuildReqsV::zero(),
    }
}

/// The document after `settings reqs set`: read the guild's record (or the
/// all-zero default), change the one named field, store it back.
pub open spec fn spec_with_req_set(
    c: ServerConfigV,
    guild_name: Seq<char>,
    field: ReqField,
    amount: int,
) -> ServerConfigV {
    ServerConfigV {
        guild_reqs: assoc_update(
            c.guild_reqs,
            guild_name,
            spec_set_field(reqs_or_zero(c, guild_name), field, amount),
        ),
        ..c
    }
}

pub open spec fn spec_set_req_msg(field: ReqField, amount: int, guild_name: Seq<char>) -> Seq<
    char,
> {
    "Set "@ + crate::reqs::spec_field_name(field) + " req to "@ + spec_dec(amount as nat)
        + " for "@ + guild_name
}

/// `settings reqs set <guild> <field> <amount>`: a read-modify-write of the
/// one named field; the guild's other three thresholds keep their values.
pub fn settings_reqs_set(
    doc: &mut ServerConfig,
    guild_name: String,
    field: ReqField,
    amount: i64,
) -> (r: SettingsReply)
    requires
        old(doc).wf(),
        0 <= amount,
    ensures
        final(doc).wf(),
        final(doc)@ == spec_with_req_set(old(doc)@, guild_name@, field, amount as int),
        final(doc)@.reqs_map() == old(doc)@.reqs_map().insert(
            guild_name@,
            spec_set_field(reqs_or_zero(old(doc)@, guild_name@), field, amount as int),
        ),
        r.persist,
        r.message@ == spec_set_req_msg(field, amount as int, guild_name@),
{
    let current = doc.get_reqs_or_default(&guild_name);
    let updated = crate::reqs::set_field(current, field, amount);
    let ghost new_req = spec_set_field(reqs_or_zero(old(doc)@, guild_name@), field, amount as int);
    doc.put_reqs(guild_name.clone(), updated);
    let mut message = String::from_str("Set ");
    message.append(crate::reqs::field_name(field));
    message.append(" req to ");
    let amount_text = u64_to_string(amount as u64);
    message.append(amount_text.as_str());
    message.append(" for ");
    message.append(guild_name.as_str());
    proof {
        let orig = old(doc)@.guild_reqs;
        assert(updated@ == new_req);
        lemma_assoc_update_unique(orig, guild_name@, new_req);
        lemma_assoc_map_update(orig, guild_name@, new_req);
        assert(new_req.wf()) by {
            if assoc_find(orig, guild_name@) is Some {
                lemma_assoc_find_some_index(orig, guild_name@);
            }
        }
        assert(forall|i: int|
            0 <= i < final(doc)@.guild_reqs.len() ==> (#[trigger] final(doc)@.guild_reqs[i]).1.wf())
            by {
            let upd = assoc_update(orig, guild_name@, new_req);
            lemma_assoc_update_entries(orig, guild_name@, new_req);
        }
        assert(message@ =~= spec_set_req_msg(field, amount as int, guild_name@));
        assert(final(doc)@ =~= spec_with_req_set(old(doc)@, guild_name@, field, amount as int));
    }
    SettingsReply { message, persist: true }
}

/// Every entry of an updated list is the new entry or one of the original's.
proof fn lemma_assoc_update_entries<V>(s: Seq<(Seq<char>, V)>, k: Seq<char>, v: V)
    ensures
        forall|i: int|
            0 <= i < assoc_update(s, k, v).len() ==> (#[trigger] assoc_update(s, k, v)[i] == (k, v)
                || exists|j: int| 0 <= j < s.len() && #[trigger] s[j] == assoc_update(s, k, v)[i]),
    decreases s.len(),
{
    let u = assoc_update(s, k, v);
    if s.len() == 0 {
    } else if s[0].0 == k {
        assert forall|i: int| 0 <= i < u.len() implies (#[trigger] u[i] == (k, v) || exists|j: int|
            0 <= j < s.len() && #[trigger] s[j] == u[i]) by {
            if i > 0 {
                assert(u[i] == s[i]);
            }
        }
    } else {
        lemma_assoc_update_entries(s.drop_first(), k, v);
        let u2 = assoc_update(s.drop_first(), k, v);
        assert(u =~= seq![s[0]] + u2);
        assert forall|i: int| 0 <= i < u.len() implies (#[trigger] u[i] == (k, v) || exists|j: int|
            0 <= j < s.len() && #[trigger] s[j] == u[i]) by {
            if i == 0 {
                assert(s[0] == u[0]);
            } else {
                assert(u[i] == u2[i - 1]);
                if u2[i - 1] != (k, v) {
                    let j = choose|j: int|
                        0 <= j < s.drop_first().len() && #[trigger] s.drop_first()[j] == u2[i - 1];
                    assert(s[j + 1] == u2[i - 1]);
                }
            }
        }
    }
}

/// The named threshold of a record.
pub open spec fn field_of(r: GuildReqsV, f: ReqField) -> int {
    match f {
        ReqField::Slayer => r.slayer,
        ReqField::Skills => r.skills,
        ReqField::Catacombs => r.catacombs,
        ReqField::Weight => r.weight,
    }
}

/// Setting one requirement field and then another for the same guild keeps
/// both values: a partial field update never clobbers sibling fields.
pub proof fn lemma_set_req_twice(
    c0: ServerConfigV,
    guild_name: Seq<char>,
    f1: ReqField,
    a1: int,
    f2: ReqField,
    a2: int,
)
    requires
        f1 != f2,
    ensures
        ({
            let c1 = spec_with_req_set(c0, guild_name, f1, a1);
            let c2 = spec_with_req_set(c1, guild_name, f2, a2);
            &&& assoc_find(c2.guild_reqs, guild_name) is Some
            &&& field_of(reqs_or_zero(c2, guild_name), f1) == a1
            &&& field_of(reqs_or_zero(c2, guild_name), f2) == a2
        }),
{
    let r1 = spec_set_field(reqs_or_zero(c0, guild_name), f1, a1);
    let c1 = spec_with_req_set(c0, guild_name, f1, a1);
    lemma_assoc_find_update(c0.guild_reqs, guild_name, r1, guild_name);
    assert(reqs_or_zero(c1, guild_name) == r1);
    let r2 = spec_set_field(r1, f2, a2);
    let c2 = spec_with_req_set(c1, guild_name, f2, a2);
    lemma_assoc_find_update(c1.guild_reqs, guild_name, r2, guild_name);
    assert(reqs_or_zero(c2, guild_name) == r2);
    assert(field_of(r2, f1) == a1);
    assert(field_of(r2, f2) == a2);
}

// ---------------------------------------------------------------------------
// Role synchronization
// ---------------------------------------------------------------------------

pub open spec fn opt_view(o: Option<String>) -> Option<Seq<char>> {
    match o {
        Some(s) => Some(s@),
        None => None,
    }
}

/// The ordered role grants a freshly verified player receives: always the
/// verified role first, then the role mapped to the player's in-game guild
/// when the player has one and it is mapped.
pub open spec fn spec_grants(c: ServerConfigV, player_guild: Option<Seq<char>>) -> Seq<Seq<char>> {
    match player_guild {
        Some(g) => match assoc_find(c.guild_roles, g) {
            Some(role) => seq![c.verified_role, role],
            None => seq![c.verified_role],
        },
        None => seq![c.verified_role],
    }
}

/// Compute the grants for a player whose in-game guild lookup answered
/// `player_guild` (`None`: no guild, or the best-effort lookup failed).
pub fn roles_to_grant(doc: &ServerConfig, player_guild: &Option<String>) -> (r: Vec<String>)
    ensures
        r@.map_values(|s: String| s@) == spec_grants(doc@, opt_view(*player_guild)),
        r@.len() >= 1,
        r@[0]@ == doc@.verified_role,
{
    let mut r: Vec<String> = Vec::new();
    r.push(doc.verified_role.clone());
    match player_guild {
        Some(g) => {
            match doc.get_guild_role(g) {
                Some(role) => {
                    r.push(role.clone());
                    proof {
                        assert(r@.map_values(|s: String| s@) =~= spec_grants(
                            doc@,
                            opt_view(*player_guild),
                        ));
                    }
                },
                None => {
                    proof {
                        assert(r@.map_values(|s: String| s@) =~= spec_grants(
                            doc@,
                            opt_view(*player_guild),
                        ));
                    }
                },
            }
        },
        None => {
            proof {
                assert(r@.map_values(|s: String| s@) =~= spec_grants(
                    doc@,
                    opt_view(*player_guild),
                ));
            }
        },
    }
    r
}

// ---------------------------------------------------------------------------
// verify
// ---------------------------------------------------------------------------

/// A resolution is accepted when it succeeded and the tag published
/// in-game equals the invoking user's own tag.
pub open spec fn resolution_accepted(info: DiscordInfo, invoker_tag: Seq<char>) -> bool {
    info.error is None && (info.discord matches Some(t) && t@ == invoker_tag)
}

pub open spec fn spec_mismatch_msg(invoker_tag: Seq<char>, api_tag: Seq<char>) -> Seq<char> {
    "Your Discord tag (`"@ + invoker_tag + "`) does not match the in-game Discord tag (`"@
        + api_tag + "`)"@
}

pub open spec fn spec_linked_msg(invoker_tag: Seq<char>, username: Seq<char>) -> Seq<char> {
    "Successfully linked "@ + invoker_tag + " to "@ + username
}

/// The anti-spoofing gate of `verify`.
pub enum VerifyCheck {
    /// Identity resolution already failed; its message is the response.
    ResolveFailed { message: String },
    /// The tag published in-game is not the invoker's tag.
    TagMismatch { message: String },
    /// The invoker may claim this identity.
    Accept { username: String, uuid: String },
}

/// Decide whether the invoker may claim the resolved identity: only a
/// successful resolution whose published tag equals the invoker's own tag
/// is accepted.
pub fn check_verify(info: DiscordInfo, invoker_tag: &String) -> (r: VerifyCheck)
    requires
        info.wf(),
    ensures
        (info.error matches Some(e) ==> (r matches VerifyCheck::ResolveFailed { message }
            && message@ == e@)),
        (info.discord matches Some(t) ==> (info.error is None && t@ != invoker_tag@
            ==> (r matches VerifyCheck::TagMismatch { message } && message@ == spec_mismatch_msg(
            invoker_tag@,
            t@,
        )))),
        (resolution_accepted(info, invoker_tag@) ==> (r matches VerifyCheck::Accept {
            username,
            uuid,
        } && (info.username matches Some(u) && username@ == u@) && (info.uuid matches Some(x)
            && uuid@ == x@))),
{
    match info.error {
        Some(message) => VerifyCheck::ResolveFailed { message },
        None => {
            let api_tag = match info.discord {
                Some(t) => t,
                None => String::new(),
            };
            if !api_tag.eq(invoker_tag) {
                let mut message = String::from_str("Your Discord tag (`");
                message.append(invoker_tag.as_str());
                message.append("`) does not match the in-game Discord tag (`");
                message.append(api_tag.as_str());
                message.append("`)");
                proof {
                    assert(message@ =~= spec_mismatch_msg(invoker_tag@, api_tag@));
                }
                VerifyCheck::TagMismatch { message }
            } else {
                let username = match info.username {
                    Some(u) => u,
                    None => String::new(),
                };
                let uuid = match info.uuid {
                    Some(x) => x,
                    None => String::new(),
                };
                VerifyCheck::Accept { username, uuid }
            }
        },
    }
}

/// What one `verify` command did: the response text, the ordered role
/// grants to perform, and whether a row was linked.
pub struct VerifyOutcome {
    pub message: String,
    pub grants: Vec<String>,
    pub linked: bool,
}

/// The whole `verify` transition over the linked-accounts model.
///
/// `info` is the resolved identity, `storage_ok` reports whether the
/// store's delete-then-insert succeeded, and `player_guild` is the id of
/// the player's in-game guild when the best-effort lookup found one.
/// Nothing is granted and nothing changes in the store unless the check
/// passes and storage succeeded.
pub fn verify_transition(
    store: &mut LinkedStore,
    info: DiscordInfo,
    invoker_tag: &String,
    invoker_id: &String,
    now: i64,
    storage_ok: bool,
    doc: &ServerConfig,
    player_guild: &Option<String>,
) -> (r: VerifyOutcome)
    requires
        old(store).wf(),
        info.wf(),
        now >= 0,
    ensures
        final(store).wf(),
        // A rejected resolution or tag mismatch never touches the store.
        !resolution_accepted(info, invoker_tag@) ==> final(store)@ == old(store)@,
        // No role is ever granted unless the check passed and storage
        // succeeded, and a row is linked exactly then.
        r.linked == (resolution_accepted(info, invoker_tag@) && storage_ok),
        !r.linked ==> r.grants@.len() == 0 && final(store)@ == old(store)@,
        // The response in each of the four outcomes.
        (info.error matches Some(e) ==> r.message@ == e@),
        (info.discord matches Some(t) ==> (info.error is None && t@ != invoker_tag@
            ==> r.message@ == spec_mismatch_msg(invoker_tag@, t@))),
        (resolution_accepted(info, invoker_tag@) && !storage_ok ==> r.message@
            == "Error inserting into database"@),
        (info.username matches Some(u) ==> (info.uuid matches Some(x) ==> (
        resolution_accepted(info, invoker_tag@) && storage_ok ==> ({
            let row = LinkedAccountV {
                uuid: x@,
                username: u@,
                discord: invoker_id@,
                last_updated: now as int,
            };
            &&& final(store)@ == purge(old(store)@, row).push(row)
            &&& count_key(final(store)@, IdKey::Uuid, x@) == 1
            &&& count_key(final(store)@, IdKey::Username, u@) == 1
            &&& count_key(final(store)@, IdKey::Discord, invoker_id@) == 1
            &&& r.grants@.map_values(|s: String| s@) == spec_grants(doc@, opt_view(*player_guild))
            &&& r.message@ == spec_linked_msg(invoker_tag@, u@)
        })))),
{
    let check = check_verify(info, invoker_tag);
    match check {
        VerifyCheck::ResolveFailed { message } => VerifyOutcome {
            message,
            grants: Vec::new(),
            linked: false,
        },
        VerifyCheck::TagMismatch { message } => VerifyOutcome {
            message,
            grants: Vec::new(),
            linked: false,
        },
        VerifyCheck::Accept { username, uuid } => {
            if storage_ok {
                let row = LinkedAccount {
                    uuid,
                    username: username.clone(),
                    discord: invoker_id.clone(),
                    last_updated: now,
                };
                store.upsert(row);
                let grants = roles_to_grant(doc, player_guild);
                let mut message = String::from_str("Successfully linked ");
                message.append(invoker_tag.as_str());
                message.append(" to ");
                message.append(username.as_str());
                proof {
                    assert(message@ =~= spec_linked_msg(invoker_tag@, username@));
                }
                VerifyOutcome { message, grants, linked: true }
            } else {
                VerifyOutcome {
                    message: String::from_str("Error inserting into database"),
                    grants: Vec::new(),
                    linked: false,
                }
            }
        },
    }
}

// ---------------------------------------------------------------------------
// user
// ---------------------------------------------------------------------------

pub open spec fn spec_user_linked_msg(
    discord_id: Seq<char>,
    username: Seq<char>,
    uuid: Seq<char>,
) -> Seq<char> {
    "<@"@ + discord_id + "> is linked to ["@ + username + "](https://mine.ly/"@ + uuid + ")"@
}

/// `user <@user>`: report which account the user is linked to, or that no
/// row holds their id.
pub fn user_lookup_reply(store: &LinkedStore, discord_id: &String) -> (r: Result<String, String>)
    ensures
        (find_discord(store@, discord_id@) matches Some(row) ==> (r matches Ok(m) && m@
            == spec_user_linked_msg(discord_id@, row.username, row.uuid))),
        (find_discord(store@, discord_id@) is None ==> (r matches Err(e) && e@
            == "User is not linked"@)),
{
    match store.find_by_discord(discord_id) {
        Some(found) => {
            let (username, uuid) = found;
            let mut m = String::from_str("<@");
            m.append(discord_id.as_str());
            m.append("> is linked to [");
            m.append(username.as_str());
            m.append("](https://mine.ly/");
            m.append(uuid.as_str());
            m.append(")");
            proof {
                let row = find_discord(store@, discord_id@)->Some_0;
                assert(m@ =~= spec_user_linked_msg(discord_id@, row.username, row.uuid));
            }
            Ok(m)
        },
        None => Err(String::from_str("User is not linked")),
    }
}

// ---------------------------------------------------------------------------
// reqs: profile selection and the requirement listing
// ---------------------------------------------------------------------------

/// What the engine reads of one game profile: its display name, if it has
/// one, and whether the game marks it as the profile last played.
pub struct ProfileEntry {
    pub cute_name: Option<String>,
    pub selected: bool,
}

/// Ghost image of a profile entry.
pub struct ProfileEntryV {
    pub cute_name: Option<Seq<char>>,
    pub selected: bool,
}

impl View for ProfileEntry {
    type V = ProfileEntryV;

    open spec fn view(&self) -> ProfileEntryV {
        ProfileEntryV { cute_name: opt_view(self.cute_name), selected: self.selected }
    }
}

pub open spec fn profiles_view(ps: Seq<ProfileEntry>) -> Seq<ProfileEntryV> {
    ps.map_values(|p: ProfileEntry| p@)
}

/// Index of the first profile the game marks as selected.
pub open spec fn first_selected(ps: Seq<ProfileEntryV>) -> Option<int>
    decreases ps.len(),
{
    if ps.len() == 0 {
        None
    } else if ps[0].selected {
        Some(0)
    } else {
        match first_selected(ps.drop_first()) {
            Some(i) => Some(i + 1),
            None => None,
        }
    }
}

/// Index of the first profile carrying the requested name.
pub open spec fn first_named(ps: Seq<ProfileEntryV>, name: Seq<char>) -> Option<int>
    decreases ps.len(),
{
    if ps.len() == 0 {
        None
    } else if ps[0].cute_name matches Some(n) && n == name {
        Some(0)
    } else {
        match first_named(ps.drop_first(), name) {
            Some(i) => Some(i + 1),
            None => None,
        }
    }
}

/// Which profile a `reqs` command works on: the named one when a name was
/// given, else the one last played.
pub open spec fn spec_select_profile(ps: Seq<ProfileEntryV>, requested: Seq<char>) -> Option<
    int,
> {
    if requested.len() == 0 {
        first_selected(ps)
    } else {
        first_named(ps, requested)
    }
}

proof fn lemma_first_selected_at(ps: Seq<ProfileEntryV>, i: int)
    requires
        0 <= i < ps.len(),
        ps[i].selected,
        forall|j: int| 0 <= j < i ==> !(#[trigger] ps[j]).selected,
    ensures
        first_selected(ps) == Some(i),
    decreases ps.len(),
{
    if i > 0 {
        assert(forall|j: int|
            0 <= j < ps.drop_first().len() ==> #[trigger] ps.drop_first()[j] == ps[j + 1]);
        lemma_first_selected_at(ps.drop_first(), i - 1);
    }
}

proof fn lemma_first_selected_absent(ps: Seq<ProfileEntryV>)
    requires
        forall|j: int| 0 <= j < ps.len() ==> !(#[trigger] ps[j]).selected,
    ensures
        first_selected(ps) is None,
    decreases ps.len(),
{
    if ps.len() > 0 {
        assert(forall|j: int|
            0 <= j < ps.drop_first().len() ==> #[trigger] ps.drop_first()[j] == ps[j + 1]);
        lemma_first_selected_absent(ps.drop_first());
    }
}

proof fn lemma_first_named_at(ps: Seq<ProfileEntryV>, name: Seq<char>, i: int)
    requires
        0 <= i < ps.len(),
        ps[i].cute_name matches Some(n) && n == name,
        forall|j: int| 0 <= j < i ==> !((#[trigger] ps[j]).cute_name matches Some(n) && n == name),
    ensures
        first_named(ps, name) == Some(i),
    decreases ps.len(),
{
    if i > 0 {
        assert(forall|j: int|
            0 <= j < ps.drop_first().len() ==> #[trigger] ps.drop_first()[j] == ps[j + 1]);
        lemma_first_named_at(ps.drop_first(), name, i - 1);
    }
}

proof fn lemma_first_named_absent(ps: Seq<ProfileEntryV>, name: Seq<char>)
    requires
        forall|j: int|
            0 <= j < ps.len() ==> !((#[trigger] ps[j]).cute_name matches Some(n) && n == name),
    ensures
        first_named(ps, name) is None,
    decreases ps.len(),
{
    if ps.len() > 0 {
        assert(forall|j: int|
            0 <= j < ps.drop_first().len() ==> #[trigger] ps.drop_first()[j] == ps[j + 1]);
        lemma_first_named_absent(ps.drop_first(), name);
    }
}

/// Deterministic profile selection: the first profile named `requested`,
/// or, when no name was given, the first profile the game marks as last
/// played.
pub fn select_profile(profiles: &Vec<ProfileEntry>, requested: &String) -> (r: Option<usize>)
    ensures
        match r {
            Some(i) => spec_select_profile(profiles_view(profiles@), requested@) == Some(i as int),
            None => spec_select_profile(profiles_view(profiles@), requested@) is None,
        },
{
    let ghost psv = profiles_view(profiles@);
    let by_name = requested.as_str().unicode_len() > 0;
    let n = profiles.len();
    let mut i: usize = 0;
    while i < n
        invariant
            0 <= i <= n,
            n == profiles.len(),
            psv == profiles_view(profiles@),
            psv.len() == n,
            by_name == (requested@.len() > 0),
            forall|j: int| 0 <= j < i ==> !(#[trigger] psv[j]).selected || by_name,
            forall|j: int|
                0 <= j < i ==> !((#[trigger] psv[j]).cute_name matches Some(nm) && nm
                    == requested@) || !by_name,
        decreases n - i,
    {
        proof {
            assert(psv[i as int] == profiles@[i as int]@);
        }
        let p = &profiles[i];
        if by_name {
            let hit = match &p.cute_name {
                Some(nm) => nm.eq(requested),
                None => false,
            };
            if hit {
                proof {
                    lemma_first_named_at(psv, requested@, i as int);
                }
                return Some(i);
            }
        } else {
            if p.selected {
                proof {
                    lemma_first_selected_at(psv, i as int);
                }
                return Some(i);
            }
        }
        i = i + 1;
    }
    proof {
        if by_name {
            lemma_first_named_absent(psv, requested@);
        } else {
            lemma_first_selected_absent(psv);
        }
    }
    None
}

/// One rendered requirement line.
pub open spec fn spec_req_line(guild_name: Seq<char>, r: GuildReqsV) -> Seq<char> {
    "\n  \u{2022} "@ + guild_name + ": slayer = "@ + spec_dec(r.slayer as nat) + ", skills = "@
        + spec_dec(r.skills as nat) + ", cata = "@ + spec_dec(r.catacombs as nat) + ", weight = "@
        + spec_dec(r.weight as nat)
}

/// Every configured requirement record, one line per guild, in the order
/// the document stores them.
pub open spec fn spec_req_lines(s: Seq<(Seq<char>, GuildReqsV)>) -> Seq<char>
    decreases s.len(),
{
    if s.len() == 0 {
        Seq::<char>::empty()
    } else {
        spec_req_lines(s.drop_last()) + spec_req_line(s.last().0, s.last().1)
    }
}

/// Render the requirement listing of the document.
pub fn render_req_lines(doc: &ServerConfig) -> (r: String)
    requires
        doc.wf(),
    ensures
        r@ == spec_req_lines(doc@.guild_reqs),
{
    let mut out = String::new();
    let n = doc.guild_reqs.len();
    let mut i: usize = 0;
    while i < n
        invariant
            0 <= i <= n,
            n == doc.guild_reqs.len(),
            doc.wf(),
            out@ == spec_req_lines(doc@.guild_reqs.take(i as int)),
        decreases n - i,
    {
        proof {
            assert(doc@.guild_reqs[i as int] == doc.guild_reqs@[i as int]@);
            assert(doc@.guild_reqs[i as int].1.wf());
            assert(doc@.guild_reqs.take(i + 1).drop_last() =~= doc@.guild_reqs.take(i as int));
            assert(doc@.guild_reqs.take(i + 1).last() == doc@.guild_reqs[i as int]);
        }
        let entry = &doc.guild_reqs[i];
        out.append("\n  \u{2022} ");
        out.append(entry.guild_name.as_str());
        out.append(": slayer = ");
        let t1 = u64_to_string(entry.reqs.slayer as u64);
        out.append(t1.as_str());
        out.append(", skills = ");
        let t2 = u64_to_string(entry.reqs.skills as u64);
        out.append(t2.as_str());
        out.append(", cata = ");
        let t3 = u64_to_string(entry.reqs.catacombs as u64);
        out.append(t3.as_str());
        out.append(", weight = ");
        let t4 = u64_to_string(entry.reqs.weight as u64);
        out.append(t4.as_str());
        proof {
            assert(out@ =~= spec_req_lines(doc@.guild_reqs.take(i + 1)));
        }
        i = i + 1;
    }
    proof {
        assert(doc@.guild_reqs.take(n as int) =~= doc@.guild_reqs);
    }
    out
}

/// `reqs <player> [profile]`: select the profile deterministically, then
/// list every configured guild requirement, one line per guild.
pub fn reqs_reply(profiles: &Vec<ProfileEntry>, requested: &String, doc: &ServerConfig) -> (r:
    Result<String, String>)
    requires
        doc.wf(),
    ensures
        (spec_select_profile(profiles_view(profiles@), requested@) is Some ==> (r matches Ok(m)
            && m@ == spec_req_lines(doc@.guild_reqs))),
        (spec_select_profile(profiles_view(profiles@), requested@) is None ==> (r matches Err(e)
            && e@ == "No profile found"@)),
{
    match select_profile(profiles, requested) {
        Some(_) => Ok(render_req_lines(doc)),
        None => Err(String::from_str("No profile found")),
    }
}

// ---------------------------------------------------------------------------
// settings view
// ---------------------------------------------------------------------------

pub open spec fn names_view(ns: Seq<GuildName>) -> Seq<(Seq<char>, Seq<char>)> {
    ns.map_values(|g: GuildName| g@)
}

/// One rendered guild-role line, naming the guild by its display name.
pub open spec fn spec_role_line(display: Seq<char>, role: Seq<char>) -> Seq<char> {
    "\n  \u{2022} "@ + display + ": <@&"@ + role + ">"@
}

/// The guild-role lines, or nothing when some guild id has no display
/// name in the table.
pub open spec fn spec_role_lines(
    entries: Seq<(Seq<char>, Seq<char>)>,
    names: Seq<(Seq<char>, Seq<char>)>,
) -> Option<Seq<char>>
    decreases entries.len(),
{
    if entries.len() == 0 {
        Some(Seq::<char>::empty())
    } else {
        match spec_role_lines(entries.drop_last(), names) {
            Some(pre) => match assoc_find(names, entries.last().0) {
                Some(display) => Some(pre + spec_role_line(display, entries.last().1)),
                None => None,
            },
            None => None,
        }
    }
}

/// The whole `settings view` text, or nothing when a guild display name is
/// missing.
pub open spec fn spec_view_text(c: ServerConfigV, names: Seq<(Seq<char>, Seq<char>)>) -> Option<
    Seq<char>,
> {
    match spec_role_lines(c.guild_roles, names) {
        Some(role_lines) => Some(
            "Verified Role: <@&"@ + c.verified_role + ">\nGuild Roles:"@ + role_lines
                + "\nReqs:"@ + spec_req_lines(c.guild_reqs),
        ),
        None => None,
    }
}

/// Once some prefix of the entries cannot be rendered, the whole listing
/// cannot.
proof fn lemma_role_lines_none(
    entries: Seq<(Seq<char>, Seq<char>)>,
    names: Seq<(Seq<char>, Seq<char>)>,
    j: int,
)
    requires
        0 <= j <= entries.len(),
        spec_role_lines(entries.take(j), names) is None,
    ensures
        spec_role_lines(entries, names) is None,
    decreases entries.len() - j,
{
    if j < entries.len() {
        assert(entries.take(j + 1).drop_last() =~= entries.take(j));
        lemma_role_lines_none(entries, names, j + 1);
    } else {
        assert(entries.take(j) =~= entries);
    }
}

/// The display name stored for a guild id, if any.
fn find_guild_name<'a>(names: &'a Vec<GuildName>, guild_id: &String) -> (r: Option<&'a String>)
    ensures
        match r {
            Some(v) => assoc_find(names_view(names@), guild_id@) == Some(v@),
            None => assoc_find(names_view(names@), guild_id@) is None,
        },
{
    let n = names.len();
    let mut i: usize = 0;
    while i < n
        invariant
            0 <= i <= n,
            n == names.len(),
            forall|j: int| 0 <= j < i ==> (#[trigger] names_view(names@)[j]).0 != guild_id@,
        decreases n - i,
    {
        proof {
            assert(names_view(names@)[i as int] == names@[i as int]@);
        }
        if names[i].guild_id.eq(guild_id) {
            proof {
                lemma_assoc_find_first(names_view(names@), guild_id@, i as int);
            }
            return Some(&names[i].name);
        }
        i = i + 1;
    }
    proof {
        lemma_assoc_find_absent(names_view(names@), guild_id@);
    }
    None
}

/// `settings view`: render the verified role, every guild-role mapping
/// (each guild named via the resolved display names), and every
/// requirement record.  A guild id missing from the name table is a hard
/// error for the whole response.
pub fn render_view(doc: &ServerConfig, names: &Vec<GuildName>) -> (r: Result<String, String>)
    requires
        doc.wf(),
    ensures
        (spec_view_text(doc@, names_view(names@)) matches Some(t) ==> (r matches Ok(m) && m@
            == t)),
        (spec_view_text(doc@, names_view(names@)) is None ==> (r matches Err(e) && e@
            == "Invalid guild"@)),
{
    let ghost nv = names_view(names@);
    let mut role_lines = String::new();
    let n = doc.guild_roles.len();
    let mut i: usize = 0;
    while i < n
        invariant
            0 <= i <= n,
            n == doc.guild_roles.len(),
            doc.wf(),
            nv == names_view(names@),
            spec_role_lines(doc@.guild_roles.take(i as int), nv) == Some(role_lines@),
        decreases n - i,
    {
        proof {
            assert(doc@.guild_roles[i as int] == doc.guild_roles@[i as int]@);
            assert(doc@.guild_roles.take(i + 1).drop_last() =~= doc@.guild_roles.take(i as int));
            assert(doc@.guild_roles.take(i + 1).last() == doc@.guild_roles[i as int]);
        }
        let entry = &doc.guild_roles[i];
        match find_guild_name(names, &entry.guild_id) {
            Some(display) => {
                role_lines.append("\n  \u{2022} ");
                role_lines.append(display.as_str());
                role_lines.append(": <@&");
                role_lines.append(entry.role.as_str());
                role_lines.append(">");
                proof {
                    assert(spec_role_lines(doc@.guild_roles.take(i + 1), nv) == Some(
                        role_lines@,
                    )) by {
                        assert(role_lines@ =~= spec_role_lines(
                            doc@.guild_roles.take(i as int),
                            nv,
                        )->Some_0 + spec_role_line(
                            assoc_find(nv, doc@.guild_roles[i as int].0)->Some_0,
                            doc@.guild_roles[i as int].1,
                        ));
                    }
                }
            },
            None => {
                proof {
                    assert(spec_role_lines(doc@.guild_roles.take(i + 1), nv) is None);
                    lemma_role_lines_none(doc@.guild_roles, nv, i + 1);
                }
                return Err(invalid_guild_reply());
            },
        }
        i = i + 1;
    }
    proof {
        assert(doc@.guild_roles.take(n as int) =~= doc@.guild_roles);
    }
    let req_lines = render_req_lines(doc);
    let mut out = String::from_str("Verified Role: <@&");
    out.append(doc.verified_role.as_str());
    out.append(">\nGuild Roles:");
    out.append(role_lines.as_str());
    out.append("\nReqs:");
    out.append(req_lines.as_str());
    proof {
        assert(out@ =~= spec_view_text(doc@, nv)->Some_0);
    }
    Ok(out)
}

} // verus!
