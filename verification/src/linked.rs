//! The linked-accounts table: one row per verified player, with at most one
//! row per game uuid, per in-game username, and per chat-platform user id.

use vstd::prelude::*;

verus! {

/// One verified mapping between a chat-platform user and a game account.
pub struct LinkedAccount {
    pub uuid: String,
    pub username: String,
    pub discord: String,
    pub last_updated: i64,
}

/// Ghost image of a row.
pub struct LinkedAccountV {
    pub uuid: Seq<char>,
    pub username: Seq<char>,
    pub discord: Seq<char>,
    pub last_updated: int,
}

impl View for LinkedAccount {
    type V = LinkedAccountV;

    open spec fn view(&self) -> LinkedAccountV {
        LinkedAccountV {
            uuid: self.uuid@,
            username: self.username@,
            discord: self.discord@,
            last_updated: self.last_updated as int,
        }
    }
}

/// Two rows collide when they share any of the three identity columns.
pub open spec fn conflicts(a: LinkedAccountV, b: LinkedAccountV) -> bool {
    a.uuid == b.uuid || a.username == b.username || a.discord == b.discord
}

/// No two distinct rows share any identity column.
pub open spec fn store_unique(s: Seq<LinkedAccountV>) -> bool {
    forall|i: int, j: int| 0 <= i < j < s.len() ==> !conflicts(#[trigger] s[i], #[trigger] s[j])
}

/// The rows that survive re-linking `a`: everything that shares no identity
/// column with it, in the original order.
pub open spec fn purge(s: Seq<LinkedAccountV>, a: LinkedAccountV) -> Seq<LinkedAccountV>
    decreases s.len(),
{
    if s.len() == 0 {
        s
    } else if conflicts(s.last(), a) {
        purge(s.drop_last(), a)
    } else {
        purge(s.drop_last(), a).push(s.last())
    }
}

/// Which identity column a question is about.
pub enum IdKey {
    Uuid,
    Username,
    Discord,
}

/// The named identity column of a row.
pub open spec fn key_of(r: LinkedAccountV, k: IdKey) -> Seq<char> {
    match k {
        IdKey::Uuid => r.uuid,
        IdKey::Username => r.username,
        IdKey::Discord => r.discord,
    }
}

/// How many rows carry value `v` in identity column `k`.
pub open spec fn count_key(s: Seq<LinkedAccountV>, k: IdKey, v: Seq<char>) -> nat
    decreases s.len(),
{
    if s.len() == 0 {
        0
    } else {
        count_key(s.drop_last(), k, v) + if key_of(s.last(), k) == v {
            1nat
        } else {
            0nat
        }
    }
}

pub proof fn lemma_purge_contains(s: Seq<LinkedAccountV>, a: LinkedAccountV)
    ensures
        forall|i: int|
            0 <= i < purge(s, a).len() ==> s.contains(#[trigger] purge(s, a)[i]),
        forall|i: int| 0 <= i < purge(s, a).len() ==> !conflicts(#[trigger] purge(s, a)[i], a),
    decreases s.len(),
{
    if s.len() > 0 {
        lemma_purge_contains(s.drop_last(), a);
        assert forall|i: int| 0 <= i < purge(s, a).len() implies s.contains(
            #[trigger] purge(s, a)[i],
        ) && !conflicts(purge(s, a)[i], a) by {
            let p = purge(s, a);
            let p0 = purge(s.drop_last(), a);
            if !conflicts(s.last(), a) && i == p.len() - 1 {
                assert(p[i] == s.last());
                assert(s[s.len() - 1] == s.last());
            } else {
                assert(p[i] == p0[i]);
                assert(s.drop_last().contains(p0[i]));
                let j = choose|j: int| 0 <= j < s.drop_last().len() && s.drop_last()[j] == p0[i];
                assert(s[j] == p0[i]);
            }
        }
    }
}

pub proof fn lemma_purge_unique(s: Seq<LinkedAccountV>, a: LinkedAccountV)
    requires
        store_unique(s),
    ensures
        store_unique(purge(s, a)),
        store_unique(purge(s, a).push(a)),
    decreases s.len(),
{
    if s.len() == 0 {
        lemma_purge_contains(s, a);
    } else {
        assert(store_unique(s.drop_last())) by {
            assert(forall|i: int|
                0 <= i < s.drop_last().len() ==> #[trigger] s.drop_last()[i] == s[i]);
        }
        lemma_purge_unique(s.drop_last(), a);
        lemma_purge_contains(s.drop_last(), a);
        lemma_purge_contains(s, a);
        let p = purge(s, a);
        let p0 = purge(s.drop_last(), a);
        if !conflicts(s.last(), a) {
            assert(p == p0.push(s.last()));
            assert forall|i: int, j: int| 0 <= i < j < p.len() implies !conflicts(
                #[trigger] p[i],
                #[trigger] p[j],
            ) by {
                if j == p.len() - 1 {
                    assert(p[j] == s.last());
                    assert(p[i] == p0[i]);
                    assert(s.drop_last().contains(p0[i]));
                    let m = choose|m: int|
                        0 <= m < s.drop_last().len() && s.drop_last()[m] == p0[i];
                    assert(s[m] == p0[i]);
                    assert(s[s.len() - 1] == s.last());
                    assert(!conflicts(s[m], s[s.len() - 1]));
                } else {
                    assert(p[i] == p0[i] && p[j] == p0[j]);
                }
            }
        }
        assert forall|i: int, j: int| 0 <= i < j < p.push(a).len() implies !conflicts(
            #[trigger] p.push(a)[i],
            #[trigger] p.push(a)[j],
        ) by {
            if j == p.len() {
                assert(p.push(a)[j] == a);
                assert(p.push(a)[i] == p[i]);
                assert(!conflicts(p[i], a));
                assert(!conflicts(a, p[i]) == !conflicts(p[i], a));
            } else {
                assert(p.push(a)[i] == p[i] && p.push(a)[j] == p[j]);
            }
        }
    }
}

/// A store without any row whose column `k` holds `v` counts zero such rows.
proof fn lemma_count_zero(s: Seq<LinkedAccountV>, k: IdKey, v: Seq<char>)
    requires
        forall|i: int| 0 <= i < s.len() ==> key_of(#[trigger] s[i], k) != v,
    ensures
        count_key(s, k, v) == 0,
    decreases s.len(),
{
    if s.len() > 0 {
        assert(forall|i: int| 0 <= i < s.drop_last().len() ==> #[trigger] s.drop_last()[i] == s[i]);
        lemma_count_zero(s.drop_last(), k, v);
        assert(s[s.len() - 1] == s.last());
    }
}

/// Re-linking leaves exactly one row carrying each of the new row's three
/// identities, whatever the store held before.
pub proof fn lemma_relink_one_row(s: Seq<LinkedAccountV>, a: LinkedAccountV, k: IdKey)
    ensures
        count_key(purge(s, a).push(a), k, key_of(a, k)) == 1,
{
    let p = purge(s, a);
    lemma_purge_contains(s, a);
    assert forall|i: int| 0 <= i < p.len() implies key_of(#[trigger] p[i], k) != key_of(a, k) by {
        assert(!conflicts(p[i], a));
    }
    lemma_count_zero(p, k, key_of(a, k));
    assert(p.push(a).drop_last() =~= p);
    assert(p.push(a).last() == a);
}

/// The first row whose discord column holds `d`, if any.
pub open spec fn find_discord(s: Seq<LinkedAccountV>, d: Seq<char>) -> Option<LinkedAccountV>
    decreases s.len(),
{
    if s.len() == 0 {
        None
    } else if s[0].discord == d {
        Some(s[0])
    } else {
        find_discord(s.drop_first(), d)
    }
}

proof fn lemma_find_discord_first(s: Seq<LinkedAccountV>, d: Seq<char>, i: int)
    requires
        0 <= i < s.len(),
        s[i].discord == d,
        forall|j: int| 0 <= j < i ==> (#[trigger] s[j]).discord != d,
    ensures
        find_discord(s, d) == Some(s[i]),
    decreases s.len(),
{
    if i > 0 {
        assert(forall|j: int|
            0 <= j < s.drop_first().len() ==> #[trigger] s.drop_first()[j] == s[j + 1]);
        lemma_find_discord_first(s.drop_first(), d, i - 1);
    }
}

proof fn lemma_find_discord_absent(s: Seq<LinkedAccountV>, d: Seq<char>)
    requires
        forall|j: int| 0 <= j < s.len() ==> (#[trigger] s[j]).discord != d,
    ensures
        find_discord(s, d) is None,
    decreases s.len(),
{
    if s.len() > 0 {
        assert(forall|j: int|
            0 <= j < s.drop_first().len() ==> #[trigger] s.drop_first()[j] == s[j + 1]);
        lemma_find_discord_absent(s.drop_first(), d);
    }
}

/// In-memory model of the linked-accounts table.  The order of `rows` is
/// the order in which identities were (re-)verified.
pub struct LinkedStore {
    pub rows: Vec<LinkedAccount>,
}

impl View for LinkedStore {
    type V = Seq<LinkedAccountV>;

    open spec fn view(&self) -> Seq<LinkedAccountV> {
        self.rows@.map_values(|r: LinkedAccount| r@)
    }
}

impl LinkedStore {
    /// The uniqueness invariant of the table.
    pub open spec fn wf(&self) -> bool {
        store_unique(self@)
    }

    pub fn new() -> (r: LinkedStore)
        ensures
            r@ == Seq::<LinkedAccountV>::empty(),
            r.wf(),
    {
        let r = LinkedStore { rows: Vec::new() };
        proof {
            assert(r@ =~= Seq::<LinkedAccountV>::empty());
        }
        r
    }

    /// Link `a`, first deleting every row that shares its uuid, username,
    /// or discord id: afterwards exactly one row carries each of those
    /// three identities.
    pub fn upsert(&mut self, a: LinkedAccount)
        requires
            old(self).wf(),
        ensures
            final(self)@ == purge(old(self)@, a@).push(a@),
            final(self).wf(),
            count_key(final(self)@, IdKey::Uuid, a@.uuid) == 1,
            count_key(final(self)@, IdKey::Username, a@.username) == 1,
            count_key(final(self)@, IdKey::Discord, a@.discord) == 1,
    {
        let ghost orig = self@;
        let n = self.rows.len();
        let mut out: Vec<LinkedAccount> = Vec::new();
        let mut i: usize = 0;
        while i < n
            invariant
                0 <= i <= n,
                n == self.rows.len(),
                self@ == orig,
                orig.len() == n,
                out@.map_values(|r: LinkedAccount| r@) == purge(orig.take(i as int), a@),
            decreases n - i,
        {
            let row = &self.rows[i];
            let keep = !(row.uuid.eq(&a.uuid) || row.username.eq(&a.username) || row.discord.eq(
                &a.discord,
            ));
            proof {
                assert(orig.take(i + 1).drop_last() =~= orig.take(i as int));
                assert(orig.take(i + 1).last() == orig[i as int]);
                assert(orig[i as int] == self.rows@[i as int]@);
            }
            if keep {
                let copied = LinkedAccount {
                    uuid: row.uuid.clone(),
                    username: row.username.clone(),
                    discord: row.discord.clone(),
                    last_updated: row.last_updated,
                };
                out.push(copied);
                proof {
                    assert(out@.map_values(|r: LinkedAccount| r@) =~= purge(
                        orig.take(i + 1),
                        a@,
                    ));
                }
            } else {
                proof {
                    assert(out@.map_values(|r: LinkedAccount| r@) =~= purge(
                        orig.take(i + 1),
                        a@,
                    ));
                }
            }
            i = i + 1;
        }
        proof {
            assert(orig.take(n as int) =~= orig);
        }
        let ghost av = a@;
        out.push(a);
        self.rows = out;
        proof {
            assert(self@ =~= purge(orig, av).push(av));
            lemma_purge_unique(orig, av);
            lemma_relink_one_row(orig, av, IdKey::Uuid);
            lemma_relink_one_row(orig, av, IdKey::Username);
            lemma_relink_one_row(orig, av, IdKey::Discord);
        }
    }

    /// The username and uuid linked to a chat-platform user id, if any.
    pub fn find_by_discord(&self, discord_id: &String) -> (r: Option<(String, String)>)
        ensures
            match r {
                Some(p) => find_discord(self@, discord_id@) matches Some(row) && p.0@
                    == row.username && p.1@ == row.uuid,
                None => find_discord(self@, discord_id@) is None,
            },
    {
        let n = self.rows.len();
        let mut i: usize = 0;
        while i < n
            invariant
                0 <= i <= n,
                n == self.rows.len(),
                forall|j: int| 0 <= j < i ==> (#[trigger] self@[j]).discord != discord_id@,
            decreases n - i,
        {
            let row = &self.rows[i];
            if row.discord.eq(discord_id) {
                proof {
                    assert(self@[i as int] == self.rows@[i as int]@);
                    lemma_find_discord_first(self@, discord_id@, i as int);
                }
                return Some((row.username.clone(), row.uuid.clone()));
            }
            proof {
                assert(self@[i as int] == self.rows@[i as int]@);
            }
            i = i + 1;
        }
        proof {
            lemma_find_discord_absent(self@, discord_id@);
        }
        None
    }
}

} // verus!
