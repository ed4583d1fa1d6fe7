//! The mutable settings document: verified role, guild-role mapping, and
//! per-guild requirement records, together with the association-list model
//! its contracts are stated over.

use vstd::prelude::*;
use crate::reqs::{GuildReqs, GuildReqsV};

verus! {

// ---------------------------------------------------------------------------
// Association lists keyed by character sequences
// ---------------------------------------------------------------------------

/// First value stored under key `k`, if any.
pub open spec fn assoc_find<V>(s: Seq<(Seq<char>, V)>, k: Seq<char>) -> Option<V>
    decreases s.len(),
{
    if s.len() == 0 {
        None
    } else if s[0].0 == k {
        Some(s[0].1)
    } else {
        assoc_find(s.drop_first(), k)
    }
}

/// Replace the entry under `k` in place, or append one.
pub open spec fn assoc_update<V>(s: Seq<(Seq<char>, V)>, k: Seq<char>, v: V) -> Seq<
    (Seq<char>, V),
>
    decreases s.len(),
{
    if s.len() == 0 {
        seq![(k, v)]
    } else if s[0].0 == k {
        seq![(k, v)] + s.drop_first()
    } else {
        seq![s[0]] + assoc_update(s.drop_first(), k, v)
    }
}

/// Drop the first entry under `k`, if any.
pub open spec fn assoc_remove<V>(s: Seq<(Seq<char>, V)>, k: Seq<char>) -> Seq<(Seq<char>, V)>
    decreases s.len(),
{
    if s.len() == 0 {
        s
    } else if s[0].0 == k {
        s.drop_first()
    } else {
        seq![s[0]] + assoc_remove(s.drop_first(), k)
    }
}

/// No key occurs twice.
pub open spec fn assoc_keys_unique<V>(s: Seq<(Seq<char>, V)>) -> bool {
    forall|i: int, j: int| 0 <= i < j < s.len() ==> (#[trigger] s[i]).0 != (#[trigger] s[j]).0
}

/// The map an association list denotes.
pub open spec fn assoc_map<V>(s: Seq<(Seq<char>, V)>) -> Map<Seq<char>, V> {
    Map::new(|k: Seq<char>| assoc_find(s, k) is Some, |k: Seq<char>| assoc_find(s, k)->0)
}

pub proof fn lemma_assoc_find_update<V>(s: Seq<(Seq<char>, V)>, k: Seq<char>, v: V, k2: Seq<char>)
    ensures
        assoc_find(assoc_update(s, k, v), k2) == if k2 == k {
            Some(v)
        } else {
            assoc_find(s, k2)
        },
    decreases s.len(),
{
    if s.len() == 0 {
        assert(assoc_update(s, k, v) =~= seq![(k, v)]);
        assert(assoc_update(s, k, v).drop_first() =~= Seq::<(Seq<char>, V)>::empty());
        assert(assoc_find(Seq::<(Seq<char>, V)>::empty(), k2) is None);
    } else if s[0].0 == k {
        let u = assoc_update(s, k, v);
        assert(u =~= seq![(k, v)] + s.drop_first());
        assert(u[0] == (k, v));
        assert(u.drop_first() =~= s.drop_first());
        if k2 != k {
            assert(assoc_find(u, k2) == assoc_find(s.drop_first(), k2));
            assert(assoc_find(s, k2) == assoc_find(s.drop_first(), k2));
        }
    } else {
        lemma_assoc_find_update(s.drop_first(), k, v, k2);
        let u = assoc_update(s, k, v);
        assert(u =~= seq![s[0]] + assoc_update(s.drop_first(), k, v));
        assert(u[0] == s[0]);
        assert(u.drop_first() =~= assoc_update(s.drop_first(), k, v));
    }
}

pub proof fn lemma_assoc_find_remove<V>(s: Seq<(Seq<char>, V)>, k: Seq<char>, k2: Seq<char>)
    requires
        assoc_keys_unique(s),
    ensures
        assoc_find(assoc_remove(s, k), k2) == if k2 == k {
            None::<V>
        } else {
            assoc_find(s, k2)
        },
    decreases s.len(),
{
    if s.len() == 0 {
    } else if s[0].0 == k {
        if k2 == k {
            lemma_assoc_find_absent(s.drop_first(), k);
        }
    } else {
        assert(assoc_keys_unique(s.drop_first())) by {
            assert(forall|i: int, j: int|
                0 <= i < j < s.drop_first().len() ==> (#[trigger] s.drop_first()[i]).0 != (
                #[trigger] s.drop_first()[j]).0) by {
                assert(forall|i: int|
                    0 <= i < s.drop_first().len() ==> #[trigger] s.drop_first()[i] == s[i + 1]);
            }
        }
        lemma_assoc_find_remove(s.drop_first(), k, k2);
        let u = assoc_remove(s, k);
        assert(u =~= seq![s[0]] + assoc_remove(s.drop_first(), k));
        assert(u[0] == s[0]);
        assert(u.drop_first() =~= assoc_remove(s.drop_first(), k));
    }
}

/// In a list whose head key differs from every later key, a key that is not
/// the head's and not found later is not found at all.
pub proof fn lemma_assoc_find_absent<V>(s: Seq<(Seq<char>, V)>, k: Seq<char>)
    requires
        forall|i: int| 0 <= i < s.len() ==> (#[trigger] s[i]).0 != k,
    ensures
        assoc_find(s, k) is None,
    decreases s.len(),
{
    if s.len() > 0 {
        assert(forall|i: int|
            0 <= i < s.drop_first().len() ==> #[trigger] s.drop_first()[i] == s[i + 1]);
        lemma_assoc_find_absent(s.drop_first(), k);
    }
}

/// `assoc_find` returning nothing means no entry carries the key.
pub proof fn lemma_assoc_absent_find<V>(s: Seq<(Seq<char>, V)>, k: Seq<char>)
    requires
        assoc_find(s, k) is None,
    ensures
        forall|i: int| 0 <= i < s.len() ==> (#[trigger] s[i]).0 != k,
    decreases s.len(),
{
    if s.len() > 0 {
        lemma_assoc_absent_find(s.drop_first(), k);
        assert forall|i: int| 0 <= i < s.len() implies (#[trigger] s[i]).0 != k by {
            if i >= 1 {
                assert(s.drop_first()[i - 1] == s[i]);
            }
        }
    }
}

pub proof fn lemma_assoc_update_unique<V>(s: Seq<(Seq<char>, V)>, k: Seq<char>, v: V)
    requires
        assoc_keys_unique(s),
    ensures
        assoc_keys_unique(assoc_update(s, k, v)),
    decreases s.len(),
{
    let u = assoc_update(s, k, v);
    if s.len() == 0 {
        assert(u =~= seq![(k, v)]);
    } else if s[0].0 == k {
        assert(u =~= seq![(k, v)] + s.drop_first());
        assert(forall|i: int| 0 <= i < s.drop_first().len() ==> #[trigger] u[i + 1] == s[i + 1]);
    } else {
        assert(assoc_keys_unique(s.drop_first())) by {
            assert(forall|i: int|
                0 <= i < s.drop_first().len() ==> #[trigger] s.drop_first()[i] == s[i + 1]);
        }
        lemma_assoc_update_unique(s.drop_first(), k, v);
        lemma_assoc_update_keys(s.drop_first(), k, v);
        assert(u =~= seq![s[0]] + assoc_update(s.drop_first(), k, v));
        assert(forall|i: int|
            0 <= i < assoc_update(s.drop_first(), k, v).len() ==> #[trigger] u[i + 1]
                == assoc_update(s.drop_first(), k, v)[i]);
    }
}

/// Every key of the updated list is `k` or a key of the original.
proof fn lemma_assoc_update_keys<V>(s: Seq<(Seq<char>, V)>, k: Seq<char>, v: V)
    ensures
        forall|i: int|
            0 <= i < assoc_update(s, k, v).len() ==> ((#[trigger] assoc_update(s, k, v)[i]).0 == k
                || exists|j: int| 0 <= j < s.len() && (#[trigger] s[j]).0 == assoc_update(
                s,
                k,
                v,
            )[i].0),
    decreases s.len(),
{
    let u = assoc_update(s, k, v);
    if s.len() == 0 {
    } else if s[0].0 == k {
        assert(forall|i: int| 0 <= i < s.drop_first().len() ==> #[trigger] u[i + 1] == s[i + 1]);
    } else {
        lemma_assoc_update_keys(s.drop_first(), k, v);
        let u2 = assoc_update(s.drop_first(), k, v);
        assert(u =~= seq![s[0]] + u2);
        assert(forall|i: int| 0 <= i < u2.len() ==> #[trigger] u[i + 1] == u2[i]);
        assert forall|i: int| 0 <= i < u.len() implies ((#[trigger] u[i]).0 == k || exists|j: int|
            0 <= j < s.len() && (#[trigger] s[j]).0 == u[i].0) by {
            if i == 0 {
                assert(s[0].0 == u[0].0);
            } else {
                assert(u[i] == u2[i - 1]);
                if u2[i - 1].0 != k {
                    let j = choose|j: int|
                        0 <= j < s.drop_first().len() && (#[trigger] s.drop_first()[j]).0 == u2[i
                            - 1].0;
                    assert(s[j + 1].0 == u[i].0);
                }
            }
        }
    }
}

pub proof fn lemma_assoc_remove_unique<V>(s: Seq<(Seq<char>, V)>, k: Seq<char>)
    requires
        assoc_keys_unique(s),
    ensures
        assoc_keys_unique(assoc_remove(s, k)),
        assoc_remove(s, k).len() <= s.len(),
        forall|i: int|
            0 <= i < assoc_remove(s, k).len() ==> exists|j: int|
                0 <= j < s.len() && #[trigger] assoc_remove(s, k)[i] == s[j],
    decreases s.len(),
{
    let u = assoc_remove(s, k);
    if s.len() == 0 {
    } else if s[0].0 == k {
        assert(u =~= s.drop_first());
        assert(forall|i: int| 0 <= i < u.len() ==> #[trigger] u[i] == s[i + 1]);
    } else {
        assert(assoc_keys_unique(s.drop_first())) by {
            assert(forall|i: int|
                0 <= i < s.drop_first().len() ==> #[trigger] s.drop_first()[i] == s[i + 1]);
        }
        lemma_assoc_remove_unique(s.drop_first(), k);
        let u2 = assoc_remove(s.drop_first(), k);
        assert(u =~= seq![s[0]] + u2);
        assert(forall|i: int| 0 <= i < u2.len() ==> #[trigger] u[i + 1] == u2[i]);
        assert forall|i: int| 0 <= i < u.len() implies exists|j: int|
            0 <= j < s.len() && #[trigger] u[i] == s[j] by {
            if i == 0 {
                assert(u[0] == s[0]);
            } else {
                let j = choose|j: int|
                    0 <= j < s.drop_first().len() && #[trigger] s.drop_first()[j] == u2[i - 1];
                assert(u[i] == s[j + 1]);
            }
        }
        assert forall|i: int, j: int| 0 <= i < j < u.len() implies (#[trigger] u[i]).0 != (
        #[trigger] u[j]).0 by {
            if i == 0 {
                let j2 = choose|j2: int|
                    0 <= j2 < s.drop_first().len() && #[trigger] s.drop_first()[j2] == u2[j - 1];
                assert(u[j] == s[j2 + 1]);
            }
        }
    }
}

/// Updating at a key either replaces the first matching entry in place or,
/// when the key is absent, appends.
pub proof fn lemma_assoc_update_at<V>(s: Seq<(Seq<char>, V)>, k: Seq<char>, v: V, i: int)
    requires
        0 <= i < s.len(),
        s[i].0 == k,
        forall|j: int| 0 <= j < i ==> (#[trigger] s[j]).0 != k,
    ensures
        assoc_update(s, k, v) == s.update(i, (k, v)),
    decreases s.len(),
{
    if i == 0 {
        assert(assoc_update(s, k, v) =~= s.update(0, (k, v)));
    } else {
        assert(forall|j: int|
            0 <= j < s.drop_first().len() ==> #[trigger] s.drop_first()[j] == s[j + 1]);
        lemma_assoc_update_at(s.drop_first(), k, v, i - 1);
        assert(assoc_update(s, k, v) =~= s.update(i, (k, v)));
    }
}

pub proof fn lemma_assoc_update_absent<V>(s: Seq<(Seq<char>, V)>, k: Seq<char>, v: V)
    requires
        forall|j: int| 0 <= j < s.len() ==> (#[trigger] s[j]).0 != k,
    ensures
        assoc_update(s, k, v) == s.push((k, v)),
    decreases s.len(),
{
    if s.len() == 0 {
        assert(assoc_update(s, k, v) =~= s.push((k, v)));
    } else {
        assert(forall|j: int|
            0 <= j < s.drop_first().len() ==> #[trigger] s.drop_first()[j] == s[j + 1]);
        lemma_assoc_update_absent(s.drop_first(), k, v);
        assert(assoc_update(s, k, v) =~= s.push((k, v)));
    }
}

/// Removing either drops the first matching entry or, when the key is
/// absent, leaves the list as it was.
pub proof fn lemma_assoc_remove_at<V>(s: Seq<(Seq<char>, V)>, k: Seq<char>, i: int)
    requires
        0 <= i < s.len(),
        s[i].0 == k,
        forall|j: int| 0 <= j < i ==> (#[trigger] s[j]).0 != k,
    ensures
        assoc_remove(s, k) == s.remove(i),
    decreases s.len(),
{
    if i == 0 {
        assert(assoc_remove(s, k) =~= s.remove(0));
    } else {
        assert(forall|j: int|
            0 <= j < s.drop_first().len() ==> #[trigger] s.drop_first()[j] == s[j + 1]);
        lemma_assoc_remove_at(s.drop_first(), k, i - 1);
        assert(assoc_remove(s, k) =~= s.remove(i));
    }
}

pub proof fn lemma_assoc_remove_absent<V>(s: Seq<(Seq<char>, V)>, k: Seq<char>)
    requires
        forall|j: int| 0 <= j < s.len() ==> (#[trigger] s[j]).0 != k,
    ensures
        assoc_remove(s, k) == s,
    decreases s.len(),
{
    if s.len() > 0 {
        assert(forall|j: int|
            0 <= j < s.drop_first().len() ==> #[trigger] s.drop_first()[j] == s[j + 1]);
        lemma_assoc_remove_absent(s.drop_first(), k);
        assert(assoc_remove(s, k) =~= s);
    }
}

/// Map image of an update: insertion.
pub proof fn lemma_assoc_map_update<V>(s: Seq<(Seq<char>, V)>, k: Seq<char>, v: V)
    ensures
        assoc_map(assoc_update(s, k, v)) == assoc_map(s).insert(k, v),
{
    assert forall|k2: Seq<char>| true implies assoc_find(assoc_update(s, k, v), k2) == (if k2 == k {
        Some(v)
    } else {
        assoc_find(s, k2)
    }) by {
        lemma_assoc_find_update(s, k, v, k2);
    }
    assert(assoc_map(assoc_update(s, k, v)) =~= assoc_map(s).insert(k, v));
}

/// Map image of a removal.
pub proof fn lemma_assoc_map_remove<V>(s: Seq<(Seq<char>, V)>, k: Seq<char>)
    requires
        assoc_keys_unique(s),
    ensures
        assoc_map(assoc_remove(s, k)) == assoc_map(s).remove(k),
{
    assert forall|k2: Seq<char>| true implies assoc_find(assoc_remove(s, k), k2) == (if k2 == k {
        None::<V>
    } else {
        assoc_find(s, k2)
    }) by {
        lemma_assoc_find_remove(s, k, k2);
    }
    assert(assoc_map(assoc_remove(s, k)) =~= assoc_map(s).remove(k));
}

// ---------------------------------------------------------------------------
// The settings document
// ---------------------------------------------------------------------------

/// One guild-id-to-role mapping entry.
pub struct RoleEntry {
    pub guild_id: String,
    pub role: String,
}

impl View for RoleEntry {
    type V = (Seq<char>, Seq<char>);

    open spec fn view(&self) -> (Seq<char>, Seq<char>) {
        (self.guild_id@, self.role@)
    }
}

/// One guild-name-to-requirements entry.
pub struct ReqEntry {
    pub guild_name: String,
    pub reqs: GuildReqs,
}

impl View for ReqEntry {
    type V = (Seq<char>, GuildReqsV);

    open spec fn view(&self) -> (Seq<char>, GuildReqsV) {
        (self.guild_name@, self.reqs@)
    }
}

/// The whole settings document: one per deployment, read and written whole.
pub struct ServerConfig {
    pub verified_role: String,
    pub guild_roles: Vec<RoleEntry>,
    pub guild_reqs: Vec<ReqEntry>,
}

/// Ghost image of the settings document.
pub struct ServerConfigV {
    pub verified_role: Seq<char>,
    pub guild_roles: Seq<(Seq<char>, Seq<char>)>,
    pub guild_reqs: Seq<(Seq<char>, GuildReqsV)>,
}

impl View for ServerConfig {
    type V = ServerConfigV;

    open spec fn view(&self) -> ServerConfigV {
        ServerConfigV {
            verified_role: self.verified_role@,
            guild_roles: self.guild_roles@.map_values(|e: RoleEntry| e@),
            guild_reqs: self.guild_reqs@.map_values(|e: ReqEntry| e@),
        }
    }
}

impl ServerConfigV {
    /// The guild-id-to-role mapping the document denotes.
    pub open spec fn roles_map(self) -> Map<Seq<char>, Seq<char>> {
        assoc_map(self.guild_roles)
    }

    /// The guild-name-to-requirements mapping the document denotes.
    pub open spec fn reqs_map(self) -> Map<Seq<char>, GuildReqsV> {
        assoc_map(self.guild_reqs)
    }

    /// Each mapping names a guild at most once, and thresholds are
    /// non-negative.
    pub open spec fn wf(self) -> bool {
        &&& assoc_keys_unique(self.guild_roles)
        &&& assoc_keys_unique(self.guild_reqs)
        &&& forall|i: int|
            0 <= i < self.guild_reqs.len() ==> (#[trigger] self.guild_reqs[i]).1.wf()
    }

    /// The document a fresh deployment starts from.
    pub open spec fn empty() -> ServerConfigV {
        ServerConfigV {
            verified_role: Seq::<char>::empty(),
            guild_roles: Seq::empty(),
            guild_reqs: Seq::empty(),
        }
    }
}

impl ServerConfig {
    pub open spec fn wf(&self) -> bool {
        self@.wf()
    }

    /// A document with no verified role, no guild roles, and no requirements.
    pub fn new() -> (r: ServerConfig)
        ensures
            r@ == ServerConfigV::empty(),
            r.wf(),
    {
        let r = ServerConfig {
            verified_role: String::new(),
            guild_roles: Vec::new(),
            guild_reqs: Vec::new(),
        };
        proof {
            assert(r@.guild_roles =~= Seq::<(Seq<char>, Seq<char>)>::empty());
            assert(r@.guild_reqs =~= Seq::<(Seq<char>, GuildReqsV)>::empty());
            assert(r@ =~= ServerConfigV::empty());
        }
        r
    }

    /// The role mapped to a guild id, if any.
    pub fn get_guild_role(&self, guild_id: &String) -> (r: Option<&String>)
        ensures
            match r {
                Some(v) => assoc_find(self@.guild_roles, guild_id@) == Some(v@),
                None => assoc_find(self@.guild_roles, guild_id@) is None,
            },
{
        let n = self.guild_roles.len();
        let mut i: usize = 0;
        while i < n
            invariant
                0 <= i <= n,
                n == self.guild_roles.len(),
                forall|j: int| 0 <= j < i ==> (#[trigger] self@.guild_roles[j]).0 != guild_id@,
            decreases n - i,
        {
            if self.guild_roles[i].guild_id.eq(guild_id) {
                proof {
                    lemma_assoc_find_first(self@.guild_roles, guild_id@, i as int);
                }
                return Some(&self.guild_roles[i].role);
            }
            i = i + 1;
        }
        proof {
            lemma_assoc_find_absent(self@.guild_roles, guild_id@);
        }
        None
    }

    /// The requirement record stored for a guild name, or the all-zero
    /// record when none is stored.
    pub fn get_reqs_or_default(&self, guild_name: &String) -> (r: GuildReqs)
        ensures
            r@ == match assoc_find(self@.guild_reqs, guild_name@) {
                Some(v) => v,
                None => GuildReqsV::zero(),
            },
    {
        let n = self.guild_reqs.len();
        let mut i: usize = 0;
        while i < n
            invariant
                0 <= i <= n,
                n == self.guild_reqs.len(),
                forall|j: int| 0 <= j < i ==> (#[trigger] self@.guild_reqs[j]).0 != guild_name@,
            decreases n - i,
        {
            if self.guild_reqs[i].guild_name.eq(guild_name) {
                proof {
                    lemma_assoc_find_first(self@.guild_reqs, guild_name@, i as int);
                }
                return self.guild_reqs[i].reqs;
            }
            i = i + 1;
        }
        proof {
            lemma_assoc_find_absent(self@.guild_reqs, guild_name@);
        }
        GuildReqs::default()
    }

    /// Store `role` under `guild_id`, replacing any earlier mapping.
    pub fn put_guild_role(&mut self, guild_id: String, role: String)
        ensures
            final(self)@.verified_role == old(self)@.verified_role,
            final(self)@.guild_reqs == old(self)@.guild_reqs,
            final(self)@.guild_roles == assoc_update(old(self)@.guild_roles, guild_id@, role@),
    {
        let ghost orig = self@.guild_roles;
        let n = self.guild_roles.len();
        let mut i: usize = 0;
        while i < n
            invariant
                0 <= i <= n,
                n == self.guild_roles.len(),
                self@ == old(self)@,
                self@.guild_roles == orig,
                forall|j: int| 0 <= j < i ==> (#[trigger] orig[j]).0 != guild_id@,
            decreases n - i,
        {
            if self.guild_roles[i].guild_id.eq(&guild_id) {
                proof {
                    lemma_assoc_update_at(orig, guild_id@, role@, i as int);
                }
                let e = RoleEntry { guild_id, role };
                self.guild_roles.set(i, e);
                proof {
                    assert(self@.guild_roles =~= orig.update(i as int, (guild_id@, role@)));
                }
                return ;
            }
            i = i + 1;
        }
        proof {
            lemma_assoc_update_absent(orig, guild_id@, role@);
        }
        let e = RoleEntry { guild_id, role };
        self.guild_roles.push(e);
        proof {
            assert(self@.guild_roles =~= orig.push((guild_id@, role@)));
        }
    }

    /// Store a requirement record under `guild_name`, replacing any earlier
    /// one.
    pub fn put_reqs(&mut self, guild_name: String, reqs: GuildReqs)
        ensures
            final(self)@.verified_role == old(self)@.verified_role,
            final(self)@.guild_roles == old(self)@.guild_roles,
            final(self)@.guild_reqs == assoc_update(old(self)@.guild_reqs, guild_name@, reqs@),
    {
        let ghost orig = self@.guild_reqs;
        let n = self.guild_reqs.len();
        let mut i: usize = 0;
        while i < n
            invariant
                0 <= i <= n,
                n == self.guild_reqs.len(),
                self@ == old(self)@,
                self@.guild_reqs == orig,
                forall|j: int| 0 <= j < i ==> (#[trigger] orig[j]).0 != guild_name@,
            decreases n - i,
        {
            if self.guild_reqs[i].guild_name.eq(&guild_name) {
                proof {
                    lemma_assoc_update_at(orig, guild_name@, reqs@, i as int);
                }
                let e = ReqEntry { guild_name, reqs };
                self.guild_reqs.set(i, e);
                proof {
                    assert(self@.guild_reqs =~= orig.update(i as int, (guild_name@, reqs@)));
                }
                return ;
            }
            i = i + 1;
        }
        proof {
            lemma_assoc_update_absent(orig, guild_name@, reqs@);
        }
        let e = ReqEntry { guild_name, reqs };
        self.guild_reqs.push(e);
        proof {
            assert(self@.guild_reqs =~= orig.push((guild_name@, reqs@)));
        }
    }

    /// Drop the requirement record stored under `guild_name`, if any.
    pub fn remove_reqs(&mut self, guild_name: &String)
        ensures
            final(self)@.verified_role == old(self)@.verified_role,
            final(self)@.guild_roles == old(self)@.guild_roles,
            final(self)@.guild_reqs == assoc_remove(old(self)@.guild_reqs, guild_name@),
    {
        let ghost orig = self@.guild_reqs;
        let n = self.guild_reqs.len();
        let mut i: usize = 0;
        while i < n
            invariant
                0 <= i <= n,
                n == self.guild_reqs.len(),
                self@ == old(self)@,
                self@.guild_reqs == orig,
                forall|j: int| 0 <= j < i ==> (#[trigger] orig[j]).0 != guild_name@,
            decreases n - i,
        {
            if self.guild_reqs[i].guild_name.eq(guild_name) {
                proof {
                    lemma_assoc_remove_at(orig, guild_name@, i as int);
                }
                self.guild_reqs.remove(i);
                proof {
                    assert(self@.guild_reqs =~= orig.remove(i as int));
                }
                return ;
            }
            i = i + 1;
        }
        proof {
            lemma_assoc_remove_absent(orig, guild_name@);
            assert(self@.guild_reqs =~= orig);
        }
    }

    /// Replace the verified role.
    pub fn put_verified_role(&mut self, role: String)
        ensures
            final(self)@.verified_role == role@,
            final(self)@.guild_roles == old(self)@.guild_roles,
            final(self)@.guild_reqs == old(self)@.guild_reqs,
    {
        self.verified_role = role;
    }
}

/// A found value is one of the stored entries.
pub proof fn lemma_assoc_find_some_index<V>(s: Seq<(Seq<char>, V)>, k: Seq<char>)
    requires
        assoc_find(s, k) is Some,
    ensures
        exists|i: int|
            0 <= i < s.len() && (#[trigger] s[i]).0 == k && assoc_find(s, k) == Some(s[i].1),
    decreases s.len(),
{
    if s.len() > 0 {
        if s[0].0 == k {
        } else {
            lemma_assoc_find_some_index(s.drop_first(), k);
            let i = choose|i: int|
                0 <= i < s.drop_first().len() && (#[trigger] s.drop_first()[i]).0 == k
                    && assoc_find(s.drop_first(), k) == Some(s.drop_first()[i].1);
            assert(s[i + 1] == s.drop_first()[i]);
        }
    }
}

/// The first matching index determines what `assoc_find` returns.
pub proof fn lemma_assoc_find_first<V>(s: Seq<(Seq<char>, V)>, k: Seq<char>, i: int)
    requires
        0 <= i < s.len(),
        s[i].0 == k,
        forall|j: int| 0 <= j < i ==> (#[trigger] s[j]).0 != k,
    ensures
        assoc_find(s, k) == Some(s[i].1),
    decreases s.len(),
{
    if i > 0 {
        assert(forall|j: int|
            0 <= j < s.drop_first().len() ==> #[trigger] s.drop_first()[j] == s[j + 1]);
        lemma_assoc_find_first(s.drop_first(), k, i - 1);
    }
}

} // verus!
