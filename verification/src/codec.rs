//! The storage encoding of the settings document: a fixed JSON shape,
//! written and read by this crate alone.  The encoder is deterministic and
//! the parser accepts exactly what the encoder writes, plus the bare empty
//! object a fresh deployment starts from; parsing an encoded document
//! gives the document back.

use vstd::prelude::*;
use vstd::string::{StrSliceExecFns, StringExecFns};
use crate::reqs::{GuildReqs, GuildReqsV};
use crate::settings::{
    assoc_keys_unique, RoleEntry, ReqEntry, ServerConfig, ServerConfigV,
};
use crate::text::{
    chars_eq_lit, chars_to_string, dec_val, is_digit, lemma_dec_val_spec_dec,
    lemma_spec_dec_digits, parse_u64_chars, spec_dec, str_to_chars, sub_chars, u64_to_string,
};

verus! {

// ---------------------------------------------------------------------------
// Encoding, at the specification level
// ---------------------------------------------------------------------------

/// A character as it appears inside a quoted string: quotes and
/// backslashes carry a backslash in front.
pub open spec fn esc_char(c: char) -> Seq<char> {
    if c == '"' || c == '\\' {
        seq!['\\', c]
    } else {
        seq![c]
    }
}

/// A whole string body, escaped.
pub open spec fn esc(s: Seq<char>) -> Seq<char>
    decreases s.len(),
{
    if s.len() == 0 {
        Seq::<char>::empty()
    } else {
        esc_char(s[0]) + esc(s.drop_first())
    }
}

/// A quoted, escaped string.
pub open spec fn enc_str(s: Seq<char>) -> Seq<char> {
    seq!['"'] + esc(s) + seq!['"']
}

/// A requirement record as an object with its four fields in a fixed
/// order.
pub open spec fn enc_reqs(r: GuildReqsV) -> Seq<char>
    recommends
        r.wf(),
{
    "{\"slayer\":"@ + spec_dec(r.slayer as nat) + ",\"skills\":"@ + spec_dec(r.skills as nat)
        + ",\"catacombs\":"@ + spec_dec(r.catacombs as nat) + ",\"weight\":"@ + spec_dec(
        r.weight as nat,
    ) + "}"@
}

pub open spec fn enc_role_pair(e: (Seq<char>, Seq<char>)) -> Seq<char> {
    enc_str(e.0) + seq![':'] + enc_str(e.1)
}

pub open spec fn enc_req_pair(e: (Seq<char>, GuildReqsV)) -> Seq<char> {
    enc_str(e.0) + seq![':'] + enc_reqs(e.1)
}

/// The members of the guild-role object, comma separated.
pub open spec fn enc_role_entries(s: Seq<(Seq<char>, Seq<char>)>) -> Seq<char>
    decreases s.len(),
{
    if s.len() == 0 {
        Seq::<char>::empty()
    } else {
        enc_role_entries(s.drop_last()) + (if s.len() >= 2 {
            seq![',']
        } else {
            Seq::<char>::empty()
        }) + enc_role_pair(s.last())
    }
}

/// The members of the requirement object, comma separated.
pub open spec fn enc_req_entries(s: Seq<(Seq<char>, GuildReqsV)>) -> Seq<char>
    decreases s.len(),
{
    if s.len() == 0 {
        Seq::<char>::empty()
    } else {
        enc_req_entries(s.drop_last()) + (if s.len() >= 2 {
            seq![',']
        } else {
            Seq::<char>::empty()
        }) + enc_req_pair(s.last())
    }
}

/// The whole document.
pub open spec fn enc_config(c: ServerConfigV) -> Seq<char>
    recommends
        c.wf(),
{
    "{\"verified_role\":"@ + enc_str(c.verified_role) + ",\"guild_roles\":{"@ + enc_role_entries(
        c.guild_roles,
    ) + "},\"guild_reqs\":{"@ + enc_req_entries(c.guild_reqs) + "}}"@
}

/// Escaping distributes over concatenation.
pub proof fn lemma_esc_concat(a: Seq<char>, b: Seq<char>)
    ensures
        esc(a + b) == esc(a) + esc(b),
    decreases a.len(),
{
    if a.len() == 0 {
        assert(a + b =~= b);
        assert(esc(a) + esc(b) =~= esc(b));
    } else {
        lemma_esc_concat(a.drop_first(), b);
        assert((a + b).drop_first() =~= a.drop_first() + b);
        assert((a + b)[0] == a[0]);
        assert((a + b).len() > 0);
        assert(esc(a + b) == esc_char(a[0]) + esc((a + b).drop_first()));
        assert(esc((a + b).drop_first()) == esc(a.drop_first()) + esc(b));
        assert(esc(a) == esc_char(a[0]) + esc(a.drop_first()));
        assert(esc(a + b) =~= esc(a) + esc(b));
    }
}

/// Escaping one character.
proof fn lemma_esc_one(c: char)
    ensures
        esc(seq![c]) == esc_char(c),
{
    assert(seq![c].drop_first() =~= Seq::<char>::empty());
    assert(esc(Seq::<char>::empty()) == Seq::<char>::empty());
    assert(esc(seq![c]) == esc_char(seq![c][0]) + esc(Seq::<char>::empty()));
    assert(esc_char(c) + Seq::<char>::empty() =~= esc_char(c));
}

// ---------------------------------------------------------------------------
// The executable encoder
// ---------------------------------------------------------------------------

/// Append the escaped body of `s`.
fn push_escaped(out: &mut String, s: &String)
    ensures
        final(out)@ == old(out)@ + esc(s@),
{
    let chars = str_to_chars(s.as_str());
    let n = chars.len();
    let mut i: usize = 0;
    while i < n
        invariant
            0 <= i <= n,
            n == chars@.len(),
            chars@ == s@,
            out@ == old(out)@ + esc(s@.take(i as int)),
        decreases n - i,
    {
        let c = chars[i];
        if c == '"' {
            out.append("\\\"");
        } else if c == '\\' {
            out.append("\\\\");
        } else {
            crate::text::push_char(out, c);
        }
        proof {
            reveal_strlit("\\\"");
            reveal_strlit("\\\\");
            assert(s@.take(i + 1) =~= s@.take(i as int) + seq![s@[i as int]]);
            lemma_esc_concat(s@.take(i as int), seq![s@[i as int]]);
            lemma_esc_one(s@[i as int]);
            assert(out@ =~= old(out)@ + esc(s@.take(i + 1)));
        }
        i = i + 1;
    }
    proof {
        assert(s@.take(n as int) =~= s@);
    }
}

/// Append `s` quoted and escaped.
fn push_enc_str(out: &mut String, s: &String)
    ensures
        final(out)@ == old(out)@ + enc_str(s@),
{
    out.append("\"");
    push_escaped(out, s);
    out.append("\"");
    proof {
        reveal_strlit("\"");
        assert("\""@ =~= seq!['"']);
        assert(final(out)@ =~= old(out)@ + enc_str(s@));
    }
}

/// Append an encoded requirement record.
fn push_enc_reqs(out: &mut String, r: &GuildReqs)
    requires
        r@.wf(),
    ensures
        final(out)@ == old(out)@ + enc_reqs(r@),
{
    out.append("{\"slayer\":");
    let t1 = u64_to_string(r.slayer as u64);
    out.append(t1.as_str());
    out.append(",\"skills\":");
    let t2 = u64_to_string(r.skills as u64);
    out.append(t2.as_str());
    out.append(",\"catacombs\":");
    let t3 = u64_to_string(r.catacombs as u64);
    out.append(t3.as_str());
    out.append(",\"weight\":");
    let t4 = u64_to_string(r.weight as u64);
    out.append(t4.as_str());
    out.append("}");
    proof {
        assert(final(out)@ =~= old(out)@ + enc_reqs(r@));
    }
}

/// Render the settings document in its storage encoding.
pub fn encode_server_config(doc: &ServerConfig) -> (r: String)
    requires
        doc.wf(),
    ensures
        r@ == enc_config(doc@),
{
    let mut out = String::from_str("{\"verified_role\":");
    push_enc_str(&mut out, &doc.verified_role);
    out.append(",\"guild_roles\":{");
    let ghost base = out@;
    let n = doc.guild_roles.len();
    let mut i: usize = 0;
    while i < n
        invariant
            0 <= i <= n,
            n == doc.guild_roles.len(),
            doc.wf(),
            out@ == base + enc_role_entries(doc@.guild_roles.take(i as int)),
        decreases n - i,
    {
        proof {
            assert(doc@.guild_roles[i as int] == doc.guild_roles@[i as int]@);
            assert(doc@.guild_roles.take(i + 1).drop_last() =~= doc@.guild_roles.take(i as int));
            assert(doc@.guild_roles.take(i + 1).last() == doc@.guild_roles[i as int]);
        }
        if i > 0 {
            out.append(",");
            proof {
                reveal_strlit(",");
                assert(","@ =~= seq![',']);
            }
        }
        let entry = &doc.guild_roles[i];
        push_enc_str(&mut out, &entry.guild_id);
        out.append(":");
        push_enc_str(&mut out, &entry.role);
        proof {
            reveal_strlit(":");
            assert(":"@ =~= seq![':']);
            assert(out@ =~= base + enc_role_entries(doc@.guild_roles.take(i + 1)));
        }
        i = i + 1;
    }
    proof {
        assert(doc@.guild_roles.take(n as int) =~= doc@.guild_roles);
    }
    out.append("},\"guild_reqs\":{");
    let ghost base2 = out@;
    let m = doc.guild_reqs.len();
    let mut j: usize = 0;
    while j < m
        invariant
            0 <= j <= m,
            m == doc.guild_reqs.len(),
            doc.wf(),
            out@ == base2 + enc_req_entries(doc@.guild_reqs.take(j as int)),
        decreases m - j,
    {
        proof {
            assert(doc@.guild_reqs[j as int] == doc.guild_reqs@[j as int]@);
            assert(doc@.guild_reqs[j as int].1.wf());
            assert(doc@.guild_reqs.take(j + 1).drop_last() =~= doc@.guild_reqs.take(j as int));
            assert(doc@.guild_reqs.take(j + 1).last() == doc@.guild_reqs[j as int]);
        }
        if j > 0 {
            out.append(",");
            proof {
                reveal_strlit(",");
                assert(","@ =~= seq![',']);
            }
        }
        let entry = &doc.guild_reqs[j];
        push_enc_str(&mut out, &entry.guild_name);
        out.append(":");
        push_enc_reqs(&mut out, &entry.reqs);
        proof {
            reveal_strlit(":");
            assert(":"@ =~= seq![':']);
            assert(out@ =~= base2 + enc_req_entries(doc@.guild_reqs.take(j + 1)));
        }
        j = j + 1;
    }
    proof {
        assert(doc@.guild_reqs.take(m as int) =~= doc@.guild_reqs);
    }
    out.append("}}");
    proof {
        assert(out@ =~= enc_config(doc@));
    }
    out
}

// ---------------------------------------------------------------------------
// Parsing, at the specification level
// ---------------------------------------------------------------------------

/// Match a fixed literal at position `i`; the position after it.
pub open spec fn p_lit(s: Seq<char>, i: int, lit: Seq<char>) -> Option<int> {
    if 0 <= i && i + lit.len() <= s.len() && s.subrange(i, i + lit.len()) == lit {
        Some(i + lit.len())
    } else {
        None
    }
}

/// Parse a string body up to its closing quote, undoing the escapes; the
/// content and the position after the quote.
pub open spec fn p_str_body(s: Seq<char>, i: int) -> Option<(Seq<char>, int)>
    decreases s.len() - i,
{
    if i < 0 || i >= s.len() {
        None
    } else if s[i] == '"' {
        Some((Seq::<char>::empty(), i + 1))
    } else if s[i] == '\\' {
        if i + 1 < s.len() && (s[i + 1] == '"' || s[i + 1] == '\\') {
            match p_str_body(s, i + 2) {
                Some(p) => Some((seq![s[i + 1]] + p.0, p.1)),
                None => None,
            }
        } else {
            None
        }
    } else {
        match p_str_body(s, i + 1) {
            Some(p) => Some((seq![s[i]] + p.0, p.1)),
            None => None,
        }
    }
}

/// Parse a quoted string.
pub open spec fn p_string(s: Seq<char>, i: int) -> Option<(Seq<char>, int)> {
    if 0 <= i < s.len() && s[i] == '"' {
        p_str_body(s, i + 1)
    } else {
        None
    }
}

/// The position after the run of digits starting at `i`.
pub open spec fn digit_run_end(s: Seq<char>, i: int) -> int
    decreases s.len() - i,
{
    if 0 <= i < s.len() && is_digit(s[i]) {
        digit_run_end(s, i + 1)
    } else {
        i
    }
}

/// Parse a non-negative number that fits a threshold field.
pub open spec fn p_nat(s: Seq<char>, i: int) -> Option<(int, int)> {
    let e = digit_run_end(s, i);
    if 0 <= i && e > i && dec_val(s.subrange(i, e)) <= i64::MAX {
        Some((dec_val(s.subrange(i, e)) as int, e))
    } else {
        None
    }
}

/// Parse a requirement record object.
pub open spec fn p_reqs(s: Seq<char>, i: int) -> Option<(GuildReqsV, int)> {
    match p_lit(s, i, "{\"slayer\":"@) {
        Some(j1) => match p_nat(s, j1) {
            Some((sl, j2)) => match p_lit(s, j2, ",\"skills\":"@) {
                Some(j3) => match p_nat(s, j3) {
                    Some((sk, j4)) => match p_lit(s, j4, ",\"catacombs\":"@) {
                        Some(j5) => match p_nat(s, j5) {
                            Some((ca, j6)) => match p_lit(s, j6, ",\"weight\":"@) {
                                Some(j7) => match p_nat(s, j7) {
                                    Some((w, j8)) => match p_lit(s, j8, "}"@) {
                                        Some(j9) => Some(
                                            (
                                                GuildReqsV {
                                                    slayer: sl,
                                                    skills: sk,
                                                    catacombs: ca,
                                                    weight: w,
                                                },
                                                j9,
                                            ),
                                        ),
                                        None => None,
                                    },
                                    None => None,
                                },
                                None => None,
                            },
                            None => None,
                        },
                        None => None,
                    },
                    None => None,
                },
                None => None,
            },
            None => None,
        },
        None => None,
    }
}

/// Parse one `"guild id":"role"` member.
pub open spec fn p_role_pair(s: Seq<char>, i: int) -> Option<((Seq<char>, Seq<char>), int)> {
    match p_string(s, i) {
        Some((k, j)) => if 0 <= j < s.len() && s[j] == ':' {
            match p_string(s, j + 1) {
                Some((v, j2)) => Some(((k, v), j2)),
                None => None,
            }
        } else {
            None
        },
        None => None,
    }
}

/// Parse the members after the first one: a comma before each, up to the
/// closing brace, which stays unconsumed.
pub open spec fn p_role_more(s: Seq<char>, i: int) -> Option<(Seq<(Seq<char>, Seq<char>)>, int)>
    decreases s.len() - i,
{
    if !(0 <= i < s.len()) {
        None
    } else if s[i] == '}' {
        Some((Seq::<(Seq<char>, Seq<char>)>::empty(), i))
    } else if s[i] == ',' {
        match p_role_pair(s, i + 1) {
            Some((e, j)) => if i + 1 < j && j <= s.len() {
                match p_role_more(s, j) {
                    Some((rest, j2)) => Some((seq![e] + rest, j2)),
                    None => None,
                }
            } else {
                None
            },
            None => None,
        }
    } else {
        None
    }
}

/// Parse all members of the guild-role object, leaving the closing brace.
pub open spec fn p_role_entries(s: Seq<char>, i: int) -> Option<
    (Seq<(Seq<char>, Seq<char>)>, int),
> {
    if 0 <= i < s.len() && s[i] == '}' {
        Some((Seq::<(Seq<char>, Seq<char>)>::empty(), i))
    } else {
        match p_role_pair(s, i) {
            Some((e, j)) => if i < j && j <= s.len() {
                match p_role_more(s, j) {
                    Some((rest, j2)) => Some((seq![e] + rest, j2)),
                    None => None,
                }
            } else {
                None
            },
            None => None,
        }
    }
}

/// Parse one `"guild name":{...}` member.
pub open spec fn p_req_pair(s: Seq<char>, i: int) -> Option<((Seq<char>, GuildReqsV), int)> {
    match p_string(s, i) {
        Some((k, j)) => if 0 <= j < s.len() && s[j] == ':' {
            match p_reqs(s, j + 1) {
                Some((v, j2)) => Some(((k, v), j2)),
                None => None,
            }
        } else {
            None
        },
        None => None,
    }
}

pub open spec fn p_req_more(s: Seq<char>, i: int) -> Option<(Seq<(Seq<char>, GuildReqsV)>, int)>
    decreases s.len() - i,
{
    if !(0 <= i < s.len()) {
        None
    } else if s[i] == '}' {
        Some((Seq::<(Seq<char>, GuildReqsV)>::empty(), i))
    } else if s[i] == ',' {
        match p_req_pair(s, i + 1) {
            Some((e, j)) => if i + 1 < j && j <= s.len() {
                match p_req_more(s, j) {
                    Some((rest, j2)) => Some((seq![e] + rest, j2)),
                    None => None,
                }
            } else {
                None
            },
            None => None,
        }
    } else {
        None
    }
}

pub open spec fn p_req_entries(s: Seq<char>, i: int) -> Option<
    (Seq<(Seq<char>, GuildReqsV)>, int),
> {
    if 0 <= i < s.len() && s[i] == '}' {
        Some((Seq::<(Seq<char>, GuildReqsV)>::empty(), i))
    } else {
        match p_req_pair(s, i) {
            Some((e, j)) => if i < j && j <= s.len() {
                match p_req_more(s, j) {
                    Some((rest, j2)) => Some((seq![e] + rest, j2)),
                    None => None,
                }
            } else {
                None
            },
            None => None,
        }
    }
}

/// Parse a whole stored document.  The bare empty object, which a fresh
/// deployment starts from, denotes the empty document; everything else
/// must be exactly the encoder's shape, with each guild named at most
/// once.
pub open spec fn p_config(s: Seq<char>) -> Option<ServerConfigV> {
    if s == "{}"@ {
        Some(ServerConfigV::empty())
    } else {
        match p_lit(s, 0, "{\"verified_role\":"@) {
            Some(j0) => match p_string(s, j0) {
                Some((vr, j1)) => match p_lit(s, j1, ",\"guild_roles\":{"@) {
                    Some(j2) => match p_role_entries(s, j2) {
                        Some((roles, j3)) => match p_lit(s, j3, "},\"guild_reqs\":{"@) {
                            Some(j4) => match p_req_entries(s, j4) {
                                Some((reqs, j5)) => match p_lit(s, j5, "}}"@) {
                                    Some(j6) => if j6 == s.len() && assoc_keys_unique(roles)
                                        && assoc_keys_unique(reqs) {
                                        Some(
                                            ServerConfigV {
                                                verified_role: vr,
                                                guild_roles: roles,
                                                guild_reqs: reqs,
                                            },
                                        )
                                    } else {
                                        None
                                    },
                                    None => None,
                                },
                                None => None,
                            },
                            None => None,
                        },
                        None => None,
                    },
                    None => None,
                },
                None => None,
            },
            None => None,
        }
    }
}

// ---------------------------------------------------------------------------
// The executable parser
// ---------------------------------------------------------------------------

fn e_lit(s: &Vec<char>, i: usize, lit: &str) -> (r: Option<usize>)
    requires
        i <= s@.len(),
    ensures
        match r {
            Some(j) => p_lit(s@, i as int, lit@) == Some(j as int) && i <= j <= s@.len(),
            None => p_lit(s@, i as int, lit@) is None,
        },
{
    let n = lit.unicode_len();
    let total = s.len();
    if total - i < n {
        return None;
    }
    let mut k: usize = 0;
    while k < n
        invariant
            0 <= k <= n,
            n == lit@.len(),
            i + n <= total,
            total == s@.len(),
            forall|m: int| 0 <= m < k ==> s@[i + m] == lit@[m],
        decreases n - k,
    {
        if s[i + k] != lit.get_char(k) {
            proof {
                assert(s@.subrange(i as int, i + lit@.len())[k as int] != lit@[k as int]);
            }
            return None;
        }
        k = k + 1;
    }
    proof {
        assert(s@.subrange(i as int, i + lit@.len()) =~= lit@);
    }
    Some(i + n)
}

fn e_str_body(s: &Vec<char>, i: usize) -> (r: Option<(Vec<char>, usize)>)
    requires
        i <= s@.len(),
    ensures
        match r {
            Some(p) => p_str_body(s@, i as int) == Some((p.0@, p.1 as int)) && i < p.1
                <= s@.len(),
            None => p_str_body(s@, i as int) is None,
        },
    decreases s@.len() - i,
{
    if i >= s.len() {
        return None;
    }
    let c = s[i];
    if c == '"' {
        let empty: Vec<char> = Vec::new();
        proof {
            assert(empty@ =~= Seq::<char>::empty());
        }
        return Some((empty, i + 1));
    }
    if c == '\\' {
        if i + 1 < s.len() && (s[i + 1] == '"' || s[i + 1] == '\\') {
            match e_str_body(s, i + 2) {
                Some(p) => {
                    let (mut t, j) = p;
                    t.insert(0, s[i + 1]);
                    proof {
                        assert(t@ =~= seq![s@[i + 1]] + p_str_body(s@, i + 2)->Some_0.0);
                    }
                    Some((t, j))
                },
                None => None,
            }
        } else {
            None
        }
    } else {
        match e_str_body(s, i + 1) {
            Some(p) => {
                let (mut t, j) = p;
                t.insert(0, c);
                proof {
                    assert(t@ =~= seq![s@[i as int]] + p_str_body(s@, i + 1)->Some_0.0);
                }
                Some((t, j))
            },
            None => None,
        }
    }
}

fn e_string(s: &Vec<char>, i: usize) -> (r: Option<(Vec<char>, usize)>)
    requires
        i <= s@.len(),
    ensures
        match r {
            Some(p) => p_string(s@, i as int) == Some((p.0@, p.1 as int)) && i < p.1 <= s@.len(),
            None => p_string(s@, i as int) is None,
        },
{
    if i < s.len() && s[i] == '"' {
        e_str_body(s, i + 1)
    } else {
        None
    }
}

fn digit_at(s: &Vec<char>, e: usize) -> (b: bool)
    requires
        e < s@.len(),
    ensures
        b == is_digit(s@[e as int]),
{
    let u: u32 = s[e] as u32;
    48 <= u && u <= 57
}

fn e_nat(s: &Vec<char>, i: usize) -> (r: Option<(i64, usize)>)
    requires
        i <= s@.len(),
    ensures
        match r {
            Some(p) => p_nat(s@, i as int) == Some((p.0 as int, p.1 as int)) && i < p.1
                <= s@.len() && p.0 >= 0,
            None => p_nat(s@, i as int) is None,
        },
{
    let mut e: usize = i;
    while e < s.len() && digit_at(s, e)
        invariant
            i <= e <= s@.len(),
            forall|m: int| i <= m < e ==> is_digit(#[trigger] s@[m]),
            digit_run_end(s@, i as int) == digit_run_end(s@, e as int),
        decreases s@.len() - e,
    {
        proof {
            assert(is_digit(s@[e as int]));
            assert(digit_run_end(s@, e as int) == digit_run_end(s@, e + 1));
        }
        e = e + 1;
    }
    proof {
        assert(digit_run_end(s@, e as int) == e);
    }
    if e == i {
        return None;
    }
    let digits = sub_chars(s, i, e);
    proof {
        assert(forall|m: int| 0 <= m < digits@.len() ==> is_digit(#[trigger] digits@[m])) by {
            assert(forall|m: int|
                0 <= m < digits@.len() ==> digits@[m] == s@[i + m] && is_digit(
                    #[trigger] s@[i + m],
                ));
        }
    }
    match parse_u64_chars(&digits) {
        Some(v) => {
            if v <= i64::MAX as u64 {
                Some((v as i64, e))
            } else {
                None
            }
        },
        None => None,
    }
}

fn e_reqs(s: &Vec<char>, i: usize) -> (r: Option<(GuildReqs, usize)>)
    requires
        i <= s@.len(),
    ensures
        match r {
            Some(p) => p_reqs(s@, i as int) == Some((p.0@, p.1 as int)) && i < p.1 <= s@.len()
                && p.0@.wf(),
            None => p_reqs(s@, i as int) is None,
        },
{
    let j1 = match e_lit(s, i, "{\"slayer\":") {
        Some(j) => j,
        None => {
            return None;
        },
    };
    let (sl, j2) = match e_nat(s, j1) {
        Some(p) => p,
        None => {
            return None;
        },
    };
    let j3 = match e_lit(s, j2, ",\"skills\":") {
        Some(j) => j,
        None => {
            return None;
        },
    };
    let (sk, j4) = match e_nat(s, j3) {
        Some(p) => p,
        None => {
            return None;
        },
    };
    let j5 = match e_lit(s, j4, ",\"catacombs\":") {
        Some(j) => j,
        None => {
            return None;
        },
    };
    let (ca, j6) = match e_nat(s, j5) {
        Some(p) => p,
        None => {
            return None;
        },
    };
    let j7 = match e_lit(s, j6, ",\"weight\":") {
        Some(j) => j,
        None => {
            return None;
        },
    };
    let (w, j8) = match e_nat(s, j7) {
        Some(p) => p,
        None => {
            return None;
        },
    };
    let j9 = match e_lit(s, j8, "}") {
        Some(j) => j,
        None => {
            return None;
        },
    };
    Some((GuildReqs { slayer: sl, skills: sk, catacombs: ca, weight: w }, j9))
}

fn e_role_pair(s: &Vec<char>, i: usize) -> (r: Option<(RoleEntry, usize)>)
    requires
        i <= s@.len(),
    ensures
        match r {
            Some(p) => p_role_pair(s@, i as int) == Some((p.0@, p.1 as int)) && i < p.1
                <= s@.len(),
            None => p_role_pair(s@, i as int) is None,
        },
{
    let (k, j) = match e_string(s, i) {
        Some(p) => p,
        None => {
            return None;
        },
    };
    if j < s.len() && s[j] == ':' {
        let (v, j2) = match e_string(s, j + 1) {
            Some(p) => p,
            None => {
                return None;
            },
        };
        let entry = RoleEntry { guild_id: chars_to_string(&k), role: chars_to_string(&v) };
        Some((entry, j2))
    } else {
        None
    }
}

fn e_role_more(s: &Vec<char>, i: usize) -> (r: Option<(Vec<RoleEntry>, usize)>)
    requires
        i <= s@.len(),
    ensures
        match r {
            Some(p) => p_role_more(s@, i as int) == Some(
                (p.0@.map_values(|e: RoleEntry| e@), p.1 as int),
            ) && p.1 <= s@.len(),
            None => p_role_more(s@, i as int) is None,
        },
    decreases s@.len() - i,
{
    if i >= s.len() {
        return None;
    }
    if s[i] == '}' {
        let empty: Vec<RoleEntry> = Vec::new();
        proof {
            assert(empty@.map_values(|e: RoleEntry| e@) =~= Seq::<(Seq<char>, Seq<char>)>::empty());
        }
        return Some((empty, i));
    }
    if s[i] == ',' {
        let (entry, j) = match e_role_pair(s, i + 1) {
            Some(p) => p,
            None => {
                return None;
            },
        };
        match e_role_more(s, j) {
            Some(p) => {
                let (mut rest, j2) = p;
                let ghost restv = rest@.map_values(|e: RoleEntry| e@);
                let ghost entryv = entry@;
                rest.insert(0, entry);
                proof {
                    assert(rest@.map_values(|e: RoleEntry| e@) =~= seq![entryv] + restv);
                }
                Some((rest, j2))
            },
            None => None,
        }
    } else {
        None
    }
}

fn e_role_entries(s: &Vec<char>, i: usize) -> (r: Option<(Vec<RoleEntry>, usize)>)
    requires
        i <= s@.len(),
    ensures
        match r {
            Some(p) => p_role_entries(s@, i as int) == Some(
                (p.0@.map_values(|e: RoleEntry| e@), p.1 as int),
            ) && p.1 <= s@.len(),
            None => p_role_entries(s@, i as int) is None,
        },
{
    if i < s.len() && s[i] == '}' {
        let empty: Vec<RoleEntry> = Vec::new();
        proof {
            assert(empty@.map_values(|e: RoleEntry| e@) =~= Seq::<(Seq<char>, Seq<char>)>::empty());
        }
        return Some((empty, i));
    }
    let (entry, j) = match e_role_pair(s, i) {
        Some(p) => p,
        None => {
            return None;
        },
    };
    match e_role_more(s, j) {
        Some(p) => {
            let (mut rest, j2) = p;
            let ghost restv = rest@.map_values(|e: RoleEntry| e@);
            let ghost entryv = entry@;
            rest.insert(0, entry);
            proof {
                assert(rest@.map_values(|e: RoleEntry| e@) =~= seq![entryv] + restv);
            }
            Some((rest, j2))
        },
        None => None,
    }
}

fn e_req_pair(s: &Vec<char>, i: usize) -> (r: Option<(ReqEntry, usize)>)
    requires
        i <= s@.len(),
    ensures
        match r {
            Some(p) => p_req_pair(s@, i as int) == Some((p.0@, p.1 as int)) && i < p.1
                <= s@.len() && p.0.reqs@.wf(),
            None => p_req_pair(s@, i as int) is None,
        },
{
    let (k, j) = match e_string(s, i) {
        Some(p) => p,
        None => {
            return None;
        },
    };
    if j < s.len() && s[j] == ':' {
        let (v, j2) = match e_reqs(s, j + 1) {
            Some(p) => p,
            None => {
                return None;
            },
        };
        let entry = ReqEntry { guild_name: chars_to_string(&k), reqs: v };
        Some((entry, j2))
    } else {
        None
    }
}

fn e_req_more(s: &Vec<char>, i: usize) -> (r: Option<(Vec<ReqEntry>, usize)>)
    requires
        i <= s@.len(),
    ensures
        match r {
            Some(p) => p_req_more(s@, i as int) == Some(
                (p.0@.map_values(|e: ReqEntry| e@), p.1 as int),
            ) && p.1 <= s@.len() && (forall|m: int|
                0 <= m < p.0@.len() ==> (#[trigger] p.0@[m]).reqs@.wf()),
            None => p_req_more(s@, i as int) is None,
        },
    decreases s@.len() - i,
{
    if i >= s.len() {
        return None;
    }
    if s[i] == '}' {
        let empty: Vec<ReqEntry> = Vec::new();
        proof {
            assert(empty@.map_values(|e: ReqEntry| e@) =~= Seq::<(Seq<char>, GuildReqsV)>::empty());
        }
        return Some((empty, i));
    }
    if s[i] == ',' {
        let (entry, j) = match e_req_pair(s, i + 1) {
            Some(p) => p,
            None => {
                return None;
            },
        };
        match e_req_more(s, j) {
            Some(p) => {
                let (mut rest, j2) = p;
                let ghost restv = rest@.map_values(|e: ReqEntry| e@);
                let ghost entryv = entry@;
                rest.insert(0, entry);
                proof {
                    assert(rest@.map_values(|e: ReqEntry| e@) =~= seq![entryv] + restv);
                }
                Some((rest, j2))
            },
            None => None,
        }
    } else {
        None
    }
}

fn e_req_entries(s: &Vec<char>, i: usize) -> (r: Option<(Vec<ReqEntry>, usize)>)
    requires
        i <= s@.len(),
    ensures
        match r {
            Some(p) => p_req_entries(s@, i as int) == Some(
                (p.0@.map_values(|e: ReqEntry| e@), p.1 as int),
            ) && p.1 <= s@.len() && (forall|m: int|
                0 <= m < p.0@.len() ==> (#[trigger] p.0@[m]).reqs@.wf()),
            None => p_req_entries(s@, i as int) is None,
        },
{
    if i < s.len() && s[i] == '}' {
        let empty: Vec<ReqEntry> = Vec::new();
        proof {
            assert(empty@.map_values(|e: ReqEntry| e@) =~= Seq::<(Seq<char>, GuildReqsV)>::empty());
        }
        return Some((empty, i));
    }
    let (entry, j) = match e_req_pair(s, i) {
        Some(p) => p,
        None => {
            return None;
        },
    };
    match e_req_more(s, j) {
        Some(p) => {
            let (mut rest, j2) = p;
            let ghost restv = rest@.map_values(|e: ReqEntry| e@);
            let ghost entryv = entry@;
            rest.insert(0, entry);
            proof {
                assert(rest@.map_values(|e: ReqEntry| e@) =~= seq![entryv] + restv);
            }
            Some((rest, j2))
        },
        None => None,
    }
}

/// No two role entries share a guild id.
fn role_keys_unique(v: &Vec<RoleEntry>) -> (b: bool)
    ensures
        b == assoc_keys_unique(v@.map_values(|e: RoleEntry| e@)),
{
    let ghost vv = v@.map_values(|e: RoleEntry| e@);
    let n = v.len();
    let mut i: usize = 0;
    while i < n
        invariant
            0 <= i <= n,
            n == v.len(),
            vv == v@.map_values(|e: RoleEntry| e@),
            forall|a: int, b2: int| 0 <= a < b2 < n && a < i ==> (#[trigger] vv[a]).0 != (
            #[trigger] vv[b2]).0,
        decreases n - i,
    {
        let mut j: usize = i + 1;
        while j < n
            invariant
                0 <= i < j <= n,
                n == v.len(),
                vv == v@.map_values(|e: RoleEntry| e@),
                forall|b2: int| i < b2 < j ==> (#[trigger] vv[b2]).0 != vv[i as int].0,
            decreases n - j,
        {
            if v[i].guild_id.eq(&v[j].guild_id) {
                proof {
                    assert(vv[i as int].0 == vv[j as int].0);
                }
                return false;
            }
            j = j + 1;
        }
        i = i + 1;
    }
    true
}

/// No two requirement entries share a guild name.
fn req_keys_unique(v: &Vec<ReqEntry>) -> (b: bool)
    ensures
        b == assoc_keys_unique(v@.map_values(|e: ReqEntry| e@)),
{
    let ghost vv = v@.map_values(|e: ReqEntry| e@);
    let n = v.len();
    let mut i: usize = 0;
    while i < n
        invariant
            0 <= i <= n,
            n == v.len(),
            vv == v@.map_values(|e: ReqEntry| e@),
            forall|a: int, b2: int| 0 <= a < b2 < n && a < i ==> (#[trigger] vv[a]).0 != (
            #[trigger] vv[b2]).0,
        decreases n - i,
    {
        let mut j: usize = i + 1;
        while j < n
            invariant
                0 <= i < j <= n,
                n == v.len(),
                vv == v@.map_values(|e: ReqEntry| e@),
                forall|b2: int| i < b2 < j ==> (#[trigger] vv[b2]).0 != vv[i as int].0,
            decreases n - j,
        {
            if v[i].guild_name.eq(&v[j].guild_name) {
                proof {
                    assert(vv[i as int].0 == vv[j as int].0);
                }
                return false;
            }
            j = j + 1;
        }
        i = i + 1;
    }
    true
}

/// Read a stored document back.  Exactly the encoder's shape is accepted,
/// plus the bare empty object; anything else is rejected.
pub fn parse_server_config(text: &str) -> (r: Option<ServerConfig>)
    ensures
        match r {
            Some(c) => p_config(text@) == Some(c@) && c.wf(),
            None => p_config(text@) is None,
        },
{
    let s = str_to_chars(text);
    if chars_eq_lit(&s, "{}") {
        let c = ServerConfig::new();
        return Some(c);
    }
    let j0 = match e_lit(&s, 0, "{\"verified_role\":") {
        Some(j) => j,
        None => {
            return None;
        },
    };
    let (vr, j1) = match e_string(&s, j0) {
        Some(p) => p,
        None => {
            return None;
        },
    };
    let j2 = match e_lit(&s, j1, ",\"guild_roles\":{") {
        Some(j) => j,
        None => {
            return None;
        },
    };
    let (roles, j3) = match e_role_entries(&s, j2) {
        Some(p) => p,
        None => {
            return None;
        },
    };
    let j4 = match e_lit(&s, j3, "},\"guild_reqs\":{") {
        Some(j) => j,
        None => {
            return None;
        },
    };
    let (reqs, j5) = match e_req_entries(&s, j4) {
        Some(p) => p,
        None => {
            return None;
        },
    };
    let j6 = match e_lit(&s, j5, "}}") {
        Some(j) => j,
        None => {
            return None;
        },
    };
    if j6 != s.len() {
        return None;
    }
    if !role_keys_unique(&roles) {
        return None;
    }
    if !req_keys_unique(&reqs) {
        return None;
    }
    let c = ServerConfig { verified_role: chars_to_string(&vr), guild_roles: roles, guild_reqs: reqs };
    proof {
        assert(c@.guild_roles == p_config(text@)->Some_0.guild_roles);
        assert(c@ =~= p_config(text@)->Some_0);
    }
    Some(c)
}

// ---------------------------------------------------------------------------
// Round trip: parsing what the encoder wrote gives the document back
// ---------------------------------------------------------------------------

/// One character inside a matched window.
proof fn lemma_char_at(s: Seq<char>, i: int, w: Seq<char>, m: int)
    requires
        0 <= i,
        i + w.len() <= s.len(),
        s.subrange(i, i + w.len()) == w,
        0 <= m < w.len(),
    ensures
        s[i + m] == w[m],
{
    assert(s.subrange(i, i + w.len())[m] == s[i + m]);
}

/// A part of a matched window is itself matched, at its offset.
proof fn lemma_window(s: Seq<char>, i: int, w: Seq<char>, off: int, part: Seq<char>)
    requires
        0 <= i,
        i + w.len() <= s.len(),
        s.subrange(i, i + w.len()) == w,
        0 <= off,
        off + part.len() <= w.len(),
        w.subrange(off, off + part.len()) == part,
    ensures
        s.subrange(i + off, i + off + part.len()) == part,
{
    assert forall|m: int| 0 <= m < part.len() implies s.subrange(
        i + off,
        i + off + part.len(),
    )[m] == part[m] by {
        lemma_char_at(s, i, w, off + m);
        assert(s.subrange(i + off, i + off + part.len())[m] == s[i + off + m]);
        assert(s[i + off + m] == s[i + (off + m)]);
        assert(w.subrange(off, off + part.len())[m] == w[off + m]);
    }
    assert(s.subrange(i + off, i + off + part.len()) =~= part);
}

/// Splitting a matched concatenation into its two parts.
proof fn lemma_prefix_at(s: Seq<char>, i: int, a: Seq<char>, b: Seq<char>)
    requires
        0 <= i,
        i + a.len() + b.len() <= s.len(),
        s.subrange(i, i + a.len() + b.len()) == a + b,
    ensures
        s.subrange(i, i + a.len()) == a,
        s.subrange(i + a.len(), i + a.len() + b.len()) == b,
{
    assert((a + b).subrange(0, a.len() as int) =~= a);
    assert((a + b).subrange(a.len() as int, (a.len() + b.len()) as int) =~= b);
    lemma_window(s, i, a + b, 0, a);
    lemma_window(s, i, a + b, a.len() as int, b);
    assert(s.subrange(i + 0, i + 0 + a.len()) == s.subrange(i, i + a.len()));
}

/// A literal that stands at `i` is matched there.
proof fn lemma_p_lit_at(s: Seq<char>, i: int, lit: Seq<char>)
    requires
        0 <= i,
        i + lit.len() <= s.len(),
        s.subrange(i, i + lit.len()) == lit,
    ensures
        p_lit(s, i, lit) == Some(i + lit.len()),
{
}

/// An escaped body followed by its closing quote parses back to the
/// original string.
proof fn lemma_p_str_body_esc(s: Seq<char>, i: int, t: Seq<char>)
    requires
        0 <= i,
        i + esc(t).len() + 1 <= s.len(),
        s.subrange(i, i + esc(t).len() + 1) == esc(t) + seq!['"'],
    ensures
        p_str_body(s, i) == Some((t, i + esc(t).len() + 1)),
    decreases t.len(),
{
    let w = esc(t) + seq!['"'];
    if t.len() == 0 {
        assert(esc(t).len() == 0);
        lemma_char_at(s, i, w, 0);
        assert(s[i + 0] == s[i]);
        assert(w[0] == '"');
    } else {
        let c = t[0];
        let t2 = t.drop_first();
        assert(esc(t) == esc_char(c) + esc(t2));
        lemma_esc_one(c);
        assert(w =~= esc_char(c) + (esc(t2) + seq!['"']));
        lemma_prefix_at(s, i, esc_char(c), esc(t2) + seq!['"']);
        if c == '"' || c == '\\' {
            assert(esc_char(c) == seq!['\\', c]);
            lemma_char_at(s, i, esc_char(c), 0);
            lemma_char_at(s, i, esc_char(c), 1);
            assert(s[i + 0] == s[i]);
            assert(s[i] == '\\');
            assert(s[i + 1] == c);
            lemma_p_str_body_esc(s, i + 2, t2);
            assert(p_str_body(s, i) == Some((seq![s[i + 1]] + t2, i + esc(t).len() + 1)));
            assert(seq![s[i + 1]] + t2 =~= t);
        } else {
            assert(esc_char(c) == seq![c]);
            lemma_char_at(s, i, esc_char(c), 0);
            assert(s[i + 0] == s[i]);
            assert(s[i] == c);
            lemma_p_str_body_esc(s, i + 1, t2);
            assert(p_str_body(s, i) == Some((seq![s[i]] + t2, i + esc(t).len() + 1)));
            assert(seq![s[i]] + t2 =~= t);
        }
    }
}

/// An encoded string standing at `i` parses back to the original.
proof fn lemma_p_string_enc(s: Seq<char>, i: int, t: Seq<char>)
    requires
        0 <= i,
        i + enc_str(t).len() <= s.len(),
        s.subrange(i, i + enc_str(t).len()) == enc_str(t),
    ensures
        p_string(s, i) == Some((t, i + enc_str(t).len())),
        enc_str(t).len() >= 2,
{
    assert(enc_str(t) =~= seq!['"'] + (esc(t) + seq!['"']));
    lemma_prefix_at(s, i, seq!['"'], esc(t) + seq!['"']);
    lemma_char_at(s, i, seq!['"'], 0);
    assert(s[i + 0] == s[i]);
    assert(s[i] == '"');
    lemma_p_str_body_esc(s, i + 1, t);
}

/// A run of digits bounded by a non-digit ends where it ends.
proof fn lemma_digit_run(s: Seq<char>, i: int, e: int)
    requires
        0 <= i <= e <= s.len(),
        forall|m: int| i <= m < e ==> is_digit(#[trigger] s[m]),
        e == s.len() || !is_digit(s[e]),
    ensures
        digit_run_end(s, i) == e,
    decreases e - i,
{
    if i < e {
        lemma_digit_run(s, i + 1, e);
    }
}

/// An encoded number standing at `i`, followed by a non-digit, parses back
/// to the number.
proof fn lemma_p_nat_enc(s: Seq<char>, i: int, n: nat)
    requires
        0 <= i,
        n <= i64::MAX,
        i + spec_dec(n).len() <= s.len(),
        s.subrange(i, i + spec_dec(n).len()) == spec_dec(n),
        i + spec_dec(n).len() == s.len() || !is_digit(s[i + spec_dec(n).len()]),
    ensures
        p_nat(s, i) == Some((n as int, i + spec_dec(n).len())),
{
    let d = spec_dec(n);
    lemma_spec_dec_digits(n);
    lemma_dec_val_spec_dec(n);
    assert forall|m: int| i <= m < i + d.len() implies is_digit(#[trigger] s[m]) by {
        assert(s.subrange(i, i + d.len())[m - i] == s[m]);
        assert(d[m - i] == s[m]);
    }
    lemma_digit_run(s, i, i + d.len());
}

/// An encoded requirement record standing at `i` parses back to the
/// record.
proof fn lemma_p_reqs_enc(s: Seq<char>, i: int, r: GuildReqsV)
    requires
        r.wf(),
        0 <= i,
        i + enc_reqs(r).len() <= s.len(),
        s.subrange(i, i + enc_reqs(r).len()) == enc_reqs(r),
    ensures
        p_reqs(s, i) == Some((r, i + enc_reqs(r).len())),
        enc_reqs(r).len() >= 1,
    {
    reveal_strlit("{\"slayer\":");
    reveal_strlit(",\"skills\":");
    reveal_strlit(",\"catacombs\":");
    reveal_strlit(",\"weight\":");
    reveal_strlit("}");
    let l1 = "{\"slayer\":"@;
    let d1 = spec_dec(r.slayer as nat);
    let l2 = ",\"skills\":"@;
    let d2 = spec_dec(r.skills as nat);
    let l3 = ",\"catacombs\":"@;
    let d3 = spec_dec(r.catacombs as nat);
    let l4 = ",\"weight\":"@;
    let d4 = spec_dec(r.weight as nat);
    let l5 = "}"@;
    let w = enc_reqs(r);
    assert(w =~= l1 + (d1 + (l2 + (d2 + (l3 + (d3 + (l4 + (d4 + l5))))))));
    lemma_prefix_at(s, i, l1, d1 + (l2 + (d2 + (l3 + (d3 + (l4 + (d4 + l5)))))));
    lemma_p_lit_at(s, i, l1);
    let i1 = i + l1.len() as int;
    lemma_prefix_at(s, i1, d1, l2 + (d2 + (l3 + (d3 + (l4 + (d4 + l5))))));
    let i2 = i1 + d1.len() as int;
    lemma_prefix_at(s, i2, l2, d2 + (l3 + (d3 + (l4 + (d4 + l5)))));
    lemma_char_at(s, i2, l2, 0);
    assert(s[i2 + 0] == s[i2]);
    assert(!is_digit(s[i2]));
    lemma_p_nat_enc(s, i1, r.slayer as nat);
    lemma_p_lit_at(s, i2, l2);
    let i3 = i2 + l2.len() as int;
    lemma_prefix_at(s, i3, d2, l3 + (d3 + (l4 + (d4 + l5))));
    let i4 = i3 + d2.len() as int;
    lemma_prefix_at(s, i4, l3, d3 + (l4 + (d4 + l5)));
    lemma_char_at(s, i4, l3, 0);
    assert(s[i4 + 0] == s[i4]);
    assert(!is_digit(s[i4]));
    lemma_p_nat_enc(s, i3, r.skills as nat);
    lemma_p_lit_at(s, i4, l3);
    let i5 = i4 + l3.len() as int;
    lemma_prefix_at(s, i5, d3, l4 + (d4 + l5));
    let i6 = i5 + d3.len() as int;
    lemma_prefix_at(s, i6, l4, d4 + l5);
    lemma_char_at(s, i6, l4, 0);
    assert(s[i6 + 0] == s[i6]);
    assert(!is_digit(s[i6]));
    lemma_p_nat_enc(s, i5, r.catacombs as nat);
    lemma_p_lit_at(s, i6, l4);
    let i7 = i6 + l4.len() as int;
    lemma_prefix_at(s, i7, d4, l5);
    let i8 = i7 + d4.len() as int;
    lemma_char_at(s, i8, l5, 0);
    assert(s[i8 + 0] == s[i8]);
    assert(!is_digit(s[i8]));
    lemma_p_nat_enc(s, i7, r.weight as nat);
    lemma_p_lit_at(s, i8, l5);
    assert(p_reqs(s, i) == Some((GuildReqsV { slayer: r.slayer, skills: r.skills, catacombs: r.catacombs, weight: r.weight }, i8 + l5.len() as int)));
    assert(GuildReqsV { slayer: r.slayer, skills: r.skills, catacombs: r.catacombs, weight: r.weight } == r);
}

/// An encoded guild-role member standing at `i` parses back.
proof fn lemma_p_role_pair_enc(s: Seq<char>, i: int, e: (Seq<char>, Seq<char>))
    requires
        0 <= i,
        i + enc_role_pair(e).len() <= s.len(),
        s.subrange(i, i + enc_role_pair(e).len()) == enc_role_pair(e),
    ensures
        p_role_pair(s, i) == Some((e, i + enc_role_pair(e).len())),
        enc_role_pair(e).len() >= 5,
        s[i] == '"',
{
    let w = enc_role_pair(e);
    assert(w =~= enc_str(e.0) + (seq![':'] + enc_str(e.1)));
    lemma_prefix_at(s, i, enc_str(e.0), seq![':'] + enc_str(e.1));
    lemma_p_string_enc(s, i, e.0);
    let j = i + enc_str(e.0).len() as int;
    lemma_prefix_at(s, j, seq![':'], enc_str(e.1));
    lemma_char_at(s, j, seq![':'], 0);
    assert(s[j + 0] == s[j]);
    assert(s[j] == ':');
    lemma_p_string_enc(s, j + 1, e.1);
    lemma_char_at(s, i, enc_str(e.0), 0);
    assert(s[i + 0] == s[i]);
    assert((e.0, e.1) == e);
}

/// An encoded requirement member standing at `i` parses back.
proof fn lemma_p_req_pair_enc(s: Seq<char>, i: int, e: (Seq<char>, GuildReqsV))
    requires
        e.1.wf(),
        0 <= i,
        i + enc_req_pair(e).len() <= s.len(),
        s.subrange(i, i + enc_req_pair(e).len()) == enc_req_pair(e),
    ensures
        p_req_pair(s, i) == Some((e, i + enc_req_pair(e).len())),
        enc_req_pair(e).len() >= 4,
        s[i] == '"',
{
    let w = enc_req_pair(e);
    assert(w =~= enc_str(e.0) + (seq![':'] + enc_reqs(e.1)));
    lemma_prefix_at(s, i, enc_str(e.0), seq![':'] + enc_reqs(e.1));
    lemma_p_string_enc(s, i, e.0);
    let j = i + enc_str(e.0).len() as int;
    lemma_prefix_at(s, j, seq![':'], enc_reqs(e.1));
    lemma_char_at(s, j, seq![':'], 0);
    assert(s[j + 0] == s[j]);
    assert(s[j] == ':');
    lemma_p_reqs_enc(s, j + 1, e.1);
    lemma_char_at(s, i, enc_str(e.0), 0);
    assert(s[i + 0] == s[i]);
    assert((e.0, e.1) == e);
}

/// The members after the first, each behind a comma.
spec fn enc_role_more_seq(s: Seq<(Seq<char>, Seq<char>)>) -> Seq<char>
    decreases s.len(),
{
    if s.len() == 0 {
        Seq::<char>::empty()
    } else {
        enc_role_more_seq(s.drop_last()) + seq![','] + enc_role_pair(s.last())
    }
}

spec fn enc_req_more_seq(s: Seq<(Seq<char>, GuildReqsV)>) -> Seq<char>
    decreases s.len(),
{
    if s.len() == 0 {
        Seq::<char>::empty()
    } else {
        enc_req_more_seq(s.drop_last()) + seq![','] + enc_req_pair(s.last())
    }
}

/// The object members, read head first.
proof fn lemma_enc_role_entries_decomp(s: Seq<(Seq<char>, Seq<char>)>)
    requires
        s.len() > 0,
    ensures
        enc_role_entries(s) == enc_role_pair(s[0]) + enc_role_more_seq(s.drop_first()),
    decreases s.len(),
{
    if s.len() == 1 {
        assert(s.drop_last() =~= Seq::<(Seq<char>, Seq<char>)>::empty());
        assert(s.drop_first() =~= Seq::<(Seq<char>, Seq<char>)>::empty());
        assert(s.last() == s[0]);
        assert(enc_role_entries(Seq::<(Seq<char>, Seq<char>)>::empty())
            == Seq::<char>::empty());
        assert(enc_role_more_seq(Seq::<(Seq<char>, Seq<char>)>::empty())
            == Seq::<char>::empty());
        assert(enc_role_entries(s) =~= enc_role_pair(s[0]) + enc_role_more_seq(s.drop_first()));
    } else {
        lemma_enc_role_entries_decomp(s.drop_last());
        assert(s.drop_last().len() > 0);
        assert(s.drop_last()[0] == s[0]);
        assert(s.drop_last().drop_first() =~= s.drop_first().drop_last());
        assert(s.drop_first().last() == s.last());
        assert(s.drop_first().len() > 0);
        assert(enc_role_more_seq(s.drop_first()) == enc_role_more_seq(s.drop_first().drop_last())
            + seq![','] + enc_role_pair(s.drop_first().last()));
        assert(enc_role_entries(s) =~= enc_role_pair(s[0]) + enc_role_more_seq(s.drop_first()));
    }
}

proof fn lemma_enc_req_entries_decomp(s: Seq<(Seq<char>, GuildReqsV)>)
    requires
        s.len() > 0,
    ensures
        enc_req_entries(s) == enc_req_pair(s[0]) + enc_req_more_seq(s.drop_first()),
    decreases s.len(),
{
    if s.len() == 1 {
        assert(s.drop_last() =~= Seq::<(Seq<char>, GuildReqsV)>::empty());
        assert(s.drop_first() =~= Seq::<(Seq<char>, GuildReqsV)>::empty());
        assert(s.last() == s[0]);
        assert(enc_req_entries(Seq::<(Seq<char>, GuildReqsV)>::empty()) == Seq::<char>::empty());
        assert(enc_req_more_seq(Seq::<(Seq<char>, GuildReqsV)>::empty()) == Seq::<char>::empty());
        assert(enc_req_entries(s) =~= enc_req_pair(s[0]) + enc_req_more_seq(s.drop_first()));
    } else {
        lemma_enc_req_entries_decomp(s.drop_last());
        assert(s.drop_last().len() > 0);
        assert(s.drop_last()[0] == s[0]);
        assert(s.drop_last().drop_first() =~= s.drop_first().drop_last());
        assert(s.drop_first().last() == s.last());
        assert(s.drop_first().len() > 0);
        assert(enc_req_more_seq(s.drop_first()) == enc_req_more_seq(s.drop_first().drop_last())
            + seq![','] + enc_req_pair(s.drop_first().last()));
        assert(enc_req_entries(s) =~= enc_req_pair(s[0]) + enc_req_more_seq(s.drop_first()));
    }
}

/// The trailing members, read head first.
proof fn lemma_enc_role_more_decomp(s: Seq<(Seq<char>, Seq<char>)>)
    requires
        s.len() > 0,
    ensures
        enc_role_more_seq(s) == seq![','] + enc_role_pair(s[0]) + enc_role_more_seq(
            s.drop_first(),
        ),
    decreases s.len(),
{
    if s.len() == 1 {
        assert(s.drop_last() =~= Seq::<(Seq<char>, Seq<char>)>::empty());
        assert(s.drop_first() =~= Seq::<(Seq<char>, Seq<char>)>::empty());
        assert(s.last() == s[0]);
        assert(enc_role_more_seq(Seq::<(Seq<char>, Seq<char>)>::empty())
            == Seq::<char>::empty());
        assert(enc_role_more_seq(s) =~= seq![','] + enc_role_pair(s[0]) + enc_role_more_seq(
            s.drop_first(),
        ));
    } else {
        lemma_enc_role_more_decomp(s.drop_last());
        assert(s.drop_last().len() > 0);
        assert(s.drop_last()[0] == s[0]);
        assert(s.drop_last().drop_first() =~= s.drop_first().drop_last());
        assert(s.drop_first().last() == s.last());
        assert(s.drop_first().len() > 0);
        assert(enc_role_more_seq(s.drop_first()) == enc_role_more_seq(s.drop_first().drop_last())
            + seq![','] + enc_role_pair(s.drop_first().last()));
        assert(enc_role_more_seq(s) =~= seq![','] + enc_role_pair(s[0]) + enc_role_more_seq(
            s.drop_first(),
        ));
    }
}

proof fn lemma_enc_req_more_decomp(s: Seq<(Seq<char>, GuildReqsV)>)
    requires
        s.len() > 0,
    ensures
        enc_req_more_seq(s) == seq![','] + enc_req_pair(s[0]) + enc_req_more_seq(s.drop_first()),
    decreases s.len(),
{
    if s.len() == 1 {
        assert(s.drop_last() =~= Seq::<(Seq<char>, GuildReqsV)>::empty());
        assert(s.drop_first() =~= Seq::<(Seq<char>, GuildReqsV)>::empty());
        assert(s.last() == s[0]);
        assert(enc_req_more_seq(Seq::<(Seq<char>, GuildReqsV)>::empty()) == Seq::<char>::empty());
        assert(enc_req_more_seq(s) =~= seq![','] + enc_req_pair(s[0]) + enc_req_more_seq(
            s.drop_first(),
        ));
    } else {
        lemma_enc_req_more_decomp(s.drop_last());
        assert(s.drop_last().len() > 0);
        assert(s.drop_last()[0] == s[0]);
        assert(s.drop_last().drop_first() =~= s.drop_first().drop_last());
        assert(s.drop_first().last() == s.last());
        assert(s.drop_first().len() > 0);
        assert(enc_req_more_seq(s.drop_first()) == enc_req_more_seq(s.drop_first().drop_last())
            + seq![','] + enc_req_pair(s.drop_first().last()));
        assert(enc_req_more_seq(s) =~= seq![','] + enc_req_pair(s[0]) + enc_req_more_seq(
            s.drop_first(),
        ));
    }
}

/// The trailing members followed by the closing brace parse back.
proof fn lemma_p_role_more_enc(s: Seq<char>, i: int, entries: Seq<(Seq<char>, Seq<char>)>)
    requires
        0 <= i,
        i + enc_role_more_seq(entries).len() + 1 <= s.len(),
        s.subrange(i, i + enc_role_more_seq(entries).len() + 1) == enc_role_more_seq(entries)
            + seq!['}'],
    ensures
        p_role_more(s, i) == Some((entries, i + enc_role_more_seq(entries).len())),
    decreases entries.len(),
{
    if entries.len() == 0 {
        assert(enc_role_more_seq(entries) == Seq::<char>::empty());
        let w = enc_role_more_seq(entries) + seq!['}'];
        lemma_char_at(s, i, w, 0);
        assert(s[i + 0] == s[i]);
        assert(w[0] == '}');
        assert(p_role_more(s, i) == Some((Seq::<(Seq<char>, Seq<char>)>::empty(), i)));
        assert(Seq::<(Seq<char>, Seq<char>)>::empty() =~= entries);
    } else {
        lemma_enc_role_more_decomp(entries);
        let e0 = entries[0];
        let rest = entries.drop_first();
        let w = enc_role_more_seq(entries) + seq!['}'];
        assert(w =~= seq![','] + (enc_role_pair(e0) + (enc_role_more_seq(rest) + seq!['}'])));
        lemma_prefix_at(s, i, seq![','], enc_role_pair(e0) + (enc_role_more_seq(rest)
            + seq!['}']));
        lemma_char_at(s, i, seq![','], 0);
        assert(s[i + 0] == s[i]);
        assert(s[i] == ',');
        lemma_prefix_at(s, i + 1, enc_role_pair(e0), enc_role_more_seq(rest) + seq!['}']);
        lemma_p_role_pair_enc(s, i + 1, e0);
        let j = i + 1 + enc_role_pair(e0).len() as int;
        lemma_p_role_more_enc(s, j, rest);
        assert(p_role_more(s, i) == Some((seq![e0] + rest, i + enc_role_more_seq(entries).len())));
        assert(seq![e0] + rest =~= entries);
    }
}

proof fn lemma_p_req_more_enc(s: Seq<char>, i: int, entries: Seq<(Seq<char>, GuildReqsV)>)
    requires
        0 <= i,
        forall|m: int| 0 <= m < entries.len() ==> (#[trigger] entries[m]).1.wf(),
        i + enc_req_more_seq(entries).len() + 1 <= s.len(),
        s.subrange(i, i + enc_req_more_seq(entries).len() + 1) == enc_req_more_seq(entries)
            + seq!['}'],
    ensures
        p_req_more(s, i) == Some((entries, i + enc_req_more_seq(entries).len())),
    decreases entries.len(),
{
    if entries.len() == 0 {
        assert(enc_req_more_seq(entries) == Seq::<char>::empty());
        let w = enc_req_more_seq(entries) + seq!['}'];
        lemma_char_at(s, i, w, 0);
        assert(s[i + 0] == s[i]);
        assert(w[0] == '}');
        assert(p_req_more(s, i) == Some((Seq::<(Seq<char>, GuildReqsV)>::empty(), i)));
        assert(Seq::<(Seq<char>, GuildReqsV)>::empty() =~= entries);
    } else {
        lemma_enc_req_more_decomp(entries);
        let e0 = entries[0];
        let rest = entries.drop_first();
        assert(forall|m: int| 0 <= m < rest.len() ==> #[trigger] rest[m] == entries[m + 1]);
        let w = enc_req_more_seq(entries) + seq!['}'];
        assert(w =~= seq![','] + (enc_req_pair(e0) + (enc_req_more_seq(rest) + seq!['}'])));
        lemma_prefix_at(s, i, seq![','], enc_req_pair(e0) + (enc_req_more_seq(rest) + seq!['}']));
        lemma_char_at(s, i, seq![','], 0);
        assert(s[i + 0] == s[i]);
        assert(s[i] == ',');
        lemma_prefix_at(s, i + 1, enc_req_pair(e0), enc_req_more_seq(rest) + seq!['}']);
        assert(e0.1.wf());
        lemma_p_req_pair_enc(s, i + 1, e0);
        let j = i + 1 + enc_req_pair(e0).len() as int;
        lemma_p_req_more_enc(s, j, rest);
        assert(p_req_more(s, i) == Some((seq![e0] + rest, i + enc_req_more_seq(entries).len())));
        assert(seq![e0] + rest =~= entries);
    }
}

/// The whole member list followed by the closing brace parses back.
proof fn lemma_p_role_entries_enc(s: Seq<char>, i: int, entries: Seq<(Seq<char>, Seq<char>)>)
    requires
        0 <= i,
        i + enc_role_entries(entries).len() + 1 <= s.len(),
        s.subrange(i, i + enc_role_entries(entries).len() + 1) == enc_role_entries(entries)
            + seq!['}'],
    ensures
        p_role_entries(s, i) == Some((entries, i + enc_role_entries(entries).len())),
{
    if entries.len() == 0 {
        assert(enc_role_entries(entries) == Seq::<char>::empty());
        let w = enc_role_entries(entries) + seq!['}'];
        lemma_char_at(s, i, w, 0);
        assert(s[i + 0] == s[i]);
        assert(w[0] == '}');
        assert(p_role_entries(s, i) == Some((Seq::<(Seq<char>, Seq<char>)>::empty(), i)));
        assert(Seq::<(Seq<char>, Seq<char>)>::empty() =~= entries);
    } else {
        lemma_enc_role_entries_decomp(entries);
        let e0 = entries[0];
        let rest = entries.drop_first();
        let w = enc_role_entries(entries) + seq!['}'];
        assert(w =~= enc_role_pair(e0) + (enc_role_more_seq(rest) + seq!['}']));
        lemma_prefix_at(s, i, enc_role_pair(e0), enc_role_more_seq(rest) + seq!['}']);
        lemma_p_role_pair_enc(s, i, e0);
        assert(s[i] == '"');
        let j = i + enc_role_pair(e0).len() as int;
        lemma_p_role_more_enc(s, j, rest);
        assert(p_role_entries(s, i) == Some(
            (seq![e0] + rest, i + enc_role_entries(entries).len()),
        ));
        assert(seq![e0] + rest =~= entries);
    }
}

proof fn lemma_p_req_entries_enc(s: Seq<char>, i: int, entries: Seq<(Seq<char>, GuildReqsV)>)
    requires
        0 <= i,
        forall|m: int| 0 <= m < entries.len() ==> (#[trigger] entries[m]).1.wf(),
        i + enc_req_entries(entries).len() + 1 <= s.len(),
        s.subrange(i, i + enc_req_entries(entries).len() + 1) == enc_req_entries(entries)
            + seq!['}'],
    ensures
        p_req_entries(s, i) == Some((entries, i + enc_req_entries(entries).len())),
{
    if entries.len() == 0 {
        assert(enc_req_entries(entries) == Seq::<char>::empty());
        let w = enc_req_entries(entries) + seq!['}'];
        lemma_char_at(s, i, w, 0);
        assert(s[i + 0] == s[i]);
        assert(w[0] == '}');
        assert(p_req_entries(s, i) == Some((Seq::<(Seq<char>, GuildReqsV)>::empty(), i)));
        assert(Seq::<(Seq<char>, GuildReqsV)>::empty() =~= entries);
    } else {
        lemma_enc_req_entries_decomp(entries);
        let e0 = entries[0];
        let rest = entries.drop_first();
        assert(forall|m: int| 0 <= m < rest.len() ==> #[trigger] rest[m] == entries[m + 1]);
        let w = enc_req_entries(entries) + seq!['}'];
        assert(w =~= enc_req_pair(e0) + (enc_req_more_seq(rest) + seq!['}']));
        lemma_prefix_at(s, i, enc_req_pair(e0), enc_req_more_seq(rest) + seq!['}']);
        assert(e0.1.wf());
        lemma_p_req_pair_enc(s, i, e0);
        assert(s[i] == '"');
        let j = i + enc_req_pair(e0).len() as int;
        lemma_p_req_more_enc(s, j, rest);
        assert(p_req_entries(s, i) == Some(
            (seq![e0] + rest, i + enc_req_entries(entries).len()),
        ));
        assert(seq![e0] + rest =~= entries);
    }
}


/// A matched window followed by a closing brace, taken together.
proof fn lemma_extend_brace(s: Seq<char>, i: int, p: Seq<char>)
    requires
        0 <= i,
        i + p.len() + 1 <= s.len(),
        s.subrange(i, i + p.len()) == p,
        s[i + p.len()] == '}',
    ensures
        s.subrange(i, i + p.len() + 1) == p + seq!['}'],
{
    assert forall|m: int| 0 <= m < p.len() + 1 implies s.subrange(i, i + p.len() + 1)[m] == (p
        + seq!['}'])[m] by {
        if m < p.len() {
            lemma_char_at(s, i, p, m);
            assert(s.subrange(i, i + p.len() + 1)[m] == s[i + m]);
        } else {
            assert(s.subrange(i, i + p.len() + 1)[m] == s[i + p.len()]);
        }
    }
    assert(s.subrange(i, i + p.len() + 1) =~= p + seq!['}']);
}

/// Round trip: a well-formed document, encoded and parsed back, is the
/// same document, entry for entry and in the same order.
#[verifier::rlimit(100)]
pub proof fn lemma_config_round_trip(c: ServerConfigV)
    requires
        c.wf(),
    ensures
        p_config(enc_config(c)) == Some(c),
{
    reveal_strlit("{}");
    reveal_strlit("{\"verified_role\":");
    reveal_strlit(",\"guild_roles\":{");
    reveal_strlit("},\"guild_reqs\":{");
    reveal_strlit("}}");
    let s = enc_config(c);
    let l1 = "{\"verified_role\":"@;
    let p1 = enc_str(c.verified_role);
    let l2 = ",\"guild_roles\":{"@;
    let p2 = enc_role_entries(c.guild_roles);
    let l3 = "},\"guild_reqs\":{"@;
    let p3 = enc_req_entries(c.guild_reqs);
    let l4 = "}}"@;
    assert(s =~= l1 + (p1 + (l2 + (p2 + (l3 + (p3 + l4))))));
    assert(s.subrange(0, s.len() as int) =~= s);
    assert(s.len() != 2) by {
        assert(p1.len() >= 2);
    }
    assert(s != "{}"@);
    lemma_prefix_at(s, 0, l1, p1 + (l2 + (p2 + (l3 + (p3 + l4)))));
    lemma_p_lit_at(s, 0, l1);
    let j0 = l1.len() as int;
    lemma_prefix_at(s, j0, p1, l2 + (p2 + (l3 + (p3 + l4))));
    lemma_p_string_enc(s, j0, c.verified_role);
    let j1 = j0 + p1.len() as int;
    lemma_prefix_at(s, j1, l2, p2 + (l3 + (p3 + l4)));
    lemma_p_lit_at(s, j1, l2);
    let j2 = j1 + l2.len() as int;
    lemma_prefix_at(s, j2, p2, l3 + (p3 + l4));
    let j3 = j2 + p2.len() as int;
    lemma_prefix_at(s, j3, l3, p3 + l4);
    lemma_p_lit_at(s, j3, l3);
    lemma_char_at(s, j3, l3, 0);
    assert(s[j3 + 0] == s[j3]);
    assert(l3[0] == '}');
    lemma_extend_brace(s, j2, p2);
    lemma_p_role_entries_enc(s, j2, c.guild_roles);
    let j4 = j3 + l3.len() as int;
    lemma_prefix_at(s, j4, p3, l4);
    let j5 = j4 + p3.len() as int;
    lemma_p_lit_at(s, j5, l4);
    lemma_char_at(s, j5, l4, 0);
    assert(s[j5 + 0] == s[j5]);
    assert(l4[0] == '}');
    lemma_extend_brace(s, j4, p3);
    assert(forall|m: int| 0 <= m < c.guild_reqs.len() ==> (#[trigger] c.guild_reqs[m]).1.wf());
    lemma_p_req_entries_enc(s, j4, c.guild_reqs);
    let j6 = j5 + l4.len() as int;
    assert(j6 == s.len());
    assert(p_config(s) == Some(
        ServerConfigV {
            verified_role: c.verified_role,
            guild_roles: c.guild_roles,
            guild_reqs: c.guild_reqs,
        },
    ));
    assert(ServerConfigV {
        verified_role: c.verified_role,
        guild_roles: c.guild_roles,
        guild_reqs: c.guild_reqs,
    } == c);
}

} // verus!
