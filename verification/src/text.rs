//! Character-level helpers: decimal digits, case folding, tokenizing.

use vstd::prelude::*;
use vstd::string::StrSliceExecFns;

verus! {

// ---------------------------------------------------------------------------
// Decimal digits
// ---------------------------------------------------------------------------

/// Is `c` one of the characters '0' through '9'?
pub open spec fn is_digit(c: char) -> bool {
    48 <= c as u32 <= 57
}

/// The numeric value of a digit character.
pub open spec fn digit_val(c: char) -> nat
    recommends
        is_digit(c),
{
    (c as u32 - 48) as nat
}

/// The digit character for a value below ten.
pub open spec fn digit_char(d: nat) -> char
    recommends
        d < 10,
{
    if d == 0 {
        '0'
    } else if d == 1 {
        '1'
    } else if d == 2 {
        '2'
    } else if d == 3 {
        '3'
    } else if d == 4 {
        '4'
    } else if d == 5 {
        '5'
    } else if d == 6 {
        '6'
    } else if d == 7 {
        '7'
    } else if d == 8 {
        '8'
    } else {
        '9'
    }
}

/// Canonical decimal rendering of a natural number (no leading zeros).
pub open spec fn spec_dec(n: nat) -> Seq<char>
    decreases n,
{
    if n < 10 {
        seq![digit_char(n)]
    } else {
        spec_dec(n / 10).push(digit_char(n % 10))
    }
}

/// The value of a digit string, most significant digit first.
pub open spec fn dec_val(s: Seq<char>) -> nat
    decreases s.len(),
{
    if s.len() == 0 {
        0
    } else {
        dec_val(s.drop_last()) * 10 + digit_val(s.last())
    }
}

/// Every character of `s` is a decimal digit.
pub open spec fn all_digits(s: Seq<char>) -> bool {
    forall|i: int| 0 <= i < s.len() ==> is_digit(#[trigger] s[i])
}

/// What a digit string parses to as a `u64`: defined exactly when the string
/// is non-empty, all digits, and its value fits.
pub open spec fn spec_parse_u64(s: Seq<char>) -> Option<u64> {
    if s.len() > 0 && all_digits(s) && dec_val(s) <= u64::MAX {
        Some(dec_val(s) as u64)
    } else {
        None
    }
}

pub proof fn lemma_spec_dec_digits(n: nat)
    ensures
        spec_dec(n).len() >= 1,
        all_digits(spec_dec(n)),
    decreases n,
{
    if n >= 10 {
        lemma_spec_dec_digits(n / 10);
    }
}

proof fn lemma_digit_val_char(d: nat)
    requires
        d < 10,
    ensures
        digit_val(digit_char(d)) == d,
{
}

pub proof fn lemma_dec_val_spec_dec(n: nat)
    ensures
        dec_val(spec_dec(n)) == n,
    decreases n,
{
    if n < 10 {
        lemma_digit_val_char(n);
        assert(dec_val(Seq::<char>::empty()) == 0);
        assert(spec_dec(n) =~= seq![digit_char(n)]);
        assert(spec_dec(n).drop_last() =~= Seq::<char>::empty());
        assert(dec_val(spec_dec(n)) == dec_val(Seq::<char>::empty()) * 10 + digit_val(
            digit_char(n),
        ));
    } else {
        lemma_dec_val_spec_dec(n / 10);
        lemma_digit_val_char(n % 10);
        assert(spec_dec(n).drop_last() =~= spec_dec(n / 10));
        assert(spec_dec(n).last() == digit_char(n % 10));
        assert(n / 10 * 10 + n % 10 == n);
    }
}

pub(crate) fn digit_to_char(d: u64) -> (c: char)
    requires
        d < 10,
    ensures
        c == digit_char(d as nat),
{
    match d {
        0 => '0',
        1 => '1',
        2 => '2',
        3 => '3',
        4 => '4',
        5 => '5',
        6 => '6',
        7 => '7',
        8 => '8',
        _ => '9',
    }
}

/// Render `n` in decimal as a character vector.
pub fn u64_to_dec(n: u64) -> (r: Vec<char>)
    ensures
        r@ == spec_dec(n as nat),
    decreases n,
{
    if n < 10 {
        let mut v: Vec<char> = Vec::new();
        v.push(digit_to_char(n));
        proof {
            assert(v@ =~= spec_dec(n as nat));
        }
        v
    } else {
        let mut v = u64_to_dec(n / 10);
        v.push(digit_to_char(n % 10));
        proof {
            assert(v@ =~= spec_dec(n as nat));
        }
        v
    }
}

/// Parse a character vector as a decimal `u64`; `None` on anything that is
/// not a plain digit string whose value fits.
pub fn parse_u64_chars(s: &Vec<char>) -> (r: Option<u64>)
    ensures
        r == spec_parse_u64(s@),
{
    if s.len() == 0 {
        return None;
    }
    let mut acc: u64 = 0;
    let mut i: usize = 0;
    while i < s.len()
        invariant
            0 <= i <= s.len(),
            all_digits(s@.subrange(0, i as int)),
            acc == dec_val(s@.subrange(0, i as int)),
            dec_val(s@.subrange(0, i as int)) <= u64::MAX,
        decreases s.len() - i,
    {
        let c = s[i];
        let u: u32 = c as u32;
        if !(48 <= u && u <= 57) {
            proof {
                assert(!is_digit(s@[i as int]));
                assert(!all_digits(s@));
            }
            return None;
        }
        let d: u64 = (u - 48) as u64;
        proof {
            assert(s@.subrange(0, i + 1).drop_last() =~= s@.subrange(0, i as int));
            assert(s@.subrange(0, i + 1).last() == s@[i as int]);
        }
        if acc > (u64::MAX - d) / 10 {
            proof {
                lemma_dec_val_overflow(s@, i as int, d as nat);
            }
            return None;
        }
        acc = acc * 10 + d;
        i = i + 1;
    }
    proof {
        assert(s@.subrange(0, s@.len() as int) =~= s@);
    }
    Some(acc)
}

/// If the value of a prefix together with its next digit already exceeds
/// `u64::MAX`, the whole string's value does too.
proof fn lemma_dec_val_overflow(s: Seq<char>, i: int, d: nat)
    requires
        0 <= i < s.len(),
        is_digit(s[i]),
        d == digit_val(s[i]),
        dec_val(s.subrange(0, i)) * 10 + d > u64::MAX,
    ensures
        !(dec_val(s) <= u64::MAX),
{
    lemma_dec_val_prefix(s, i + 1);
    assert(s.subrange(0, i + 1).drop_last() =~= s.subrange(0, i));
    assert(s.subrange(0, i + 1).last() == s[i]);
    assert(dec_val(s.subrange(0, i + 1)) == dec_val(s.subrange(0, i)) * 10 + d);
}

/// The value of a string is at least the value of any of its prefixes.
proof fn lemma_dec_val_prefix(s: Seq<char>, i: int)
    requires
        0 <= i <= s.len(),
    ensures
        dec_val(s) >= dec_val(s.subrange(0, i)),
    decreases s.len() - i,
{
    if i < s.len() {
        lemma_dec_val_prefix(s, i + 1);
        assert(s.subrange(0, i + 1).drop_last() =~= s.subrange(0, i));
        assert(dec_val(s.subrange(0, i + 1)) == dec_val(s.subrange(0, i)) * 10 + digit_val(
            s.subrange(0, i + 1).last(),
        ));
    } else {
        assert(s.subrange(0, i) =~= s);
    }
}

// ---------------------------------------------------------------------------
// ASCII case folding
// ---------------------------------------------------------------------------

/// The code point of `c` with an ASCII capital letter folded to lower case.
pub open spec fn fold_u32(c: char) -> u32 {
    if 65 <= c as u32 <= 90 {
        (c as u32 + 32) as u32
    } else {
        c as u32
    }
}

/// Case-insensitive (ASCII) equality of two character sequences.
pub open spec fn fold_eq(a: Seq<char>, b: Seq<char>) -> bool {
    a.len() == b.len() && forall|i: int|
        0 <= i < a.len() ==> fold_u32(#[trigger] a[i]) == fold_u32(#[trigger] b[i])
}

fn fold_char(c: char) -> (r: u32)
    ensures
        r == fold_u32(c),
{
    let u: u32 = c as u32;
    if 65 <= u && u <= 90 {
        u + 32
    } else {
        u
    }
}

/// Does the token equal the (ASCII) word `lit`, ignoring letter case?
pub fn verb_eq(tok: &Vec<char>, lit: &str) -> (r: bool)
    ensures
        r == fold_eq(tok@, lit@),
{
    let n = lit.unicode_len();
    if tok.len() != n {
        return false;
    }
    let mut i: usize = 0;
    while i < n
        invariant
            0 <= i <= n,
            n == lit@.len(),
            tok@.len() == n,
            forall|j: int| 0 <= j < i ==> fold_u32(#[trigger] tok@[j]) == fold_u32(#[trigger] lit@[j]),
        decreases n - i,
    {
        if fold_char(tok[i]) != fold_char(lit.get_char(i)) {
            return false;
        }
        i = i + 1;
    }
    true
}

/// Exact equality of a token with a literal.
pub fn chars_eq_lit(tok: &Vec<char>, lit: &str) -> (r: bool)
    ensures
        r == (tok@ == lit@),
{
    let n = lit.unicode_len();
    if tok.len() != n {
        proof {
            assert(tok@ != lit@);
        }
        return false;
    }
    let mut i: usize = 0;
    while i < n
        invariant
            0 <= i <= n,
            n == lit@.len(),
            tok@.len() == n,
            forall|j: int| 0 <= j < i ==> #[trigger] tok@[j] == lit@[j],
        decreases n - i,
    {
        if tok[i] != lit.get_char(i) {
            proof {
                assert(tok@ != lit@);
            }
            return false;
        }
        i = i + 1;
    }
    proof {
        assert(tok@ =~= lit@);
    }
    true
}

// ---------------------------------------------------------------------------
// String and character-vector conversions
// ---------------------------------------------------------------------------

/// Relies on `String::push`: appends the given character to the string.
#[verifier::external_body]
pub(crate) fn push_char(s: &mut String, c: char)
    ensures
        final(s)@ == old(s)@ + seq![c],
{
    s.push(c);
}

/// Copy the characters of a string slice into a vector.
pub fn str_to_chars(s: &str) -> (r: Vec<char>)
    ensures
        r@ == s@,
{
    let n = s.unicode_len();
    let mut r: Vec<char> = Vec::new();
    let mut i: usize = 0;
    while i < n
        invariant
            0 <= i <= n,
            n == s@.len(),
            r@ == s@.subrange(0, i as int),
        decreases n - i,
    {
        r.push(s.get_char(i));
        proof {
            assert(r@ =~= s@.subrange(0, i + 1));
        }
        i = i + 1;
    }
    proof {
        assert(r@ =~= s@);
    }
    r
}

/// Collect a character vector into a `String`.
pub fn chars_to_string(v: &Vec<char>) -> (r: String)
    ensures
        r@ == v@,
{
    let mut r = String::new();
    let mut i: usize = 0;
    while i < v.len()
        invariant
            0 <= i <= v.len(),
            r@ == v@.subrange(0, i as int),
        decreases v.len() - i,
    {
        push_char(&mut r, v[i]);
        proof {
            assert(r@ =~= v@.subrange(0, i + 1));
        }
        i = i + 1;
    }
    proof {
        assert(r@ =~= v@);
    }
    r
}

/// Render `n` in decimal as a `String`.
pub fn u64_to_string(n: u64) -> (r: String)
    ensures
        r@ == spec_dec(n as nat),
{
    let v = u64_to_dec(n);
    chars_to_string(&v)
}

/// Copy a character vector.
pub fn copy_chars(v: &Vec<char>) -> (r: Vec<char>)
    ensures
        r@ == v@,
{
    let mut r: Vec<char> = Vec::new();
    let mut i: usize = 0;
    while i < v.len()
        invariant
            0 <= i <= v.len(),
            r@ == v@.subrange(0, i as int),
        decreases v.len() - i,
    {
        r.push(v[i]);
        proof {
            assert(r@ =~= v@.subrange(0, i + 1));
        }
        i = i + 1;
    }
    proof {
        assert(r@ =~= v@);
    }
    r
}

/// Copy the characters with indices `from <= k < to`.
pub(crate) fn sub_chars(v: &Vec<char>, from: usize, to: usize) -> (r: Vec<char>)
    requires
        from <= to <= v@.len(),
    ensures
        r@ == v@.subrange(from as int, to as int),
{
    let mut r: Vec<char> = Vec::new();
    let mut i: usize = from;
    while i < to
        invariant
            from <= i <= to <= v@.len(),
            r@ == v@.subrange(from as int, i as int),
        decreases to - i,
    {
        r.push(v[i]);
        proof {
            assert(r@ =~= v@.subrange(from as int, i + 1));
        }
        i = i + 1;
    }
    r
}

// ---------------------------------------------------------------------------
// Tokenizing on single spaces
// ---------------------------------------------------------------------------

/// The views of a vector of character vectors.
pub open spec fn views_of(ts: Seq<Vec<char>>) -> Seq<Seq<char>> {
    ts.map_values(|t: Vec<char>| t@)
}

/// Split on every single space character, keeping empty tokens, the way
/// `split(' ')` does: the empty string gives one empty token.
pub open spec fn split_sp(s: Seq<char>) -> Seq<Seq<char>>
    decreases s.len(),
{
    if s.len() == 0 {
        seq![Seq::<char>::empty()]
    } else if s[0] == ' ' {
        seq![Seq::<char>::empty()] + split_sp(s.drop_first())
    } else {
        let r = split_sp(s.drop_first());
        seq![seq![s[0]] + r[0]] + r.drop_first()
    }
}

pub proof fn lemma_split_sp_len(s: Seq<char>)
    ensures
        split_sp(s).len() >= 1,
    decreases s.len(),
{
    if s.len() > 0 {
        lemma_split_sp_len(s.drop_first());
    }
}

/// Join token views back with single spaces between them.
pub open spec fn join_sp(ts: Seq<Seq<char>>) -> Seq<char>
    decreases ts.len(),
{
    if ts.len() == 0 {
        Seq::<char>::empty()
    } else if ts.len() == 1 {
        ts[0]
    } else {
        ts[0] + seq![' '] + join_sp(ts.drop_first())
    }
}

fn split_spaces_from(s: &Vec<char>, i: usize) -> (r: Vec<Vec<char>>)
    requires
        i <= s.len(),
    ensures
        views_of(r@) == split_sp(s@.skip(i as int)),
        r@.len() >= 1,
    decreases s.len() - i,
{
    proof {
        lemma_split_sp_len(s@.skip(i as int));
    }
    if i == s.len() {
        let mut r: Vec<Vec<char>> = Vec::new();
        r.push(Vec::new());
        proof {
            assert(s@.skip(i as int) =~= Seq::<char>::empty());
            assert(views_of(r@) =~= split_sp(s@.skip(i as int)));
        }
        r
    } else if s[i] == ' ' {
        let mut r = split_spaces_from(s, i + 1);
        r.insert(0, Vec::new());
        proof {
            assert(s@.skip(i as int).drop_first() =~= s@.skip(i + 1));
            assert(s@.skip(i as int)[0] == s@[i as int]);
            assert(views_of(r@) =~= split_sp(s@.skip(i as int)));
        }
        r
    } else {
        let mut r = split_spaces_from(s, i + 1);
        let c = s[i];
        let mut first = r.remove(0);
        first.insert(0, c);
        r.insert(0, first);
        proof {
            let tail = s@.skip(i as int).drop_first();
            assert(tail =~= s@.skip(i + 1));
            assert(s@.skip(i as int)[0] == s@[i as int]);
            let sub = split_sp(s@.skip(i + 1));
            assert(views_of(r@).len() == split_sp(s@.skip(i as int)).len());
            assert(views_of(r@)[0] =~= seq![s@[i as int]] + sub[0]);
            assert(views_of(r@) =~= split_sp(s@.skip(i as int)));
        }
        r
    }
}

/// Tokenize a character vector on single spaces.
pub fn split_spaces(s: &Vec<char>) -> (r: Vec<Vec<char>>)
    ensures
        views_of(r@) == split_sp(s@),
        r@.len() >= 1,
{
    let r = split_spaces_from(s, 0);
    proof {
        assert(s@.skip(0) =~= s@);
    }
    r
}

/// Join the tokens with indices `from <= k < to` with single spaces.
pub fn join_tokens(ts: &Vec<Vec<char>>, from: usize, to: usize) -> (r: Vec<char>)
    requires
        from <= to <= ts@.len(),
    ensures
        r@ == join_sp(views_of(ts@).subrange(from as int, to as int)),
    decreases to - from,
{
    if from == to {
        let r: Vec<char> = Vec::new();
        proof {
            assert(views_of(ts@).subrange(from as int, to as int).len() == 0);
        }
        r
    } else if from + 1 == to {
        let r = copy_chars(&ts[from]);
        proof {
            let sub = views_of(ts@).subrange(from as int, to as int);
            assert(sub.len() == 1);
            assert(sub[0] == views_of(ts@)[from as int]);
        }
        r
    } else {
        let mut r = copy_chars(&ts[from]);
        r.push(' ');
        let mut rest = join_tokens(ts, from + 1, to);
        r.append(&mut rest);
        proof {
            let sub = views_of(ts@).subrange(from as int, to as int);
            assert(sub.len() >= 2);
            assert(sub[0] == views_of(ts@)[from as int]);
            assert(sub.drop_first() =~= views_of(ts@).subrange(from + 1, to as int));
            assert(r@ =~= sub[0] + seq![' '] + join_sp(sub.drop_first()));
        }
        r
    }
}

} // verus!
