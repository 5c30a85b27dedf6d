//! Small executable helpers over `&str`/`String` with exact
//! specifications: equality, prefix tests, lexicographic comparison by
//! code point, and decimal/boolean parsing.

use vstd::prelude::*;

verus! {

/// True when `p` is a prefix of `s`.
pub open spec fn has_prefix(s: Seq<char>, p: Seq<char>) -> bool {
    p.len() <= s.len() && (forall|i: int| 0 <= i < p.len() ==> s[i] == p[i])
}

/// Strict lexicographic order on code points; a proper prefix sorts
/// before its extensions.
pub open spec fn lex_lt(a: Seq<char>, b: Seq<char>) -> bool
    decreases a.len(),
{
    if b.len() == 0 {
        false
    } else if a.len() == 0 {
        true
    } else if (a[0] as u32) < (b[0] as u32) {
        true
    } else if (b[0] as u32) < (a[0] as u32) {
        false
    } else {
        lex_lt(a.drop_first(), b.drop_first())
    }
}

pub fn str_eq(a: &str, b: &str) -> (r: bool)
    ensures
        r == (a@ == b@),
{
    let an = a.unicode_len();
    let bn = b.unicode_len();
    if an != bn {
        return false;
    }
    let mut i: usize = 0;
    while i < an
        invariant
            i <= an,
            an == a@.len(),
            an == b@.len(),
            forall|j: int| 0 <= j < i ==> a@[j] == b@[j],
        decreases an - i,
    {
        if a.get_char(i) != b.get_char(i) {
            return false;
        }
        i += 1;
    }
    proof {
        assert(a@ =~= b@);
    }
    true
}

pub fn str_starts_with(s: &str, p: &str) -> (r: bool)
    ensures
        r == has_prefix(s@, p@),
{
    let sn = s.unicode_len();
    let pn = p.unicode_len();
    if pn > sn {
        return false;
    }
    let mut i: usize = 0;
    while i < pn
        invariant
            i <= pn,
            pn <= sn,
            sn == s@.len(),
            pn == p@.len(),
            forall|j: int| 0 <= j < i ==> s@[j] == p@[j],
        decreases pn - i,
    {
        if s.get_char(i) != p.get_char(i) {
            return false;
        }
        i += 1;
    }
    true
}

/// The remainder of `s` after a prefix of `n` characters.
pub fn str_skip<'a>(s: &'a str, n: usize) -> (r: &'a str)
    requires
        n <= s@.len(),
    ensures
        r@ == s@.skip(n as int),
{
    let sn = s.unicode_len();
    let r = s.substring_char(n, sn);
    proof {
        assert(s@.subrange(n as int, s@.len() as int) =~= s@.skip(n as int));
    }
    r
}

pub fn str_lex_lt(a: &str, b: &str) -> (r: bool)
    ensures
        r == lex_lt(a@, b@),
{
    let an = a.unicode_len();
    let bn = b.unicode_len();
    let n = if an < bn {
        an
    } else {
        bn
    };
    let mut i: usize = 0;
    proof {
        assert(a@.skip(0) =~= a@);
        assert(b@.skip(0) =~= b@);
    }
    while i < n
        invariant
            i <= n,
            an == a@.len(),
            bn == b@.len(),
            n == (if an < bn { an } else { bn }),
            lex_lt(a@, b@) == lex_lt(a@.skip(i as int), b@.skip(i as int)),
        decreases n - i,
    {
        let ca = a.get_char(i) as u32;
        let cb = b.get_char(i) as u32;
        proof {
            let sa = a@.skip(i as int);
            let sb = b@.skip(i as int);
            assert(sa[0] == a@[i as int]);
            assert(sb[0] == b@[i as int]);
            assert(sa.drop_first() =~= a@.skip(i as int + 1));
            assert(sb.drop_first() =~= b@.skip(i as int + 1));
        }
        if ca < cb {
            return true;
        }
        if cb < ca {
            return false;
        }
        i += 1;
    }
    proof {
        assert(a@.skip(an as int) =~= Seq::<char>::empty());
        assert(b@.skip(bn as int) =~= Seq::<char>::empty());
        if an < bn {
            assert(b@.skip(i as int).len() > 0);
        }
    }
    an < bn
}

/// Lexicographic order is transitive.
pub proof fn lemma_lex_lt_trans(a: Seq<char>, b: Seq<char>, c: Seq<char>)
    requires
        lex_lt(a, b),
        lex_lt(b, c),
    ensures
        lex_lt(a, c),
    decreases a.len() + b.len() + c.len(),
{
    if a.len() == 0 {
        // c.len() > 0 because lex_lt(b, c) holds
    } else {
        // b nonempty (lex_lt(a, b)), c nonempty (lex_lt(b, c))
        if (a[0] as u32) < (b[0] as u32) {
            if (b[0] as u32) <= (c[0] as u32) {
            } else {
            }
        } else {
            // a[0] == b[0] code points and lex_lt on tails, or contradiction
            if (b[0] as u32) < (c[0] as u32) {
            } else {
                lemma_lex_lt_trans(a.drop_first(), b.drop_first(), c.drop_first());
            }
        }
    }
}

/// Lexicographic order is asymmetric.
pub proof fn lemma_lex_lt_asym(a: Seq<char>, b: Seq<char>)
    requires
        lex_lt(a, b),
    ensures
        !lex_lt(b, a),
    decreases a.len(),
{
    if a.len() > 0 && b.len() > 0 && a[0] as u32 == b[0] as u32 {
        lemma_lex_lt_asym(a.drop_first(), b.drop_first());
    }
}

/// Lexicographic order is connected: two unordered sequences are equal.
pub proof fn lemma_lex_lt_connected(a: Seq<char>, b: Seq<char>)
    requires
        !lex_lt(a, b),
        !lex_lt(b, a),
    ensures
        a == b,
    decreases a.len(),
{
    if a.len() == 0 {
        assert(b.len() == 0);
        assert(a =~= b);
    } else {
        assert(b.len() > 0);
        assert(a[0] as u32 == b[0] as u32);
        assert(a[0] == b[0]) by {
            lemma_char_cast_injective(a[0], b[0]);
        }
        lemma_lex_lt_connected(a.drop_first(), b.drop_first());
        assert forall|i: int| 0 <= i < a.len() implies a[i] == b[i] by {
            if i >= 1 {
                assert(a.drop_first()[i - 1] == b.drop_first()[i - 1]);
            }
        }
        assert(a =~= b);
    }
}

/// Two characters with the same code point are the same character.
proof fn lemma_char_cast_injective(c: char, d: char)
    requires
        c as u32 == d as u32,
    ensures
        c == d,
{
}

/// Decimal digits and the number a digit string denotes.
pub open spec fn is_digit_char(c: char) -> bool {
    48 <= c as u32 <= 57
}

pub open spec fn digit_val(c: char) -> int {
    c as u32 - 48
}

pub open spec fn all_digits(s: Seq<char>) -> bool {
    s.len() > 0 && (forall|i: int| 0 <= i < s.len() ==> is_digit_char(s[i]))
}

pub open spec fn dec_val(s: Seq<char>) -> int
    decreases s.len(),
{
    if s.len() == 0 {
        0
    } else {
        dec_val(s.drop_last()) * 10 + digit_val(s.last())
    }
}

proof fn lemma_dec_val_nonneg(s: Seq<char>)
    requires
        forall|i: int| 0 <= i < s.len() ==> is_digit_char(s[i]),
    ensures
        dec_val(s) >= 0,
    decreases s.len(),
{
    if s.len() > 0 {
        lemma_dec_val_nonneg(s.drop_last());
        assert(dec_val(s.drop_last()) * 10 >= 0) by (nonlinear_arith)
            requires
                dec_val(s.drop_last()) >= 0,
        ;
    }
}

/// The value of a digit string only grows as digits are appended.
proof fn lemma_dec_val_prefix_le(s: Seq<char>, j: int)
    requires
        0 <= j <= s.len(),
        forall|i: int| 0 <= i < s.len() ==> is_digit_char(s[i]),
    ensures
        dec_val(s.take(j)) <= dec_val(s),
    decreases s.len() - j,
{
    if j < s.len() {
        let t = s.take(j + 1);
        assert(t.drop_last() =~= s.take(j));
        lemma_dec_val_nonneg(s.take(j));
        assert(dec_val(s.take(j)) * 10 >= dec_val(s.take(j))) by (nonlinear_arith)
            requires
                dec_val(s.take(j)) >= 0,
        ;
        lemma_dec_val_prefix_le(s, j + 1);
    } else {
        assert(s.take(j) =~= s);
    }
}

/// Parse a non-empty all-digit string as a `usize`; `None` when the
/// string is not a plain decimal number or its value does not fit.
pub fn parse_usize(s: &str) -> (r: Option<usize>)
    ensures
        match r {
            Some(n) => all_digits(s@) && dec_val(s@) == n,
            None => !all_digits(s@) || dec_val(s@) > usize::MAX,
        },
{
    let n = s.unicode_len();
    if n == 0 {
        return None;
    }
    let mut acc: usize = 0;
    let mut i: usize = 0;
    while i < n
        invariant
            0 < n == s@.len(),
            i <= n,
            forall|j: int| 0 <= j < i ==> is_digit_char(s@[j]),
            acc == dec_val(s@.take(i as int)),
        decreases n - i,
    {
        let c = s.get_char(i) as u32;
        if c < 48 || c > 57 {
            return None;
        }
        let d = (c - 48) as usize;
        proof {
            assert(s@.take(i as int + 1).drop_last() =~= s@.take(i as int));
        }
        let shifted = match acc.checked_mul(10) {
            Some(v) => v,
            None => {
                proof {
                    if all_digits(s@) {
                        assert(dec_val(s@.take(i as int + 1)) > usize::MAX) by (nonlinear_arith)
                            requires
                                dec_val(s@.take(i as int + 1)) == acc * 10 + d,
                                acc * 10 > usize::MAX,
                                d >= 0,
                        ;
                        lemma_dec_val_prefix_le(s@, i as int + 1);
                    }
                }
                return None;
            },
        };
        let total = match shifted.checked_add(d) {
            Some(v) => v,
            None => {
                proof {
                    if all_digits(s@) {
                        lemma_dec_val_prefix_le(s@, i as int + 1);
                    }
                }
                return None;
            },
        };
        acc = total;
        i += 1;
    }
    proof {
        assert(s@.take(n as int) =~= s@);
    }
    Some(acc)
}

/// `p` occurs somewhere in `s`.
pub open spec fn contains_seq(s: Seq<char>, p: Seq<char>) -> bool {
    exists|i: int| 0 <= i <= s.len() - p.len() && #[trigger] s.subrange(i, i + p.len()) == p
}

pub fn str_contains(s: &str, p: &str) -> (r: bool)
    ensures
        r == contains_seq(s@, p@),
{
    let sn = s.unicode_len();
    let pn = p.unicode_len();
    if pn > sn {
        return false;
    }
    let mut i: usize = 0;
    while i <= sn - pn
        invariant
            i <= sn - pn + 1,
            pn <= sn,
            sn == s@.len(),
            pn == p@.len(),
            forall|ii: int| 0 <= ii < i ==> #[trigger] s@.subrange(ii, ii + p@.len()) != p@,
        decreases sn - pn - i + 1,
    {
        let mut j: usize = 0;
        let mut still = true;
        while j < pn && still
            invariant
                j <= pn,
                i + pn <= sn,
                sn == s@.len(),
                pn == p@.len(),
                still ==> (forall|jj: int| 0 <= jj < j ==> s@[i + jj] == p@[jj]),
                !still ==> (exists|jj: int| 0 <= jj < p@.len() && s@[i + jj] != p@[jj]),
            decreases pn - j + (if still {
                1int
            } else {
                0int
            }),
        {
            if s.get_char(i + j) != p.get_char(j) {
                still = false;
            } else {
                j += 1;
            }
        }
        if still {
            proof {
                assert(s@.subrange(i as int, i as int + p@.len()) =~= p@);
            }
            return true;
        }
        proof {
            let w = choose|jj: int| 0 <= jj < p@.len() && s@[i + jj] != p@[jj];
            if s@.subrange(i as int, i as int + p@.len()) == p@ {
                assert(s@.subrange(i as int, i as int + p@.len())[w] == s@[i + w]);
                assert(false);
            }
        }
        i += 1;
    }
    false
}

/// The position of the first occurrence of `p` in `s`.
pub fn str_find(s: &str, p: &str) -> (r: Option<usize>)
    ensures
        match r {
            Some(i) => i + p@.len() <= s@.len() && s@.subrange(i as int, i + p@.len()) == p@
                && (forall|ii: int|
                0 <= ii < i ==> #[trigger] s@.subrange(ii, ii + p@.len()) != p@),
            None => !contains_seq(s@, p@),
        },
{
    let sn = s.unicode_len();
    let pn = p.unicode_len();
    if pn > sn {
        return None;
    }
    let mut i: usize = 0;
    while i <= sn - pn
        invariant
            i <= sn - pn + 1,
            pn <= sn,
            sn == s@.len(),
            pn == p@.len(),
            forall|ii: int| 0 <= ii < i ==> #[trigger] s@.subrange(ii, ii + p@.len()) != p@,
        decreases sn - pn - i + 1,
    {
        let mut j: usize = 0;
        let mut still = true;
        while j < pn && still
            invariant
                j <= pn,
                i + pn <= sn,
                sn == s@.len(),
                pn == p@.len(),
                still ==> (forall|jj: int| 0 <= jj < j ==> s@[i + jj] == p@[jj]),
                !still ==> (exists|jj: int| 0 <= jj < p@.len() && s@[i + jj] != p@[jj]),
            decreases pn - j + (if still {
                1int
            } else {
                0int
            }),
        {
            if s.get_char(i + j) != p.get_char(j) {
                still = false;
            } else {
                j += 1;
            }
        }
        if still {
            proof {
                assert(s@.subrange(i as int, i as int + p@.len()) =~= p@);
            }
            return Some(i);
        }
        proof {
            let w = choose|jj: int| 0 <= jj < p@.len() && s@[i + jj] != p@[jj];
            if s@.subrange(i as int, i as int + p@.len()) == p@ {
                assert(s@.subrange(i as int, i as int + p@.len())[w] == s@[i + w]);
                assert(false);
            }
        }
        i += 1;
    }
    None
}

/// The views of a concatenation are the concatenated views.
pub proof fn lemma_string_views_concat(a: Seq<String>, b: Seq<String>)
    ensures
        string_views(a + b) == string_views(a) + string_views(b),
{
    assert(string_views(a + b) =~= string_views(a) + string_views(b));
}

/// The texts of a sequence of strings.
pub open spec fn string_views(v: Seq<String>) -> Seq<Seq<char>> {
    v.map_values(|s: String| s@)
}

/// Element-wise text equality of two string vectors.
pub fn string_vec_eq(a: &Vec<String>, b: &Vec<String>) -> (r: bool)
    ensures
        r == (string_views(a@) == string_views(b@)),
{
    let n = a.len();
    if n != b.len() {
        proof {
            assert(string_views(a@).len() == a@.len());
            assert(string_views(b@).len() == b@.len());
        }
        return false;
    }
    let mut i: usize = 0;
    while i < n
        invariant
            i <= n,
            n == a@.len(),
            n == b@.len(),
            forall|j: int| 0 <= j < i ==> a@[j]@ == b@[j]@,
        decreases n - i,
    {
        if !a[i].eq(&b[i]) {
            proof {
                assert(string_views(a@)[i as int] == a@[i as int]@);
                assert(string_views(b@)[i as int] == b@[i as int]@);
            }
            return false;
        }
        i += 1;
    }
    proof {
        assert(string_views(a@) =~= string_views(b@));
    }
    true
}

/// Parse the exact words `true` and `false`.
pub fn parse_bool(s: &str) -> (r: Option<bool>)
    ensures
        match r {
            Some(b) => (b <==> s@ == "true"@) && (s@ == "true"@ || s@ == "false"@),
            None => s@ != "true"@ && s@ != "false"@,
        },
{
    proof {
        reveal_strlit("true");
        reveal_strlit("false");
        assert("true"@.len() == 4);
        assert("false"@.len() == 5);
    }
    if str_eq(s, "true") {
        Some(true)
    } else if str_eq(s, "false") {
        Some(false)
    } else {
        None
    }
}

} // verus!
