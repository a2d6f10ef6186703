use vstd::prelude::*;
use vstd::string::StringSliceAdditionalSpecFns;

verus! {

/// Byte value of `"`.
pub open spec fn quote() -> u8 {
    34u8
}

/// Whether a byte is an ASCII decimal digit.
pub open spec fn is_digit(b: u8) -> bool {
    48 <= b <= 57
}

/// The literal that opens the version attribute of an Android manifest.
pub open spec fn vn_prefix() -> Seq<u8> {
    "android:versionName=\"".spec_bytes()
}

/// The length of the longest run of digits in `s` that starts at `j`.
pub open spec fn digit_run_len(s: Seq<u8>, j: int) -> int
    decreases s.len() - j when 0 <= j <= s.len()
{
    if j < 0 || j >= s.len() {
        0
    } else if is_digit(s[j]) {
        1 + digit_run_len(s, j + 1)
    } else {
        0
    }
}

/// Whether the version attribute pattern matches at position `i` of `s`, and
/// over how many bytes.  The pattern is the prefix `android:versionName="`,
/// then three runs of one or more digits separated by single dots, then a
/// closing quote: only strict numeric `X.Y.Z` triples are matched.
pub open spec fn match_len_at(s: Seq<u8>, i: int) -> Option<int> {
    if !(0 <= i && i + vn_prefix().len() <= s.len() && s.subrange(
        i,
        i + vn_prefix().len() as int,
    ) == vn_prefix()) {
        None
    } else {
        let p = i + vn_prefix().len() as int;
        let r1 = digit_run_len(s, p);
        let p1 = p + r1;
        if r1 > 0 && p1 < s.len() && s[p1] == crate::classify::dot() {
            let r2 = digit_run_len(s, p1 + 1);
            let p2 = p1 + 1 + r2;
            if r2 > 0 && p2 < s.len() && s[p2] == crate::classify::dot() {
                let r3 = digit_run_len(s, p2 + 1);
                let p3 = p2 + 1 + r3;
                if r3 > 0 && p3 < s.len() && s[p3] == quote() {
                    Some(p3 + 1 - i)
                } else {
                    None
                }
            } else {
                None
            }
        } else {
            None
        }
    }
}

/// A match has positive length and stays inside `s`.
pub proof fn lemma_match_len_bounds(s: Seq<u8>, i: int, l: int)
    requires
        match_len_at(s, i) == Some(l),
    ensures
        0 < l,
        0 <= i,
        i + l <= s.len(),
        vn_prefix().len() < l,
{
}

/// What a match is rewritten to: the same attribute opening, the new version
/// bytes, and the closing quote.
pub open spec fn replacement(v: Seq<u8>) -> Seq<u8> {
    vn_prefix() + v + seq![quote()]
}

/// The tail of the rewritten text from position `i` on: matches are replaced,
/// every other byte is kept, scanning left to right and never rescanning a
/// replacement.
pub open spec fn replace_from(s: Seq<u8>, v: Seq<u8>, i: int) -> Seq<u8>
    decreases s.len() - i when 0 <= i <= s.len()
        via replace_from_decreases
{
    if i < 0 || i >= s.len() {
        Seq::empty()
    } else {
        match match_len_at(s, i) {
            Some(l) => replacement(v) + replace_from(s, v, i + l),
            None => seq![s[i]] + replace_from(s, v, i + 1),
        }
    }
}

#[via_fn]
proof fn replace_from_decreases(s: Seq<u8>, v: Seq<u8>, i: int) {
    if 0 <= i < s.len() {
        match match_len_at(s, i) {
            Some(l) => {
                lemma_match_len_bounds(s, i, l);
            },
            None => {},
        }
    }
}

/// The whole rewritten text: every occurrence of
/// `android:versionName="X.Y.Z"` (strict digit triple) carries the new
/// version instead; everything else is byte-for-byte the original.
pub open spec fn android_replace_spec(s: Seq<u8>, v: Seq<u8>) -> Seq<u8> {
    replace_from(s, v, 0)
}

/// When the pattern matches nowhere, the rewrite is the identity.  In
/// particular a manifest whose `versionName` is not a strict numeric triple
/// is left untouched.
pub proof fn lemma_no_match_identity(s: Seq<u8>, v: Seq<u8>)
    requires
        forall|i: int| match_len_at(s, i) is None,
    ensures
        android_replace_spec(s, v) == s,
{
    lemma_no_match_identity_from(s, v, 0);
    assert(s.subrange(0, s.len() as int) =~= s);
}

proof fn lemma_no_match_identity_from(s: Seq<u8>, v: Seq<u8>, i: int)
    requires
        0 <= i <= s.len(),
        forall|j: int| match_len_at(s, j) is None,
    ensures
        replace_from(s, v, i) == s.subrange(i, s.len() as int),
    decreases s.len() - i,
{
    if i >= s.len() {
        assert(replace_from(s, v, i) =~= s.subrange(i, s.len() as int));
    } else {
        lemma_no_match_identity_from(s, v, i + 1);
        assert(replace_from(s, v, i) =~= s.subrange(i, s.len() as int));
    }
}

/// Whether `v` is exactly a `digits.digits.digits` triple: the shape whose
/// replacement is itself a full match of the pattern.
pub open spec fn is_strict_triple(v: Seq<u8>) -> bool {
    let r1 = digit_run_len(v, 0);
    if 0 < r1 && r1 < v.len() && v[r1] == crate::classify::dot() {
        let r2 = digit_run_len(v, r1 + 1);
        if 0 < r2 && r1 + 1 + r2 < v.len() && v[r1 + 1 + r2] == crate::classify::dot() {
            let r3 = digit_run_len(v, r1 + 1 + r2 + 1);
            0 < r3 && v.len() == r1 + 1 + r2 + 1 + r3
        } else {
            false
        }
    } else {
        false
    }
}

/// The digit run is non-negative, stays inside `s`, covers digits only, and
/// stops at the first non-digit.
proof fn lemma_digit_run_bounds(s: Seq<u8>, j: int)
    requires
        0 <= j <= s.len(),
    ensures
        0 <= digit_run_len(s, j),
        j + digit_run_len(s, j) <= s.len(),
        forall|t: int| j <= t < j + digit_run_len(s, j) ==> is_digit(s[t]),
        j + digit_run_len(s, j) == s.len() || !is_digit(s[j + digit_run_len(s, j)]),
    decreases s.len() - j,
{
    if j < s.len() && is_digit(s[j]) {
        lemma_digit_run_bounds(s, j + 1);
    }
}

/// A block of digits ended by a non-digit (or the end) is exactly the digit
/// run.
proof fn lemma_digit_run_exact(s: Seq<u8>, j: int, n: int)
    requires
        0 <= j,
        0 <= n,
        j + n <= s.len(),
        forall|t: int| j <= t < j + n ==> is_digit(s[t]),
        j + n == s.len() || !is_digit(s[j + n]),
    ensures
        digit_run_len(s, j) == n,
    decreases n,
{
    if n > 0 {
        lemma_digit_run_exact(s, j + 1, n - 1);
    }
}

/// The digit run reads nothing before its start: it shifts across a
/// concatenation.
proof fn lemma_digit_run_shift(x: Seq<u8>, y: Seq<u8>, j: int)
    requires
        0 <= j <= y.len(),
    ensures
        digit_run_len(x + y, x.len() + j) == digit_run_len(y, j),
    decreases y.len() - j,
{
    if j < y.len() && is_digit(y[j]) {
        lemma_digit_run_shift(x, y, j + 1);
    }
}

/// The pattern reads nothing before its start: a match shifts across a
/// concatenation.
proof fn lemma_match_shift(x: Seq<u8>, y: Seq<u8>, i: int)
    requires
        0 <= i,
    ensures
        match_len_at(x + y, x.len() + i) == match_len_at(y, i),
{
    let plen = vn_prefix().len() as int;
    let t = x + y;
    let ti = x.len() + i;
    if i + plen <= y.len() {
        assert(t.subrange(ti, ti + plen) =~= y.subrange(i, i + plen));
    }
    if i + plen <= y.len() && y.subrange(i, i + plen) == vn_prefix() {
        lemma_digit_run_shift(x, y, i + plen);
        lemma_digit_run_bounds(y, i + plen);
        let r1 = digit_run_len(y, i + plen);
        let p1 = i + plen + r1;
        if r1 > 0 && p1 < y.len() && y[p1] == crate::classify::dot() {
            lemma_digit_run_shift(x, y, p1 + 1);
            lemma_digit_run_bounds(y, p1 + 1);
            let r2 = digit_run_len(y, p1 + 1);
            let p2 = p1 + 1 + r2;
            if r2 > 0 && p2 < y.len() && y[p2] == crate::classify::dot() {
                lemma_digit_run_shift(x, y, p2 + 1);
                lemma_digit_run_bounds(y, p2 + 1);
            }
        }
    }
}

/// The rewrite reads nothing before its start: it shifts across a
/// concatenation.
proof fn lemma_replace_shift(x: Seq<u8>, y: Seq<u8>, v: Seq<u8>, i: int)
    requires
        0 <= i <= y.len(),
    ensures
        replace_from(x + y, v, x.len() + i) == replace_from(y, v, i),
    decreases y.len() - i,
{
    lemma_match_shift(x, y, i);
    if i < y.len() {
        match match_len_at(y, i) {
            Some(l) => {
                lemma_match_len_bounds(y, i, l);
                lemma_replace_shift(x, y, v, i + l);
            },
            None => {
                lemma_replace_shift(x, y, v, i + 1);
            },
        }
    }
}

/// Every byte a match covers past the opening literal is a digit, a dot or
/// a quote.
proof fn lemma_match_chars(s: Seq<u8>, l: int, t: int)
    requires
        match_len_at(s, 0) == Some(l),
        vn_prefix().len() <= t < l,
    ensures
        is_digit(s[t]) || s[t] == crate::classify::dot() || s[t] == quote(),
{
    let plen = vn_prefix().len() as int;
    lemma_digit_run_bounds(s, plen);
    let r1 = digit_run_len(s, plen);
    let p1 = plen + r1;
    lemma_digit_run_bounds(s, p1 + 1);
    let r2 = digit_run_len(s, p1 + 1);
    let p2 = p1 + 1 + r2;
    lemma_digit_run_bounds(s, p2 + 1);
}

/// A match attempt is decided by the bytes two sequences share.
proof fn lemma_match_agree(s1: Seq<u8>, s2: Seq<u8>, m: int, l: int)
    requires
        0 <= m <= s1.len(),
        m <= s2.len(),
        s1.subrange(0, m) == s2.subrange(0, m),
        match_len_at(s1, 0) == Some(l),
        l <= m,
    ensures
        match_len_at(s2, 0) == Some(l),
{
    let plen = vn_prefix().len() as int;
    lemma_match_len_bounds(s1, 0, l);
    assert forall|t: int| 0 <= t < m implies s1[t] == s2[t] by {
        assert(s1[t] == s1.subrange(0, m)[t]);
        assert(s2[t] == s2.subrange(0, m)[t]);
    }
    assert(s1.subrange(0, plen) == vn_prefix());
    assert(s2.subrange(0, plen) =~= vn_prefix()) by {
        assert forall|t: int| 0 <= t < plen implies s2.subrange(0, plen)[t] == vn_prefix()[t] by {
            assert(s1.subrange(0, plen)[t] == s1[t]);
        }
    }
    lemma_digit_run_bounds(s1, plen);
    let r1 = digit_run_len(s1, plen);
    let p1 = plen + r1;
    assert(p1 < s1.len() && s1[p1] == crate::classify::dot());
    lemma_digit_run_exact(s2, plen, r1);
    lemma_digit_run_bounds(s1, p1 + 1);
    let r2 = digit_run_len(s1, p1 + 1);
    let p2 = p1 + 1 + r2;
    assert(p2 < s1.len() && s1[p2] == crate::classify::dot());
    lemma_digit_run_exact(s2, p1 + 1, r2);
    lemma_digit_run_bounds(s1, p2 + 1);
    let r3 = digit_run_len(s1, p2 + 1);
    lemma_digit_run_exact(s2, p2 + 1, r3);
    assert(match_len_at(s2, 0) == Some(l));
}

/// The byte values of the opening literal `android:versionName="`.
proof fn lemma_prefix_bytes()
    ensures
        vn_prefix().len() == 21,
        vn_prefix()[0] == 97,
        vn_prefix()[1] == 110,
        vn_prefix()[2] == 100,
        vn_prefix()[3] == 114,
        vn_prefix()[4] == 111,
        vn_prefix()[5] == 105,
        vn_prefix()[6] == 100,
        vn_prefix()[7] == 58,
        vn_prefix()[8] == 118,
        vn_prefix()[9] == 101,
        vn_prefix()[10] == 114,
        vn_prefix()[11] == 115,
        vn_prefix()[12] == 105,
        vn_prefix()[13] == 111,
        vn_prefix()[14] == 110,
        vn_prefix()[15] == 78,
        vn_prefix()[16] == 97,
        vn_prefix()[17] == 109,
        vn_prefix()[18] == 101,
        vn_prefix()[19] == 61,
        vn_prefix()[20] == 34,
{
    reveal_strlit("android:versionName=\"");
    let chars = "android:versionName=\""@;
    assert(vstd::utf8::is_ascii_chars(chars));
    vstd::utf8::is_ascii_chars_encode_utf8(chars);
}

/// The opening literal does not overlap itself: shifting it by any proper
/// offset produces a mismatch, here returned as a witness index.
proof fn lemma_prefix_self_overlap_mismatch(d: int) -> (u: int)
    requires
        1 <= d < 21,
    ensures
        0 <= u < 21 - d,
        vn_prefix()[u] != vn_prefix()[u + d],
{
    lemma_prefix_bytes();
    if d <= 13 {
        7
    } else if d == 16 {
        1
    } else {
        0
    }
}

/// The position of the first match at or after `i`; the length when there is
/// none.
spec fn next_match(s: Seq<u8>, i: int) -> int
    decreases s.len() - i when 0 <= i <= s.len()
{
    if i >= s.len() {
        i
    } else if match_len_at(s, i) is Some {
        i
    } else {
        next_match(s, i + 1)
    }
}

proof fn lemma_next_match_props(s: Seq<u8>, i: int)
    requires
        0 <= i <= s.len(),
    ensures
        i <= next_match(s, i) <= s.len(),
        forall|j: int| i <= j < next_match(s, i) ==> match_len_at(s, j) is None,
        next_match(s, i) < s.len() ==> match_len_at(s, next_match(s, i)) is Some,
    decreases s.len() - i,
{
    if i < s.len() && match_len_at(s, i) is None {
        lemma_next_match_props(s, i + 1);
    }
}

/// Up to the next match the rewrite copies bytes; there it plants the
/// replacement.
proof fn lemma_out_structure(s: Seq<u8>, v: Seq<u8>, i: int)
    requires
        0 <= i <= s.len(),
    ensures
        ({
            let b = next_match(s, i);
            if b == s.len() {
                replace_from(s, v, i) == s.subrange(i, b)
            } else {
                replace_from(s, v, i) == s.subrange(i, b) + replacement(v) + replace_from(
                    s,
                    v,
                    b + match_len_at(s, b).unwrap(),
                )
            }
        }),
    decreases s.len() - i,
{
    let b = next_match(s, i);
    lemma_next_match_props(s, i);
    if i >= s.len() {
        assert(replace_from(s, v, i) =~= s.subrange(i, b));
    } else {
        match match_len_at(s, i) {
            Some(l) => {
                assert(b == i);
                assert(s.subrange(i, b) + replacement(v) + replace_from(s, v, i + l) =~= replacement(
                    v,
                ) + replace_from(s, v, i + l));
            },
            None => {
                lemma_out_structure(s, v, i + 1);
                assert(next_match(s, i + 1) == b);
                if b == s.len() {
                    assert(seq![s[i]] + s.subrange(i + 1, b) =~= s.subrange(i, b));
                } else {
                    let tail = replace_from(s, v, b + match_len_at(s, b).unwrap());
                    assert(seq![s[i]] + (s.subrange(i + 1, b) + replacement(v) + tail)
                        =~= s.subrange(i, b) + replacement(v) + tail);
                }
            },
        }
    }
}

/// The replacement built from a strict triple, whatever follows it, is a
/// full match of the pattern.
proof fn lemma_repl_match(v: Seq<u8>, rest: Seq<u8>)
    requires
        is_strict_triple(v),
    ensures
        match_len_at(replacement(v) + rest, 0) == Some(replacement(v).len() as int),
{
    let plen = vn_prefix().len() as int;
    let t = replacement(v) + rest;
    let r1 = digit_run_len(v, 0);
    lemma_digit_run_bounds(v, 0);
    let r2 = digit_run_len(v, r1 + 1);
    lemma_digit_run_bounds(v, r1 + 1);
    let r3 = digit_run_len(v, r1 + 1 + r2 + 1);
    lemma_digit_run_bounds(v, r1 + 1 + r2 + 1);
    assert(t.subrange(0, plen) =~= vn_prefix());
    assert(forall|u: int| 0 <= u < v.len() ==> t[plen + u] == v[u]);
    assert(t[plen + v.len()] == quote());
    lemma_digit_run_exact(t, plen, r1);
    lemma_digit_run_exact(t, plen + r1 + 1, r2);
    lemma_digit_run_exact(t, plen + r1 + 1 + r2 + 1, r3);
    assert(match_len_at(t, 0) == Some(plen + v.len() + 1));
}

/// No match starts at a position where the scan decided to copy a byte.
#[verifier::rlimit(50)]
proof fn lemma_none_transfer(s: Seq<u8>, v: Seq<u8>, i: int)
    requires
        0 <= i < s.len(),
        match_len_at(s, i) is None,
    ensures
        match_len_at(replace_from(s, v, i), 0) is None,
{
    let plen = vn_prefix().len() as int;
    lemma_prefix_bytes();
    let sfx = s.subrange(i, s.len() as int);
    assert(s =~= s.subrange(0, i) + sfx);
    lemma_match_shift(s.subrange(0, i), sfx, 0);
    assert(match_len_at(sfx, 0) is None);
    let b = next_match(s, i);
    lemma_next_match_props(s, i);
    lemma_out_structure(s, v, i);
    let out = replace_from(s, v, i);
    if b == s.len() {
        assert(out == sfx);
    } else {
        let e = b - i;
        let l_b = match_len_at(s, b).unwrap();
        lemma_match_len_bounds(s, b, l_b);
        let rest2 = replace_from(s, v, b + l_b);
        assert(out == s.subrange(i, b) + replacement(v) + rest2);
        assert(1 <= e);
        let m = e + plen;
        assert(s.subrange(b, b + plen) == vn_prefix());
        assert(m <= sfx.len());
        assert(m <= out.len());
        assert(out.subrange(0, m) =~= sfx.subrange(0, m)) by {
            assert forall|u: int| 0 <= u < m implies out[u] == sfx[u] by {
                if u < e {
                    assert(out[u] == s[i + u]);
                    assert(sfx[u] == s[i + u]);
                } else {
                    assert(out[u] == replacement(v)[u - e]);
                    assert(replacement(v)[u - e] == vn_prefix()[u - e]);
                    assert(sfx[u] == s[b + (u - e)]);
                    assert(s.subrange(b, b + plen)[u - e] == s[b + (u - e)]);
                }
            }
        }
        if match_len_at(out, 0) is Some {
            let l2 = match_len_at(out, 0).unwrap();
            lemma_match_len_bounds(out, 0, l2);
            if l2 <= m {
                lemma_match_agree(out, sfx, m, l2);
            } else {
                if e >= plen {
                    lemma_match_chars(out, l2, e);
                    assert(out[e] == replacement(v)[0]);
                    assert(out[e] == vn_prefix()[0]);
                } else {
                    assert(out.subrange(0, plen) == vn_prefix());
                    let u = lemma_prefix_self_overlap_mismatch(e);
                    assert(out[e + u] == replacement(v)[u]);
                    assert(out[e + u] == vn_prefix()[u]);
                    assert(out.subrange(0, plen)[e + u] == out[e + u]);
                    assert(out[e + u] == vn_prefix()[e + u]);
                }
            }
        }
    }
}

proof fn lemma_replace_idem_from(s: Seq<u8>, v: Seq<u8>, i: int)
    requires
        is_strict_triple(v),
        0 <= i <= s.len(),
    ensures
        replace_from(replace_from(s, v, i), v, 0) == replace_from(s, v, i),
    decreases s.len() - i,
{
    let out = replace_from(s, v, i);
    if i >= s.len() {
    } else {
        match match_len_at(s, i) {
            Some(l) => {
                lemma_match_len_bounds(s, i, l);
                let rest = replace_from(s, v, i + l);
                lemma_replace_idem_from(s, v, i + l);
                lemma_repl_match(v, rest);
                let rl = replacement(v).len() as int;
                assert(out == replacement(v) + rest);
                assert(match_len_at(out, 0) == Some(rl));
                assert(replace_from(out, v, 0) == replacement(v) + replace_from(out, v, rl));
                lemma_replace_shift(replacement(v), rest, v, 0);
            },
            None => {
                let rest = replace_from(s, v, i + 1);
                lemma_replace_idem_from(s, v, i + 1);
                lemma_none_transfer(s, v, i);
                assert(out == seq![s[i]] + rest);
                assert(out[0] == s[i]);
                assert(replace_from(out, v, 0) == seq![out[0]] + replace_from(out, v, 1));
                lemma_replace_shift(seq![s[i]], rest, v, 0);
                assert(seq![out[0]] + replace_from(rest, v, 0) == out);
            },
        }
    }
}

/// Law: with a strict numeric `X.Y.Z` version the textual rewrite is
/// idempotent: rewriting the rewritten text again changes nothing.  The
/// shape matters: a version of another shape plants a replacement that is
/// not itself a match, and one containing a quote can even fabricate new
/// matches, so those inputs are left out.
pub proof fn lemma_android_replace_idempotent(s: Seq<u8>, v: Seq<u8>)
    requires
        is_strict_triple(v),
    ensures
        android_replace_spec(android_replace_spec(s, v), v) == android_replace_spec(s, v),
{
    lemma_replace_idem_from(s, v, 0);
}

/// The length of the digit run at `j`; a plain scan.
fn digit_run(s: &[u8], j: usize) -> (n: usize)
    requires
        j <= s@.len(),
    ensures
        n == digit_run_len(s@, j as int),
        j + n <= s@.len(),
{
    let mut m: usize = j;
    while m < s.len() && 48 <= s[m] && s[m] <= 57
        invariant
            j <= m <= s@.len(),
            digit_run_len(s@, j as int) == m - j + digit_run_len(s@, m as int),
        decreases s@.len() - m,
    {
        m += 1;
    }
    m - j
}

/// Decides `match_len_at` at position `i`.
fn try_match_at(s: &[u8], i: usize) -> (r: Option<usize>)
    requires
        i < s@.len(),
    ensures
        match r {
            Some(l) => match_len_at(s@, i as int) == Some(l as int),
            None => match_len_at(s@, i as int) is None,
        },
{
    let pre: &[u8] = "android:versionName=\"".as_bytes();
    let plen = pre.len();
    if s.len() - i < plen {
        return None;
    }
    // compare the opening literal
    let mut m: usize = i;
    while m - i < plen
        invariant
            i <= m,
            m - i <= plen,
            i + plen <= s@.len(),
            plen == vn_prefix().len(),
            pre@ == vn_prefix(),
            forall|t: int| 0 <= t < m - i ==> s@[i + t] == vn_prefix()[t],
        decreases plen - (m - i),
    {
        if s[m] != pre[m - i] {
            assert(s@.subrange(i as int, i + plen as int)[m - i] != vn_prefix()[m - i]);
            return None;
        }
        m += 1;
    }
    assert(s@.subrange(i as int, i + plen as int) =~= vn_prefix());

    let p = m;
    assert(p == i + vn_prefix().len());
    let r1 = digit_run(s, p);
    let p1 = p + r1;
    if !(r1 > 0 && p1 < s.len() && s[p1] == 46) {
        return None;
    }
    let r2 = digit_run(s, p1 + 1);
    let p2 = p1 + 1 + r2;
    if !(r2 > 0 && p2 < s.len() && s[p2] == 46) {
        return None;
    }
    let r3 = digit_run(s, p2 + 1);
    let p3 = p2 + 1 + r3;
    if !(r3 > 0 && p3 < s.len() && s[p3] == 34) {
        return None;
    }
    Some(p3 + 1 - i)
}

/// Appends all of `src` to `out`.
pub(crate) fn push_all(out: &mut Vec<u8>, src: &[u8])
    ensures
        final(out)@ == old(out)@ + src@,
{
    let mut k: usize = 0;
    while k < src.len()
        invariant
            0 <= k <= src@.len(),
            out@ == old(out)@ + src@.subrange(0, k as int),
        decreases src@.len() - k,
    {
        let b = src[k];
        out.push(b);
        assert(old(out)@ + src@.subrange(0, k + 1 as int) =~= (old(out)@ + src@.subrange(
            0,
            k as int,
        )).push(b));
        k += 1;
    }
    assert(src@.subrange(0, src@.len() as int) =~= src@);
}

/// Rewrites every matched `android:versionName="X.Y.Z"` attribute of an
/// Android manifest to carry `version`, leaving all other bytes exactly as
/// they were.  The original text, not a re-serialized tree, is the base, so
/// the manifest's formatting survives.
pub fn android_replace(content: &[u8], version: &[u8]) -> (out: Vec<u8>)
    ensures
        out@ == android_replace_spec(content@, version@),
{
    let mut out: Vec<u8> = Vec::new();
    let mut i: usize = 0;
    while i < content.len()
        invariant
            0 <= i <= content@.len(),
            android_replace_spec(content@, version@) == out@ + replace_from(
                content@,
                version@,
                i as int,
            ),
        decreases content@.len() - i,
    {
        match try_match_at(content, i) {
            Some(l) => {
                proof {
                    lemma_match_len_bounds(content@, i as int, l as int);
                }
                push_all(&mut out, "android:versionName=\"".as_bytes());
                push_all(&mut out, version);
                out.push(34);
                assert(replacement(version@) =~= vn_prefix() + version@ + seq![quote()]);
                i += l;
            },
            None => {
                let b = content[i];
                out.push(b);
                assert(seq![content@[i as int]] =~= out@.subrange(
                    out@.len() - 1,
                    out@.len() as int,
                ));
                i += 1;
            },
        }
    }
    out
}

} // verus!
