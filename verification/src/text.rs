//! Character-level utilities over strings: whitespace trimming, lexicographic
//! comparison, substring search, separator splitting and decimal rendering.
//!
//! Every executable function is verified against a spec function over
//! `Seq<char>`, so the higher layers (log normalization, the coordinator) can
//! state their own contracts in terms of these specs.

use vstd::prelude::*;

verus! {

/// Whitespace for the purposes of trimming: space, tab, line feed and
/// carriage return.
pub open spec fn is_space(c: char) -> bool {
    c == ' ' || c == '\t' || c == '\n' || c == '\r'
}

/// Executable test matching `is_space`.
pub fn space_char(c: char) -> (r: bool)
    ensures
        r == is_space(c),
{
    c == ' ' || c == '\t' || c == '\n' || c == '\r'
}

/// A string is blank when every character is whitespace.
pub open spec fn spec_blank(s: Seq<char>) -> bool {
    forall|i: int| 0 <= i < s.len() ==> is_space(s[i])
}

/// True iff `s` holds nothing but whitespace — i.e. trimming it leaves the
/// empty string.
pub fn is_blank(s: &str) -> (r: bool)
    ensures
        r == spec_blank(s@),
{
    let n: usize = s.unicode_len();
    let mut i: usize = 0;
    while i < n
        invariant
            n == s@.len(),
            0 <= i <= n,
            forall|j: int| 0 <= j < i ==> is_space(s@[j]),
        decreases n - i,
    {
        let c = s.get_char(i);
        if !space_char(c) {
            return false;
        }
        i = i + 1;
    }
    true
}

/// The string with its leading whitespace removed.
pub open spec fn spec_trim_start(s: Seq<char>) -> Seq<char>
    decreases s.len(),
{
    if s.len() > 0 && is_space(s[0]) {
        spec_trim_start(s.skip(1))
    } else {
        s
    }
}

/// The string with its trailing whitespace removed.
pub open spec fn spec_trim_end(s: Seq<char>) -> Seq<char>
    decreases s.len(),
{
    if s.len() > 0 && is_space(s[s.len() - 1]) {
        spec_trim_end(s.take(s.len() - 1))
    } else {
        s
    }
}

/// The string with whitespace removed from both ends.
pub open spec fn spec_trim(s: Seq<char>) -> Seq<char> {
    spec_trim_end(spec_trim_start(s))
}

/// When the first `i` characters are whitespace and character `i` (if any) is
/// not, trimming from the start drops exactly those `i` characters.
proof fn lemma_trim_start_at(s: Seq<char>, i: int)
    requires
        0 <= i <= s.len(),
        forall|j: int| 0 <= j < i ==> is_space(s[j]),
        i < s.len() ==> !is_space(s[i]),
    ensures
        spec_trim_start(s) == s.skip(i),
    decreases i,
{
    if i == 0 {
        assert(s.skip(0) =~= s);
    } else {
        lemma_trim_start_at(s.skip(1), i - 1);
        assert(s.skip(1).skip(i - 1) =~= s.skip(i));
    }
}

/// When every character from `j` on is whitespace and character `j - 1` (if
/// any) is not, trimming from the end keeps exactly the first `j` characters.
proof fn lemma_trim_end_at(s: Seq<char>, j: int)
    requires
        0 <= j <= s.len(),
        forall|k: int| j <= k < s.len() ==> is_space(s[k]),
        j > 0 ==> !is_space(s[j - 1]),
    ensures
        spec_trim_end(s) == s.take(j),
    decreases s.len(),
{
    if s.len() == 0 {
        assert(s.take(0) =~= s);
    } else if j == s.len() {
        if is_space(s[s.len() - 1]) {
            assert(false);
        }
        assert(s.take(s.len() as int) =~= s);
    } else {
        lemma_trim_end_at(s.take(s.len() - 1), j);
        assert(s.take(s.len() - 1).take(j) =~= s.take(j));
    }
}

/// Remove leading and trailing whitespace.
pub fn trim(s: &str) -> (r: String)
    ensures
        r@ == spec_trim(s@),
{
    let n: usize = s.unicode_len();
    let mut i: usize = 0;
    while i < n && space_char(s.get_char(i))
        invariant
            n == s@.len(),
            0 <= i <= n,
            forall|j: int| 0 <= j < i ==> is_space(s@[j]),
        decreases n - i,
    {
        i = i + 1;
    }
    let mut j: usize = n;
    while j > i && space_char(s.get_char(j - 1))
        invariant
            n == s@.len(),
            i <= j <= n,
            forall|k: int| j <= k < n ==> is_space(s@[k]),
        decreases j,
    {
        j = j - 1;
    }
    proof {
        lemma_trim_start_at(s@, i as int);
        let t = s@.skip(i as int);
        lemma_trim_end_at(t, j - i);
        assert(t.take(j - i) =~= s@.subrange(i as int, j as int));
    }
    let piece = s.substring_char(i, j);
    String::from_str(piece)
}

/// Trimming from the start only removes leading whitespace: what remains is a
/// suffix, and the dropped prefix was all whitespace.
proof fn lemma_trim_start_keeps_tail(s: Seq<char>)
    ensures
        spec_trim_start(s).len() <= s.len(),
        spec_trim_start(s) == s.skip(s.len() - spec_trim_start(s).len()),
        forall|j: int|
            0 <= j < s.len() - spec_trim_start(s).len() ==> is_space(s[j]),
    decreases s.len(),
{
    if s.len() > 0 && is_space(s[0]) {
        lemma_trim_start_keeps_tail(s.skip(1));
        let d = s.len() - spec_trim_start(s).len();
        assert(s.skip(1).skip(d - 1) =~= s.skip(d));
        assert forall|j: int| 0 <= j < d implies is_space(s[j]) by {
            if j > 0 {
                assert(s.skip(1)[j - 1] == s[j]);
            }
        }
    } else {
        assert(s.skip(0) =~= s);
    }
}

/// Trimming from the end only removes trailing whitespace.
proof fn lemma_trim_end_keeps_head(s: Seq<char>)
    ensures
        spec_trim_end(s).len() <= s.len(),
        spec_trim_end(s) == s.take(spec_trim_end(s).len() as int),
        forall|k: int| spec_trim_end(s).len() <= k < s.len() ==> is_space(s[k]),
    decreases s.len(),
{
    if s.len() > 0 && is_space(s[s.len() - 1]) {
        let t = s.take(s.len() - 1);
        lemma_trim_end_keeps_head(t);
        let e = spec_trim_end(s).len() as int;
        assert(t.take(e) =~= s.take(e));
        assert forall|k: int| e <= k < s.len() implies is_space(s[k]) by {
            if k < s.len() - 1 {
                assert(t[k] == s[k]);
            }
        }
    } else {
        assert(s.take(s.len() as int) =~= s);
    }
}

/// Character-for-character string equality.
pub fn str_eq(a: &str, b: &str) -> (r: bool)
    ensures
        r == (a@ == b@),
{
    let na: usize = a.unicode_len();
    let nb: usize = b.unicode_len();
    if na != nb {
        return false;
    }
    let mut i: usize = 0;
    while i < na
        invariant
            na == a@.len(),
            na == b@.len(),
            0 <= i <= na,
            forall|j: int| 0 <= j < i ==> a@[j] == b@[j],
        decreases na - i,
    {
        if a.get_char(i) != b.get_char(i) {
            return false;
        }
        i = i + 1;
    }
    proof {
        assert(a@ =~= b@);
    }
    true
}

/// Lexicographic order on character sequences, by code point. For log
/// timestamps in a fixed RFC 3339 shape this coincides with chronological
/// order.
pub open spec fn lex_le(a: Seq<char>, b: Seq<char>) -> bool
    decreases a.len(),
{
    if a.len() == 0 {
        true
    } else if b.len() == 0 {
        false
    } else if (a[0] as u32) < (b[0] as u32) {
        true
    } else if (a[0] as u32) > (b[0] as u32) {
        false
    } else {
        lex_le(a.skip(1), b.skip(1))
    }
}

/// `lex_le` is total: of any two strings, one is less-or-equal the other.
pub proof fn lemma_lex_total(a: Seq<char>, b: Seq<char>)
    ensures
        lex_le(a, b) || lex_le(b, a),
    decreases a.len(),
{
    if a.len() > 0 && b.len() > 0 && (a[0] as u32) == (b[0] as u32) {
        lemma_lex_total(a.skip(1), b.skip(1));
    }
}

/// `lex_le` is transitive.
pub proof fn lemma_lex_trans(a: Seq<char>, b: Seq<char>, c: Seq<char>)
    requires
        lex_le(a, b),
        lex_le(b, c),
    ensures
        lex_le(a, c),
    decreases a.len(),
{
    if a.len() > 0 && b.len() > 0 && c.len() > 0 && (a[0] as u32) == (b[0] as u32) && (b[0] as u32)
        == (c[0] as u32) {
        lemma_lex_trans(a.skip(1), b.skip(1), c.skip(1));
    }
}

/// Comparing two strings starts at the first position where they differ.
proof fn lemma_lex_skip_common(a: Seq<char>, b: Seq<char>, i: int)
    requires
        0 <= i <= a.len(),
        i <= b.len(),
        forall|j: int| 0 <= j < i ==> (a[j] as u32) == (b[j] as u32),
    ensures
        lex_le(a, b) == lex_le(a.skip(i), b.skip(i)),
    decreases i,
{
    if i > 0 {
        lemma_lex_skip_common(a.skip(1), b.skip(1), i - 1);
        assert(a.skip(1).skip(i - 1) =~= a.skip(i));
        assert(b.skip(1).skip(i - 1) =~= b.skip(i));
    } else {
        assert(a.skip(0) =~= a);
        assert(b.skip(0) =~= b);
    }
}

/// Executable lexicographic comparison matching `lex_le`.
pub fn str_le(a: &str, b: &str) -> (r: bool)
    ensures
        r == lex_le(a@, b@),
{
    let na: usize = a.unicode_len();
    let nb: usize = b.unicode_len();
    let mut i: usize = 0;
    loop
        invariant
            na == a@.len(),
            nb == b@.len(),
            0 <= i <= na,
            i <= nb,
            forall|j: int| 0 <= j < i ==> (a@[j] as u32) == (b@[j] as u32),
        decreases na - i,
    {
        proof {
            lemma_lex_skip_common(a@, b@, i as int);
        }
        if i >= na {
            return true;
        }
        if i >= nb {
            return false;
        }
        let ca = a.get_char(i);
        let cb = b.get_char(i);
        if (ca as u32) < (cb as u32) {
            return true;
        }
        if (ca as u32) > (cb as u32) {
            return false;
        }
        i = i + 1;
    }
}

/// The pattern `p` occurs in `s` at position `i`.
pub open spec fn match_at(s: Seq<char>, p: Seq<char>, i: int) -> bool {
    0 <= i && i + p.len() <= s.len() && s.subrange(i, i + p.len()) == p
}

/// The pattern `p` occurs somewhere in `s`.
pub open spec fn has_substring(s: Seq<char>, p: Seq<char>) -> bool {
    exists|i: int| match_at(s, p, i)
}

/// Compare `p` against `s` starting at position `i`.
fn matches_at(s: &str, p: &str, i: usize) -> (r: bool)
    requires
        i + p@.len() <= s@.len(),
    ensures
        r == match_at(s@, p@, i as int),
{
    let n: usize = s.unicode_len();
    let m: usize = p.unicode_len();
    let mut k: usize = 0;
    while k < m
        invariant
            n == s@.len(),
            m == p@.len(),
            i + m <= s@.len(),
            0 <= k <= m,
            forall|j: int| 0 <= j < k ==> s@[i + j] == p@[j],
        decreases m - k,
    {
        if s.get_char(i + k) != p.get_char(k) {
            assert(s@.subrange(i as int, i + p@.len()) != p@) by {
                assert(s@.subrange(i as int, i + p@.len())[k as int] != p@[k as int]);
            }
            return false;
        }
        k = k + 1;
    }
    proof {
        assert(s@.subrange(i as int, i + p@.len()) =~= p@);
    }
    true
}

/// Find the leftmost occurrence of `p` in `s`.
pub fn find_first(s: &str, p: &str) -> (r: Option<usize>)
    ensures
        match r {
            Some(i) => match_at(s@, p@, i as int) && forall|j: int|
                0 <= j < i ==> !match_at(s@, p@, j),
            None => !has_substring(s@, p@),
        },
{
    let n: usize = s.unicode_len();
    let m: usize = p.unicode_len();
    if m > n {
        proof {
            assert(forall|j: int| !match_at(s@, p@, j));
        }
        return None;
    }
    if m == 0 {
        proof {
            assert(s@.subrange(0, 0) =~= p@);
        }
        return Some(0);
    }
    let mut i: usize = 0;
    while i <= n - m
        invariant
            n == s@.len(),
            m == p@.len(),
            0 < m <= n,
            0 <= i <= n - m + 1,
            forall|j: int| 0 <= j < i ==> !match_at(s@, p@, j),
        decreases n - i,
    {
        if matches_at(s, p, i) {
            return Some(i);
        }
        i = i + 1;
    }
    proof {
        assert(forall|j: int| j >= i ==> !match_at(s@, p@, j));
    }
    None
}

/// True iff `p` occurs somewhere in `s`.
pub fn contains_sub(s: &str, p: &str) -> (r: bool)
    ensures
        r == has_substring(s@, p@),
{
    match find_first(s, p) {
        Some(_) => true,
        None => false,
    }
}

/// True iff `p` is a prefix of `s`.
pub fn str_starts_with(s: &str, p: &str) -> (r: bool)
    ensures
        r == (p@.len() <= s@.len() && s@.take(p@.len() as int) == p@),
{
    let n: usize = s.unicode_len();
    let m: usize = p.unicode_len();
    if m > n {
        return false;
    }
    let r = matches_at(s, p, 0);
    proof {
        assert(s@.subrange(0, p@.len() as int) =~= s@.take(p@.len() as int));
    }
    r
}

/// The pieces of `s` split on every occurrence of the separator `sep`,
/// scanning left to right; `n` occurrences give `n + 1` pieces.
pub open spec fn spec_split(s: Seq<char>, sep: Seq<char>) -> Seq<Seq<char>>
    decreases s.len(),
{
    if sep.len() == 0 || s.len() < sep.len() {
        seq![s]
    } else if s.subrange(0, sep.len() as int) == sep {
        seq![Seq::<char>::empty()] + spec_split(s.skip(sep.len() as int), sep)
    } else {
        let rest = spec_split(s.skip(1), sep);
        seq![seq![s[0]] + rest[0]] + rest.skip(1)
    }
}

/// Splitting yields at least one piece.
pub proof fn lemma_split_len(s: Seq<char>, sep: Seq<char>)
    ensures
        spec_split(s, sep).len() >= 1,
    decreases s.len(),
{
    if !(sep.len() == 0 || s.len() < sep.len()) {
        if s.subrange(0, sep.len() as int) == sep {
            lemma_split_len(s.skip(sep.len() as int), sep);
        } else {
            lemma_split_len(s.skip(1), sep);
        }
    }
}

/// When `s` holds no occurrence of `sep`, the only piece is `s` itself.
proof fn lemma_split_no_match(s: Seq<char>, sep: Seq<char>)
    requires
        sep.len() > 0,
        !has_substring(s, sep),
    ensures
        spec_split(s, sep) == seq![s],
    decreases s.len(),
{
    if s.len() >= sep.len() {
        assert(!match_at(s, sep, 0));
        assert(s.subrange(0, sep.len() as int) != sep);
        assert(forall|j: int| 0 <= j ==> !match_at(s.skip(1), sep, j)) by {
            assert forall|j: int| 0 <= j implies !match_at(s.skip(1), sep, j) by {
                if match_at(s.skip(1), sep, j) {
                    assert(s.skip(1).subrange(j, j + sep.len()) =~= s.subrange(
                        j + 1,
                        j + 1 + sep.len(),
                    ));
                    assert(match_at(s, sep, j + 1));
                }
            }
        }
        lemma_split_no_match(s.skip(1), sep);
        let rest = spec_split(s.skip(1), sep);
        assert(seq![s[0]] + rest[0] =~= s);
        assert(spec_split(s, sep) =~= seq![s]);
    }
}

/// When the leftmost occurrence of `sep` in `s` is at `i`, the first piece is
/// everything before `i` and the rest are the pieces of what follows the
/// separator.
proof fn lemma_split_at_first(s: Seq<char>, sep: Seq<char>, i: int)
    requires
        sep.len() > 0,
        match_at(s, sep, i),
        forall|j: int| 0 <= j < i ==> !match_at(s, sep, j),
    ensures
        spec_split(s, sep) == seq![s.take(i)] + spec_split(s.skip(i + sep.len()), sep),
    decreases i,
{
    if i == 0 {
        assert(s.subrange(0, sep.len() as int) == sep);
        assert(s.take(0) =~= Seq::<char>::empty());
        assert(spec_split(s, sep) =~= seq![s.take(0)] + spec_split(s.skip(sep.len() as int), sep));
    } else {
        assert(s.subrange(0, sep.len() as int) != sep) by {
            assert(!match_at(s, sep, 0));
        }
        assert(match_at(s.skip(1), sep, i - 1)) by {
            assert(s.skip(1).subrange(i - 1, i - 1 + sep.len()) =~= s.subrange(i, i + sep.len()));
        }
        assert(forall|j: int| 0 <= j < i - 1 ==> !match_at(s.skip(1), sep, j)) by {
            assert forall|j: int| 0 <= j < i - 1 implies !match_at(s.skip(1), sep, j) by {
                if match_at(s.skip(1), sep, j) {
                    assert(s.skip(1).subrange(j, j + sep.len()) =~= s.subrange(
                        j + 1,
                        j + 1 + sep.len(),
                    ));
                    assert(match_at(s, sep, j + 1));
                }
            }
        }
        lemma_split_at_first(s.skip(1), sep, i - 1);
        let rest = spec_split(s.skip(1), sep);
        lemma_split_len(s.skip(1).skip(i - 1 + sep.len()), sep);
        assert(s.skip(1).take(i - 1) =~= s.take(i).skip(1));
        assert(s.skip(1).skip(i - 1 + sep.len()) =~= s.skip(i + sep.len()));
        assert(rest[0] == s.take(i).skip(1));
        assert(seq![s[0]] + rest[0] =~= s.take(i));
        assert(rest.skip(1) =~= spec_split(s.skip(i + sep.len()), sep));
        assert(spec_split(s, sep) =~= seq![s.take(i)] + spec_split(s.skip(i + sep.len()), sep));
    }
}

/// Split `s` on every occurrence of `sep`, left to right.
pub fn split_on(s: &str, sep: &str) -> (r: Vec<String>)
    requires
        sep@.len() > 0,
    ensures
        r@.map_values(|x: String| x@) == spec_split(s@, sep@),
    decreases s@.len(),
{
    let n: usize = s.unicode_len();
    let m: usize = sep.unicode_len();
    match find_first(s, sep) {
        None => {
            proof {
                lemma_split_no_match(s@, sep@);
            }
            let mut r: Vec<String> = Vec::new();
            r.push(String::from_str(s));
            proof {
                assert(r@.map_values(|x: String| x@) =~= spec_split(s@, sep@));
            }
            r
        },
        Some(i) => {
            proof {
                lemma_split_at_first(s@, sep@, i as int);
            }
            let head = s.substring_char(0, i);
            let tail = s.substring_char(i + m, n);
            proof {
                assert(tail@ =~= s@.skip(i + sep@.len()));
                assert(head@ =~= s@.take(i as int));
            }
            let mut r = split_on(tail, sep);
            r.insert(0, String::from_str(head));
            proof {
                assert(r@.map_values(|x: String| x@) =~= spec_split(s@, sep@));
            }
            r
        },
    }
}

/// The decimal digit character for `d`.
pub open spec fn spec_digit(d: int) -> char {
    if d == 0 {
        '0'
    } else if d == 1 {
        '1'
    } else if d == 2 {
        '2'
    } else if d == 3 {
        '3'
    } else if d == 4 {
        '4'
    } else if d == 5 {
        '5'
    } else if d == 6 {
        '6'
    } else if d == 7 {
        '7'
    } else if d == 8 {
        '8'
    } else {
        '9'
    }
}

/// The decimal rendering of a non-negative integer, most significant digit
/// first, with no leading zeros (except for zero itself).
pub open spec fn spec_dec(n: int) -> Seq<char>
    decreases n,
{
    if n < 10 {
        seq![spec_digit(n)]
    } else {
        spec_dec(n / 10).push(spec_digit(n % 10))
    }
}

/// The single-character string for digit `d`.
fn digit_str(d: u128) -> (r: &'static str)
    requires
        d < 10,
    ensures
        r@ == seq![spec_digit(d as int)],
{
    proof {
        reveal_strlit("0");
        reveal_strlit("1");
        reveal_strlit("2");
        reveal_strlit("3");
        reveal_strlit("4");
        reveal_strlit("5");
        reveal_strlit("6");
        reveal_strlit("7");
        reveal_strlit("8");
        reveal_strlit("9");
    }
    if d == 0 {
        "0"
    } else if d == 1 {
        "1"
    } else if d == 2 {
        "2"
    } else if d == 3 {
        "3"
    } else if d == 4 {
        "4"
    } else if d == 5 {
        "5"
    } else if d == 6 {
        "6"
    } else if d == 7 {
        "7"
    } else if d == 8 {
        "8"
    } else {
        "9"
    }
}

/// Render `n` in decimal.
pub fn dec_u128(n: u128) -> (r: String)
    ensures
        r@ == spec_dec(n as int),
    decreases n,
{
    if n < 10 {
        String::from_str(digit_str(n))
    } else {
        let q: u128 = n / 10;
        let d: u128 = n % 10;
        proof {
            assert(q < n) by (nonlinear_arith)
                requires
                    n >= 10,
                    q == n / 10,
            ;
        }
        let head = dec_u128(q);
        head.concat(digit_str(d))
    }
}

} // verus!
