//! Character-level text utilities shared by the parsers: whitespace
//! classification, trimming, tokenizing, and case-insensitive
//! comparison, all specified over `Seq<char>`.

use vstd::prelude::*;

verus! {

use vstd::string::StrSliceExecFns;

/// Whitespace as this crate's parsers understand it: the characters
/// carrying the Unicode white-space property.
pub open spec fn is_space(c: char) -> bool {
    c == ' ' || c == '\t' || c == '\n' || c == '\r' || c == '\u{0b}' || c == '\u{0c}' || c
        == '\u{85}' || c == '\u{a0}' || c == '\u{1680}' || ('\u{2000}' <= c && c <= '\u{200a}')
        || c == '\u{2028}' || c == '\u{2029}' || c == '\u{202f}' || c == '\u{205f}' || c
        == '\u{3000}'
}

/// Executable form of [`is_space`].
pub fn space(c: char) -> (r: bool)
    ensures
        r == is_space(c),
{
    c == ' ' || c == '\t' || c == '\n' || c == '\r' || c == '\u{0b}' || c == '\u{0c}' || c
        == '\u{85}' || c == '\u{a0}' || c == '\u{1680}' || ('\u{2000}' <= c && c <= '\u{200a}')
        || c == '\u{2028}' || c == '\u{2029}' || c == '\u{202f}' || c == '\u{205f}' || c
        == '\u{3000}'
}

/// `s` without its leading whitespace.
pub open spec fn trim_front(s: Seq<char>) -> Seq<char>
    decreases s.len(),
{
    if s.len() > 0 && is_space(s[0]) {
        trim_front(s.drop_first())
    } else {
        s
    }
}

/// `s` without its trailing whitespace.
pub open spec fn trim_back(s: Seq<char>) -> Seq<char>
    decreases s.len(),
{
    if s.len() > 0 && is_space(s.last()) {
        trim_back(s.drop_last())
    } else {
        s
    }
}

/// `s` without leading and trailing whitespace.
pub open spec fn trimmed(s: Seq<char>) -> Seq<char> {
    trim_back(trim_front(s))
}

proof fn lemma_trim_front_skip(s: Seq<char>, k: int)
    requires
        0 <= k <= s.len(),
        forall|i: int| 0 <= i < k ==> is_space(#[trigger] s[i]),
        k == s.len() || !is_space(s[k]),
    ensures
        trim_front(s) =~= s.skip(k),
    decreases k,
{
    if k == 0 {
        assert(trim_front(s) =~= s.skip(0));
    } else {
        let t = s.drop_first();
        assert(t =~= s.skip(1));
        assert(forall|i: int| 0 <= i < k - 1 ==> is_space(#[trigger] t[i]));
        lemma_trim_front_skip(t, k - 1);
        assert(t.skip(k - 1) =~= s.skip(k));
    }
}

proof fn lemma_trim_back_take(s: Seq<char>, k: int)
    requires
        0 <= k <= s.len(),
        forall|i: int| k <= i < s.len() ==> is_space(#[trigger] s[i]),
        k == 0 || !is_space(s[k - 1]),
    ensures
        trim_back(s) =~= s.take(k),
    decreases s.len() - k,
{
    if k == s.len() {
        assert(trim_back(s) =~= s.take(k));
    } else {
        let t = s.drop_last();
        lemma_trim_back_take(t, k);
        assert(t.take(k) =~= s.take(k));
    }
}

/// Bounds of the whitespace-trimmed middle of `s`.
pub fn trim_range(s: &Vec<char>) -> (r: (usize, usize))
    ensures
        r.0 <= r.1 <= s@.len(),
        s@.subrange(r.0 as int, r.1 as int) == trimmed(s@),
        forall|i: int| 0 <= i < r.0 ==> is_space(#[trigger] s@[i]),
        forall|i: int| r.1 <= i < s@.len() ==> is_space(#[trigger] s@[i]),
{
    let n = s.len();
    let mut from: usize = 0;
    while from < n && space(s[from])
        invariant
            from <= n == s@.len(),
            forall|i: int| 0 <= i < from ==> is_space(#[trigger] s@[i]),
        decreases n - from,
    {
        from = from + 1;
    }
    proof {
        lemma_trim_front_skip(s@, from as int);
    }
    if from == n {
        proof {
            assert(s@.skip(n as int) =~= Seq::<char>::empty());
            assert(s@.subrange(n as int, n as int) =~= Seq::<char>::empty());
        }
        return (n, n);
    }
    let mut to: usize = n;
    while to > from && space(s[to - 1])
        invariant
            from <= to <= n == s@.len(),
            !is_space(s@[from as int]),
            forall|i: int| to <= i < n ==> is_space(#[trigger] s@[i]),
        decreases to,
    {
        to = to - 1;
    }
    proof {
        let t = s@.skip(from as int);
        assert(forall|i: int| to - from <= i < t.len() ==> is_space(#[trigger] t[i]));
        assert(!is_space(t[0]));
        lemma_trim_back_take(t, to - from);
        assert(t.take(to - from) =~= s@.subrange(from as int, to as int));
    }
    (from, to)
}

/// Length of the leading whitespace-free run of `s`.
pub open spec fn token_len(s: Seq<char>) -> nat
    decreases s.len(),
{
    if s.len() == 0 || is_space(s[0]) {
        0
    } else {
        1 + token_len(s.drop_first())
    }
}

pub proof fn lemma_token_len_le(s: Seq<char>)
    ensures
        token_len(s) <= s.len(),
    decreases s.len(),
{
    if s.len() > 0 && !is_space(s[0]) {
        lemma_token_len_le(s.drop_first());
    }
}

/// The whitespace-separated tokens of `s`, in order.
pub open spec fn ws_tokens(s: Seq<char>) -> Seq<Seq<char>>
    decreases s.len(),
    via ws_tokens_decreases
{
    if s.len() == 0 {
        Seq::empty()
    } else if is_space(s[0]) {
        ws_tokens(s.drop_first())
    } else {
        seq![s.take(token_len(s) as int)] + ws_tokens(s.skip(token_len(s) as int))
    }
}

#[via_fn]
proof fn ws_tokens_decreases(s: Seq<char>) {
    if s.len() > 0 && !is_space(s[0]) {
        lemma_token_len_le(s);
        assert(token_len(s) >= 1);
    }
}

proof fn lemma_token_len_run(s: Seq<char>, k: int)
    requires
        0 < k <= s.len(),
        forall|i: int| 0 <= i < k ==> !is_space(#[trigger] s[i]),
        k == s.len() || is_space(s[k]),
    ensures
        token_len(s) == k,
    decreases k,
{
    let t = s.drop_first();
    if k == 1 {
        if s.len() > 1 {
            assert(t[0] == s[1]);
            assert(is_space(t[0]));
        }
        assert(token_len(t) == 0);
    } else {
        assert(forall|i: int| 0 <= i < k - 1 ==> !is_space(#[trigger] t[i]));
        if k < s.len() {
            assert(t[k - 1] == s[k]);
        }
        lemma_token_len_run(t, k - 1);
    }
}

/// Splits `s` into its whitespace-separated tokens.
pub fn split_spaces(s: &Vec<char>) -> (toks: Vec<Vec<char>>)
    ensures
        toks.deep_view() == ws_tokens(s@),
{
    let n = s.len();
    let mut toks: Vec<Vec<char>> = Vec::new();
    let mut i: usize = 0;
    proof {
        assert(s@.skip(0) =~= s@);
        assert(toks.deep_view() =~~= Seq::<Seq<char>>::empty());
        assert(toks.deep_view() + ws_tokens(s@) =~~= ws_tokens(s@));
    }
    while i < n
        invariant
            i <= n == s@.len(),
            toks.deep_view() + ws_tokens(s@.skip(i as int)) =~~= ws_tokens(s@),
        decreases n - i,
    {
        let c = s[i];
        if space(c) {
            proof {
                let t = s@.skip(i as int);
                assert(t.drop_first() =~= s@.skip(i + 1));
                assert(ws_tokens(s@.skip(i as int)) == ws_tokens(s@.skip(i + 1)));
            }
            i = i + 1;
        } else {
            let start = i;
            let mut tok: Vec<char> = Vec::new();
            tok.push(c);
            i = i + 1;
            while i < n && !space(s[i])
                invariant
                    start < i <= n == s@.len(),
                    tok@ =~= s@.subrange(start as int, i as int),
                    forall|k: int| start <= k < i ==> !is_space(#[trigger] s@[k]),
                decreases n - i,
            {
                tok.push(s[i]);
                i = i + 1;
            }
            proof {
                let t = s@.skip(start as int);
                assert(forall|k: int| 0 <= k < i - start ==> !is_space(#[trigger] t[k]));
                lemma_token_len_run(t, i - start);
                assert(t.take(i - start) =~= s@.subrange(start as int, i as int));
                assert(t.skip(i - start) =~= s@.skip(i as int));
                assert(ws_tokens(t) == seq![tok@] + ws_tokens(s@.skip(i as int)));
                assert(toks.deep_view().push(tok@) + ws_tokens(s@.skip(i as int)) =~~= toks.deep_view()
                    + ws_tokens(t));
            }
            let ghost old_toks = toks.deep_view();
            toks.push(tok);
            proof {
                assert(toks.deep_view() =~~= old_toks.push(tok@));
            }
        }
    }
    proof {
        assert(s@.skip(n as int) =~= Seq::<char>::empty());
        assert(toks.deep_view() + ws_tokens(Seq::<char>::empty()) =~~= toks.deep_view());
    }
    toks
}

/// First position of `target` in `s` at or after `from`.
pub fn find_char(s: &Vec<char>, from: usize, target: char) -> (r: Option<usize>)
    requires
        from <= s@.len(),
    ensures
        match r {
            Some(j) => from <= j < s@.len() && s@[j as int] == target && forall|k: int|
                from <= k < j ==> s@[k] != target,
            None => forall|k: int| from <= k < s@.len() ==> s@[k] != target,
        },
{
    let n = s.len();
    let mut i: usize = from;
    while i < n
        invariant
            from <= i <= n == s@.len(),
            forall|k: int| from <= k < i ==> s@[k] != target,
        decreases n - i,
    {
        if s[i] == target {
            return Some(i);
        }
        i = i + 1;
    }
    None
}

/// The two characters are equal up to ASCII letter case.
pub open spec fn chars_eq_nocase(a: char, b: char) -> bool {
    a == b || ('A' <= a && a <= 'Z' && b as int == a as int + 32) || ('A' <= b && b <= 'Z'
        && a as int == b as int + 32)
}

/// The two texts are equal up to ASCII letter case.
pub open spec fn seq_eq_nocase(a: Seq<char>, b: Seq<char>) -> bool {
    a.len() == b.len() && forall|i: int|
        0 <= i < a.len() ==> chars_eq_nocase(#[trigger] a[i], b[i])
}

fn char_eq_nocase(a: char, b: char) -> (r: bool)
    ensures
        r == chars_eq_nocase(a, b),
{
    let x: u32 = a as u32;
    let y: u32 = b as u32;
    a == b || (65 <= x && x <= 90 && y == x + 32) || (65 <= y && y <= 90 && x == y + 32)
}

/// Compares a token with a literal, ignoring ASCII letter case.
pub fn eq_nocase_lit(tok: &Vec<char>, lit: &str) -> (r: bool)
    ensures
        r == seq_eq_nocase(tok@, lit@),
{
    let m = lit.unicode_len();
    if tok.len() != m {
        return false;
    }
    let mut i: usize = 0;
    while i < m
        invariant
            i <= m == lit@.len(),
            tok@.len() == m,
            forall|k: int| 0 <= k < i ==> chars_eq_nocase(#[trigger] tok@[k], lit@[k]),
        decreases m - i,
    {
        if !char_eq_nocase(tok[i], lit.get_char(i)) {
            return false;
        }
        i = i + 1;
    }
    true
}

/// Index of the first `c` in `s`, or the length of `s` when absent.
pub open spec fn prefix_to(s: Seq<char>, c: char) -> nat
    decreases s.len(),
{
    if s.len() == 0 || s[0] == c {
        0
    } else {
        1 + prefix_to(s.drop_first(), c)
    }
}

pub proof fn lemma_prefix_to_run(s: Seq<char>, c: char, k: int)
    requires
        0 <= k <= s.len(),
        forall|i: int| 0 <= i < k ==> s[i] != c,
        k == s.len() || s[k] == c,
    ensures
        prefix_to(s, c) == k,
    decreases k,
{
    if k == 0 {
    } else {
        let t = s.drop_first();
        assert(forall|i: int| 0 <= i < k - 1 ==> t[i] != c);
        if k < s.len() {
            assert(t[k - 1] == s[k]);
        }
        lemma_prefix_to_run(t, c, k - 1);
    }
}

/// `t` occurs in `s` starting at position `i`.
pub open spec fn occurs_at(s: Seq<char>, t: Seq<char>, i: int) -> bool {
    0 <= i && i + t.len() <= s.len() && forall|k: int| 0 <= k < t.len() ==> s[i + k] == t[k]
}

/// `t` occurs somewhere in `s`.
pub open spec fn contains_seq(s: Seq<char>, t: Seq<char>) -> bool {
    exists|i: int| occurs_at(s, t, i)
}

/// Whether the literal occurs as a substring.
pub fn contains_lit(s: &Vec<char>, lit: &str) -> (r: bool)
    ensures
        r == contains_seq(s@, lit@),
{
    let n = s.len();
    let m = lit.unicode_len();
    if m > n {
        proof {
            assert(forall|i: int| !occurs_at(s@, lit@, i));
        }
        return false;
    }
    let mut i: usize = 0;
    while i <= n - m
        invariant
            m <= n == s@.len(),
            m == lit@.len(),
            i <= n - m + 1,
            forall|p: int| 0 <= p < i ==> !occurs_at(s@, lit@, p),
        decreases n - i,
    {
        let mut k: usize = 0;
        let mut ok = true;
        while k < m
            invariant
                m <= n == s@.len(),
                m == lit@.len(),
                i + m <= n,
                ok ==> forall|q: int| 0 <= q < k ==> s@[i + q] == lit@[q],
                !ok ==> !occurs_at(s@, lit@, i as int),
                k <= m,
            decreases m - k,
        {
            if s[i + k] != lit.get_char(k) {
                ok = false;
                k = m;
            } else {
                k = k + 1;
            }
        }
        if ok {
            proof {
                assert(occurs_at(s@, lit@, i as int));
            }
            return true;
        }
        i = i + 1;
    }
    proof {
        assert(forall|p: int| occurs_at(s@, lit@, p) ==> 0 <= p <= n - m);
    }
    false
}

/// Whether `s[from..to]` equals the literal's characters.
pub fn range_eq_lit(s: &Vec<char>, from: usize, to: usize, lit: &str) -> (r: bool)
    requires
        from <= to <= s@.len(),
    ensures
        r == (s@.subrange(from as int, to as int) == lit@),
{
    let m = lit.unicode_len();
    if to - from != m {
        return false;
    }
    let mut k: usize = 0;
    while k < m
        invariant
            from + m <= s@.len(),
            to == from + m,
            m == lit@.len(),
            k <= m,
            forall|q: int| 0 <= q < k ==> s@[from + q] == lit@[q],
        decreases m - k,
    {
        if s[from + k] != lit.get_char(k) {
            proof {
                assert(s@.subrange(from as int, to as int)[k as int] == s@[from + k]);
            }
            return false;
        }
        k = k + 1;
    }
    proof {
        assert(s@.subrange(from as int, to as int) =~= lit@);
    }
    true
}

/// Collects the characters of a string slice.
pub fn chars_vec(s: &str) -> (v: Vec<char>)
    ensures
        v@ == s@,
{
    let n = s.unicode_len();
    let mut v: Vec<char> = Vec::new();
    let mut i: usize = 0;
    while i < n
        invariant
            i <= n == s@.len(),
            v@ =~= s@.take(i as int),
        decreases n - i,
    {
        v.push(s.get_char(i));
        i = i + 1;
    }
    proof {
        assert(s@.take(n as int) =~= s@);
    }
    v
}

/// Relies on `String: FromIterator<char>`: the built string holds
/// exactly the given characters, in order.
#[verifier::external_body]
pub fn string_from_chars(v: &Vec<char>) -> (s: String)
    ensures
        s@ == v@,
{
    v.iter().collect()
}

} // verus!
