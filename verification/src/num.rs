//! Decimal digit strings: the mathematical value of a digit sequence,
//! formatting of unsigned integers, and overflow-checked parsing.

use vstd::prelude::*;

verus! {

/// `c` is one of the ten decimal digit characters.
pub open spec fn is_digit(c: char) -> bool {
    '0' <= c && c <= '9'
}

/// Numeric value of a digit character.
pub open spec fn digit_val(c: char) -> nat {
    (c as int - '0' as int) as nat
}

/// Every character of `s` is a decimal digit.
pub open spec fn all_digits(s: Seq<char>) -> bool {
    forall|i: int| 0 <= i < s.len() ==> is_digit(#[trigger] s[i])
}

/// Value of a digit string read most-significant first; 0 for the
/// empty string.
pub open spec fn digits_val(s: Seq<char>) -> nat
    decreases s.len(),
{
    if s.len() == 0 {
        0
    } else {
        digits_val(s.drop_last()) * 10 + digit_val(s.last())
    }
}

/// The digit character for a value below ten.
pub open spec fn digit_char(d: nat) -> char {
    if d == 0 {
        '0'
    } else if d == 1 {
        '1'
    } else if d == 2 {
        '2'
    } else if d == 3 {
        '3'
    } else if d == 4 {
        '4'
    } else if d == 5 {
        '5'
    } else if d == 6 {
        '6'
    } else if d == 7 {
        '7'
    } else if d == 8 {
        '8'
    } else {
        '9'
    }
}

/// Shortest decimal representation of `n`, most-significant digit
/// first.
pub open spec fn dec_rep(n: nat) -> Seq<char>
    decreases n,
{
    if n < 10 {
        seq![digit_char(n)]
    } else {
        dec_rep(n / 10).push(digit_char(n % 10))
    }
}

pub proof fn lemma_digit_char_val(d: nat)
    requires
        d < 10,
    ensures
        is_digit(digit_char(d)),
        digit_val(digit_char(d)) == d,
{
}

pub proof fn lemma_dec_rep_digits(n: nat)
    ensures
        dec_rep(n).len() >= 1,
        all_digits(dec_rep(n)),
    decreases n,
{
    if n < 10 {
        lemma_digit_char_val(n);
    } else {
        lemma_dec_rep_digits(n / 10);
        lemma_digit_char_val(n % 10);
    }
}

pub proof fn lemma_dec_rep_val(n: nat)
    ensures
        digits_val(dec_rep(n)) == n,
    decreases n,
{
    if n < 10 {
        lemma_digit_char_val(n);
        let s = dec_rep(n);
        assert(s.drop_last() =~= Seq::<char>::empty());
        assert(digits_val(Seq::<char>::empty()) == 0);
        assert(digits_val(s) == 0 * 10 + digit_val(digit_char(n)));
    } else {
        lemma_dec_rep_val(n / 10);
        lemma_digit_char_val(n % 10);
        assert(dec_rep(n).drop_last() =~= dec_rep(n / 10));
        assert(dec_rep(n).last() == digit_char(n % 10));
        assert(n == (n / 10) * 10 + n % 10) by (nonlinear_arith);
    }
}

/// Extending a digit string with further digits can only grow its
/// value.
pub proof fn lemma_digits_val_monotone(s: Seq<char>, from: int, i: int, j: int)
    requires
        0 <= from <= i <= j <= s.len(),
    ensures
        digits_val(s.subrange(from, j)) >= digits_val(s.subrange(from, i)),
    decreases j - i,
{
    if j > i {
        lemma_digits_val_monotone(s, from, i, j - 1);
        assert(s.subrange(from, j).drop_last() =~= s.subrange(from, j - 1));
        let prev = digits_val(s.subrange(from, j - 1));
        assert(digits_val(s.subrange(from, j)) == prev * 10 + digit_val(s.subrange(from, j).last()));
        assert(prev * 10 >= prev) by (nonlinear_arith);
    }
}

/// Length of the leading digit run of `s`.
pub open spec fn digit_run(s: Seq<char>) -> nat
    decreases s.len(),
{
    if s.len() == 0 || !is_digit(s[0]) {
        0
    } else {
        1 + digit_run(s.drop_first())
    }
}

/// Length of the leading digit-free run of `s`.
pub open spec fn nondigit_run(s: Seq<char>) -> nat
    decreases s.len(),
{
    if s.len() == 0 || is_digit(s[0]) {
        0
    } else {
        1 + nondigit_run(s.drop_first())
    }
}

pub proof fn lemma_digit_run_is(s: Seq<char>, k: int)
    requires
        0 <= k <= s.len(),
        forall|i: int| 0 <= i < k ==> is_digit(#[trigger] s[i]),
        k == s.len() || !is_digit(s[k]),
    ensures
        digit_run(s) == k,
    decreases k,
{
    if k == 0 {
    } else {
        let t = s.drop_first();
        assert(forall|i: int| 0 <= i < k - 1 ==> is_digit(#[trigger] t[i]));
        if k < s.len() {
            assert(t[k - 1] == s[k]);
        }
        lemma_digit_run_is(t, k - 1);
    }
}

pub proof fn lemma_nondigit_run_is(s: Seq<char>, k: int)
    requires
        0 <= k <= s.len(),
        forall|i: int| 0 <= i < k ==> !is_digit(#[trigger] s[i]),
        k == s.len() || is_digit(s[k]),
    ensures
        nondigit_run(s) == k,
    decreases k,
{
    if k == 0 {
    } else {
        let t = s.drop_first();
        assert(forall|i: int| 0 <= i < k - 1 ==> !is_digit(#[trigger] t[i]));
        if k < s.len() {
            assert(t[k - 1] == s[k]);
        }
        lemma_nondigit_run_is(t, k - 1);
    }
}

/// End of the digit run that starts at `from`.
pub fn scan_digits(s: &Vec<char>, from: usize) -> (j: usize)
    requires
        from <= s@.len(),
    ensures
        from <= j <= s@.len(),
        j - from == digit_run(s@.skip(from as int)),
        forall|i: int| from <= i < j ==> is_digit(#[trigger] s@[i]),
        j == s@.len() || !is_digit(s@[j as int]),
{
    let n = s.len();
    let mut j: usize = from;
    while j < n && digit(s[j])
        invariant
            from <= j <= n == s@.len(),
            forall|i: int| from <= i < j ==> is_digit(#[trigger] s@[i]),
        decreases n - j,
    {
        j = j + 1;
    }
    proof {
        let t = s@.skip(from as int);
        assert(forall|i: int| 0 <= i < j - from ==> is_digit(#[trigger] t[i]));
        if j < n {
            assert(t[j - from] == s@[j as int]);
        }
        lemma_digit_run_is(t, j - from);
    }
    j
}

/// End of the digit-free run that starts at `from`.
pub fn scan_nondigits(s: &Vec<char>, from: usize) -> (j: usize)
    requires
        from <= s@.len(),
    ensures
        from <= j <= s@.len(),
        j - from == nondigit_run(s@.skip(from as int)),
        forall|i: int| from <= i < j ==> !is_digit(#[trigger] s@[i]),
        j == s@.len() || is_digit(s@[j as int]),
{
    let n = s.len();
    let mut j: usize = from;
    while j < n && !digit(s[j])
        invariant
            from <= j <= n == s@.len(),
            forall|i: int| from <= i < j ==> !is_digit(#[trigger] s@[i]),
        decreases n - j,
    {
        j = j + 1;
    }
    proof {
        let t = s@.skip(from as int);
        assert(forall|i: int| 0 <= i < j - from ==> !is_digit(#[trigger] t[i]));
        if j < n {
            assert(t[j - from] == s@[j as int]);
        }
        lemma_nondigit_run_is(t, j - from);
    }
    j
}

fn digit_to_char(d: u8) -> (c: char)
    requires
        d < 10,
    ensures
        c == digit_char(d as nat),
{
    match d {
        0 => '0',
        1 => '1',
        2 => '2',
        3 => '3',
        4 => '4',
        5 => '5',
        6 => '6',
        7 => '7',
        8 => '8',
        _ => '9',
    }
}

/// Whether `c` is a decimal digit.
pub fn digit(c: char) -> (r: bool)
    ensures
        r == is_digit(c),
{
    let x: u32 = c as u32;
    48 <= x && x <= 57
}

fn char_to_digit(c: char) -> (d: u8)
    requires
        is_digit(c),
    ensures
        d == digit_val(c),
{
    ((c as u32) - 48) as u8
}

/// Formats `n` as its shortest decimal representation.
pub fn fmt_u32(n: u32) -> (v: Vec<char>)
    ensures
        v@ == dec_rep(n as nat),
    decreases n,
{
    if n < 10 {
        let mut v: Vec<char> = Vec::new();
        v.push(digit_to_char(n as u8));
        assert(v@ =~= dec_rep(n as nat));
        v
    } else {
        let mut v = fmt_u32(n / 10);
        v.push(digit_to_char((n % 10) as u8));
        assert(v@ =~= dec_rep(n as nat));
        v
    }
}

/// Parses `s[from..to]` as an unsigned decimal number.  Succeeds
/// exactly when the range is nonempty, holds only digits, and its
/// value fits in a `u32`.
pub fn parse_u32_range(s: &Vec<char>, from: usize, to: usize) -> (r: Option<u32>)
    requires
        from <= to <= s@.len(),
    ensures
        match r {
            Some(v) => from < to && all_digits(s@.subrange(from as int, to as int)) && v
                == digits_val(s@.subrange(from as int, to as int)),
            None => from == to || !all_digits(s@.subrange(from as int, to as int)) || digits_val(
                s@.subrange(from as int, to as int),
            ) > u32::MAX,
        },
        r is Some <==> (from < to && all_digits(s@.subrange(from as int, to as int)) && digits_val(
            s@.subrange(from as int, to as int),
        ) <= u32::MAX),
{
    if from == to {
        return None;
    }
    let big: u64 = u32::MAX as u64 + 1;
    let mut acc: u64 = 0;
    let mut i: usize = from;
    while i < to
        invariant
            big == u32::MAX as u64 + 1,
            from <= i <= to <= s@.len(),
            all_digits(s@.subrange(from as int, i as int)),
            acc <= big,
            acc < big ==> acc == digits_val(s@.subrange(from as int, i as int)),
            acc == big ==> digits_val(s@.subrange(from as int, i as int)) > u32::MAX,
        decreases to - i,
    {
        let c = s[i];
        if !digit(c) {
            proof {
                assert(s@.subrange(from as int, to as int)[i - from] == s@[i as int]);
            }
            return None;
        }
        let d = char_to_digit(c);
        proof {
            assert(s@.subrange(from as int, i + 1).drop_last() =~= s@.subrange(
                from as int,
                i as int,
            ));
            assert(s@.subrange(from as int, i + 1).last() == s@[i as int]);
        }
        let ghost prev = digits_val(s@.subrange(from as int, i as int));
        if acc == big {
            proof {
                assert(prev * 10 >= prev) by (nonlinear_arith);
            }
        } else {
            proof {
                assert(acc < big);
                assert(d < 10);
                assert(acc * 10 <= (big - 1) * 10) by (nonlinear_arith)
                    requires
                        acc <= big - 1,
                ;
            }
            acc = acc * 10 + d as u64;
            if acc > u32::MAX as u64 {
                acc = big;
            }
        }
        i = i + 1;
    }
    proof {
        if acc == big {
            lemma_digits_val_monotone(s@, from as int, to as int, to as int);
        }
    }
    if acc <= u32::MAX as u64 {
        Some(acc as u32)
    } else {
        None
    }
}

/// Parses a whole character vector as an unsigned decimal number.
pub fn parse_u32_all(s: &Vec<char>) -> (r: Option<u32>)
    ensures
        r is Some <==> (s@.len() > 0 && all_digits(s@) && digits_val(s@) <= u32::MAX),
        r is Some ==> r->0 == digits_val(s@),
{
    let n = s.len();
    let r = parse_u32_range(s, 0, n);
    proof {
        assert(s@.subrange(0, s@.len() as int) =~= s@);
    }
    r
}

/// Parses `s[from..to]` as a `u16`.
pub fn parse_u16_range(s: &Vec<char>, from: usize, to: usize) -> (r: Option<u16>)
    requires
        from <= to <= s@.len(),
    ensures
        r is Some <==> (from < to && all_digits(s@.subrange(from as int, to as int)) && digits_val(
            s@.subrange(from as int, to as int),
        ) <= u16::MAX),
        r is Some ==> r->0 == digits_val(s@.subrange(from as int, to as int)),
{
    match parse_u32_range(s, from, to) {
        Some(v) => if v <= u16::MAX as u32 {
            Some(v as u16)
        } else {
            None
        },
        None => None,
    }
}

/// Parses `s[from..to]` as a `u8`.
pub fn parse_u8_range(s: &Vec<char>, from: usize, to: usize) -> (r: Option<u8>)
    requires
        from <= to <= s@.len(),
    ensures
        r is Some <==> (from < to && all_digits(s@.subrange(from as int, to as int)) && digits_val(
            s@.subrange(from as int, to as int),
        ) <= u8::MAX),
        r is Some ==> r->0 == digits_val(s@.subrange(from as int, to as int)),
{
    match parse_u32_range(s, from, to) {
        Some(v) => if v <= u8::MAX as u32 {
            Some(v as u8)
        } else {
            None
        },
        None => None,
    }
}

} // verus!
