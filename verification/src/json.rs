//! The output artifact's wire format: a JSON text for each match
//! record, written compactly, and a whitespace-tolerant reader for a
//! stream of such texts.  Serializer and reader are both specified
//! as functions on character sequences, and reading a serialized
//! record is proved to give the record back.

use vstd::prelude::*;

verus! {

use vstd::string::StrSliceExecFns;
use crate::num::{
    dec_rep,
    digit_run,
    digits_val,
    is_digit,
    lemma_dec_rep_digits,
    lemma_dec_rep_val,
    lemma_digit_run_is,
    parse_u32_range,
    scan_digits,
    fmt_u32,
};
use crate::result_code::PlayerResult;
use crate::text::{is_space, occurs_at, string_from_chars, chars_vec};

/// End of the whitespace run that starts at `i`.
pub open spec fn ws_end(s: Seq<char>, i: int) -> int
    decreases s.len() - i,
{
    if 0 <= i < s.len() && is_space(s[i]) {
        ws_end(s, i + 1)
    } else {
        i
    }
}

pub proof fn lemma_ws_end(s: Seq<char>, i: int)
    requires
        0 <= i <= s.len(),
    ensures
        i <= ws_end(s, i) <= s.len(),
        ws_end(s, i) == s.len() || !is_space(s[ws_end(s, i)]),
        forall|k: int| i <= k < ws_end(s, i) ==> is_space(#[trigger] s[k]),
    decreases s.len() - i,
{
    if i < s.len() && is_space(s[i]) {
        lemma_ws_end(s, i + 1);
    }
}

/// Skips whitespace.
pub fn skip_ws(s: &Vec<char>, i: usize) -> (j: usize)
    requires
        i <= s@.len(),
    ensures
        j == ws_end(s@, i as int),
        i <= j <= s@.len(),
        j == s@.len() || !is_space(s@[j as int]),
{
    let n = s.len();
    let mut j: usize = i;
    while j < n && crate::text::space(s[j])
        invariant
            i <= j <= n == s@.len(),
            ws_end(s@, i as int) == ws_end(s@, j as int),
        decreases n - j,
    {
        j = j + 1;
    }
    proof {
        lemma_ws_end(s@, j as int);
    }
    j
}

proof fn lemma_occurs_concat(s: Seq<char>, a: Seq<char>, b: Seq<char>, i: int)
    requires
        occurs_at(s, a + b, i),
    ensures
        occurs_at(s, a, i),
        occurs_at(s, b, i + a.len()),
{
    assert forall|k: int| 0 <= k < a.len() implies s[i + k] == a[k] by {
        assert(s[i + k] == (a + b)[k]);
    }
    assert forall|k: int| 0 <= k < b.len() implies s[i + a.len() + k] == b[k] by {
        assert(s[i + (a.len() + k)] == (a + b)[a.len() + k]);
    }
}

proof fn lemma_occurs_head(s: Seq<char>, t: Seq<char>, i: int)
    requires
        occurs_at(s, t, i),
        t.len() > 0,
    ensures
        0 <= i < s.len(),
        s[i] == t[0],
        occurs_at(s, t.drop_first(), i + 1),
{
    assert(s[i + 0] == t[0]);
    assert forall|k: int| 0 <= k < t.len() - 1 implies s[i + 1 + k] == t.drop_first()[k] by {
        assert(s[i + (k + 1)] == t[k + 1]);
    }
}

/// A serialized number: the shortest decimal representation.
pub open spec fn ser_u32(n: u32) -> Seq<char> {
    dec_rep(n as nat)
}

/// Reads a decimal number fitting a `u32`.
pub open spec fn p_u32(s: Seq<char>, i: int) -> Option<(u32, int)> {
    if !(0 <= i <= s.len()) {
        Option::None
    } else {
        let j = i + digit_run(s.skip(i)) as int;
        if j == i {
            Option::None
        } else if digits_val(s.subrange(i, j)) > u32::MAX {
            Option::None
        } else {
            Option::Some((digits_val(s.subrange(i, j)) as u32, j))
        }
    }
}

proof fn lemma_p_u32_ser(n: u32, s: Seq<char>, i: int)
    requires
        occurs_at(s, ser_u32(n), i),
        i + ser_u32(n).len() == s.len() || !is_digit(s[i + ser_u32(n).len()]),
    ensures
        p_u32(s, i) == Option::Some((n, i + ser_u32(n).len())),
{
    let t = dec_rep(n as nat);
    lemma_dec_rep_digits(n as nat);
    lemma_dec_rep_val(n as nat);
    let sub = s.skip(i);
    assert forall|k: int| 0 <= k < t.len() implies is_digit(#[trigger] sub[k]) by {
        assert(sub[k] == s[i + k]);
        assert(s[i + k] == t[k]);
        assert(crate::num::all_digits(t));
    }
    if i + t.len() < s.len() {
        assert(sub[t.len() as int] == s[i + t.len()]);
    }
    lemma_digit_run_is(sub, t.len() as int);
    assert(s.subrange(i, i + t.len()) =~= t);
}

/// Executable number reader, equal to [`p_u32`].
pub fn parse_num(s: &Vec<char>, i: usize) -> (r: Option<(u32, usize)>)
    requires
        i <= s@.len(),
    ensures
        match r {
            Option::Some((v, j)) => p_u32(s@, i as int) == Option::Some((v, j as int)) && i < j
                <= s@.len(),
            Option::None => p_u32(s@, i as int) is None,
        },
{
    let j = scan_digits(s, i);
    if j == i {
        return None;
    }
    match parse_u32_range(s, i, j) {
        Some(v) => Some((v, j)),
        None => None,
    }
}

/// Escaping of one character inside a JSON string: quotes and
/// backslashes get a backslash, everything else stands as itself.
pub open spec fn esc_char(c: char) -> Seq<char> {
    if c == '"' || c == '\\' {
        seq!['\\', c]
    } else {
        seq![c]
    }
}

/// Escaping of a whole text.
pub open spec fn esc(t: Seq<char>) -> Seq<char>
    decreases t.len(),
{
    if t.len() == 0 {
        Seq::empty()
    } else {
        esc_char(t[0]) + esc(t.drop_first())
    }
}

/// A serialized string: the escaped text between quotes.
pub open spec fn ser_string(t: Seq<char>) -> Seq<char> {
    seq!['"'] + esc(t) + seq!['"']
}

/// Reads the body of a JSON string after the opening quote,
/// undoing the escaping; fails on a dangling or unknown escape or a
/// missing closing quote.
pub open spec fn p_str_body(s: Seq<char>, i: int) -> Option<(Seq<char>, int)>
    decreases s.len() - i,
{
    if !(0 <= i < s.len()) {
        Option::None
    } else if s[i] == '"' {
        Option::Some((Seq::empty(), i + 1))
    } else if s[i] == '\\' {
        if i + 1 < s.len() && (s[i + 1] == '"' || s[i + 1] == '\\') {
            match p_str_body(s, i + 2) {
                Option::Some((t, j)) => Option::Some((seq![s[i + 1]] + t, j)),
                Option::None => Option::None,
            }
        } else {
            Option::None
        }
    } else {
        match p_str_body(s, i + 1) {
            Option::Some((t, j)) => Option::Some((seq![s[i]] + t, j)),
            Option::None => Option::None,
        }
    }
}

/// Reads a JSON string, quotes included.
pub open spec fn p_string(s: Seq<char>, i: int) -> Option<(Seq<char>, int)> {
    if 0 <= i < s.len() && s[i] == '"' {
        p_str_body(s, i + 1)
    } else {
        Option::None
    }
}

proof fn lemma_p_str_body_esc(t: Seq<char>, s: Seq<char>, i: int)
    requires
        occurs_at(s, esc(t) + seq!['"'], i),
    ensures
        p_str_body(s, i) == Option::Some((t, i + esc(t).len() + 1)),
    decreases t.len(),
{
    if t.len() == 0 {
        assert(esc(t) + seq!['"'] =~= seq!['"']);
        lemma_occurs_head(s, seq!['"'], i);
    } else {
        let c = t[0];
        let rest = t.drop_first();
        assert(esc(t) + seq!['"'] =~= esc_char(c) + (esc(rest) + seq!['"']));
        lemma_occurs_concat(s, esc_char(c), esc(rest) + seq!['"'], i);
        lemma_occurs_head(s, esc_char(c), i);
        if c == '"' || c == '\\' {
            assert(s[i] == '\\');
            assert(s[i + 1] == c);
            lemma_p_str_body_esc(rest, s, i + 2);
            assert(seq![s[i + 1]] + rest =~= t);
        } else {
            assert(s[i] == c);
            lemma_p_str_body_esc(rest, s, i + 1);
            assert(seq![s[i]] + rest =~= t);
        }
    }
}

proof fn lemma_p_string_ser(t: Seq<char>, s: Seq<char>, i: int)
    requires
        occurs_at(s, ser_string(t), i),
    ensures
        p_string(s, i) == Option::Some((t, i + ser_string(t).len())),
{
    assert(ser_string(t) =~= seq!['"'] + (esc(t) + seq!['"']));
    lemma_occurs_concat(s, seq!['"'], esc(t) + seq!['"'], i);
    lemma_occurs_head(s, seq!['"'], i);
    lemma_p_str_body_esc(t, s, i + 1);
}

/// Appends a literal's characters.
pub fn push_lit(out: &mut Vec<char>, lit: &str)
    ensures
        final(out)@ == old(out)@ + lit@,
{
    let m = lit.unicode_len();
    let mut k: usize = 0;
    while k < m
        invariant
            k <= m == lit@.len(),
            out@ =~= old(out)@ + lit@.take(k as int),
        decreases m - k,
    {
        out.push(lit.get_char(k));
        k = k + 1;
    }
    proof {
        assert(old(out)@ + lit@.take(m as int) =~= old(out)@ + lit@);
    }
}

/// Appends a text, escaping it as [`esc`] does.
pub fn push_escaped(out: &mut Vec<char>, t: &Vec<char>)
    ensures
        final(out)@ == old(out)@ + esc(t@),
{
    let n = t.len();
    let mut k: usize = 0;
    while k < n
        invariant
            k <= n == t@.len(),
            out@ =~= old(out)@ + esc(t@.take(k as int)),
        decreases n - k,
    {
        let c = t[k];
        proof {
            lemma_esc_snoc(t@, k as int);
        }
        if c == '"' || c == '\\' {
            out.push('\\');
            out.push(c);
        } else {
            out.push(c);
        }
        k = k + 1;
    }
    proof {
        assert(t@.take(n as int) =~= t@);
    }
}

proof fn lemma_esc_snoc(t: Seq<char>, k: int)
    requires
        0 <= k < t.len(),
    ensures
        esc(t.take(k + 1)) =~= esc(t.take(k)) + esc_char(t[k]),
    decreases k,
{
    if k == 0 {
        assert(t.take(1) =~= seq![t[0]]);
        assert(t.take(1)[0] == t[0]);
        assert(t.take(1).drop_first() =~= Seq::<char>::empty());
        assert(t.take(0) =~= Seq::<char>::empty());
        assert(esc_char(t[0]) + Seq::<char>::empty() =~= esc_char(t[0]));
        assert(Seq::<char>::empty() + esc_char(t[0]) =~= esc_char(t[0]));
    } else {
        let u = t.drop_first();
        assert(t.take(k + 1)[0] == t[0]);
        assert(t.take(k + 1).drop_first() =~= u.take(k));
        assert(t.take(k).drop_first() =~= u.take(k - 1));
        assert(t.take(k)[0] == t[0]);
        lemma_esc_snoc(u, k - 1);
        assert(u[k - 1] == t[k]);
        assert(esc(t.take(k + 1)) == esc_char(t[0]) + esc(u.take(k)));
        assert(esc(t.take(k)) == esc_char(t[0]) + esc(u.take(k - 1)));
        assert(esc_char(t[0]) + (esc(u.take(k - 1)) + esc_char(t[k])) =~= (esc_char(t[0]) + esc(
            u.take(k - 1),
        )) + esc_char(t[k]));
    }
}

/// Appends a serialized string: the escaped text between quotes.
pub fn push_string(out: &mut Vec<char>, t: &Vec<char>)
    ensures
        final(out)@ == old(out)@ + ser_string(t@),
{
    out.push('"');
    push_escaped(out, t);
    out.push('"');
    proof {
        assert(out@ =~= old(out)@ + ser_string(t@));
    }
}

/// Executable string reader, equal to [`p_string`].
pub fn parse_string(s: &Vec<char>, i: usize) -> (r: Option<(Vec<char>, usize)>)
    requires
        i <= s@.len(),
    ensures
        match r {
            Option::Some((t, j)) => p_string(s@, i as int) == Option::Some((t@, j as int)) && i
                < j <= s@.len(),
            Option::None => p_string(s@, i as int) is None,
        },
{
    let n = s.len();
    if i >= n || s[i] != '"' {
        return None;
    }
    let mut out: Vec<char> = Vec::new();
    let mut j: usize = i + 1;
    proof {
        if let Option::Some((t, e)) = p_str_body(s@, (i + 1) as int) {
            assert(Seq::<char>::empty() + t =~= t);
        }
    }
    loop
        invariant
            i + 1 <= j <= n == s@.len(),
            s@[i as int] == '"',
            p_string(s@, i as int) == p_str_body(s@, (i + 1) as int),
            (match p_str_body(s@, j as int) {
                Option::Some((t, e)) => p_str_body(s@, (i + 1) as int) == Option::Some(
                    (out@ + t, e),
                ),
                Option::None => p_str_body(s@, (i + 1) as int) is None,
            }),
        decreases n - j,
    {
        if j >= n {
            return None;
        }
        let c = s[j];
        if c == '"' {
            proof {
                assert(p_str_body(s@, j as int) == Option::Some(
                    (Seq::<char>::empty(), j + 1 as int),
                ));
                assert(out@ + Seq::<char>::empty() =~= out@);
                assert(p_str_body(s@, (i + 1) as int) == Option::Some((out@, j + 1 as int)));
            }
            return Some((out, j + 1));
        }
        if c == '\\' {
            if j + 1 < n && (s[j + 1] == '"' || s[j + 1] == '\\') {
                let ghost old_out = out@;
                out.push(s[j + 1]);
                proof {
                    if let Option::Some((t, e)) = p_str_body(s@, (j + 2) as int) {
                        assert(old_out + (seq![s@[j + 1]] + t) =~= out@ + t);
                    }
                }
                j = j + 2;
            } else {
                return None;
            }
        } else {
            let ghost old_out = out@;
            out.push(c);
            proof {
                if let Option::Some((t, e)) = p_str_body(s@, (j + 1) as int) {
                    assert(old_out + (seq![s@[j as int]] + t) =~= out@ + t);
                }
            }
            j = j + 1;
        }
    }
}

/// The serialized form of a coded outcome: how `serde_json` writes
/// this enum — a bare string for a unit variant, a one-key object
/// for a scoring variant.
pub open spec fn ser_result(p: PlayerResult) -> Seq<char> {
    match p {
        PlayerResult::Score(n) => "{\"Score\":"@ + dec_rep(n as nat) + "}"@,
        PlayerResult::ScoreWithStar(n) => "{\"ScoreWithStar\":"@ + dec_rep(n as nat) + "}"@,
        PlayerResult::Fall => "\"Fall\""@,
        PlayerResult::Reserve => "\"Reserve\""@,
        PlayerResult::Resign => "\"Resign\""@,
        PlayerResult::Tape => "\"Tape\""@,
        PlayerResult::NotFinished => "\"NotFinished\""@,
        PlayerResult::NoScore => "\"None\""@,
    }
}

/// Maps the body of a unit-variant string to its outcome.
pub open spec fn result_of_name(t: Seq<char>) -> Option<PlayerResult> {
    if t == "Fall"@ {
        Option::Some(PlayerResult::Fall)
    } else if t == "Reserve"@ {
        Option::Some(PlayerResult::Reserve)
    } else if t == "Resign"@ {
        Option::Some(PlayerResult::Resign)
    } else if t == "Tape"@ {
        Option::Some(PlayerResult::Tape)
    } else if t == "NotFinished"@ {
        Option::Some(PlayerResult::NotFinished)
    } else if t == "None"@ {
        Option::Some(PlayerResult::NoScore)
    } else {
        Option::None
    }
}

/// Reads a coded outcome.
pub open spec fn p_result(s: Seq<char>, i: int) -> Option<(PlayerResult, int)> {
    let i0 = ws_end(s, i);
    if !(0 <= i0 < s.len()) {
        Option::None
    } else if s[i0] == '"' {
        match p_string(s, i0) {
            Option::Some((t, j)) => match result_of_name(t) {
                Option::Some(p) => Option::Some((p, j)),
                Option::None => Option::None,
            },
            Option::None => Option::None,
        }
    } else if s[i0] == '{' {
        let i1 = ws_end(s, i0 + 1);
        match p_string(s, i1) {
            Option::Some((key, j)) => {
                let star = if key == "Score"@ {
                    Option::Some(false)
                } else if key == "ScoreWithStar"@ {
                    Option::Some(true)
                } else {
                    Option::<bool>::None
                };
                match star {
                    Option::None => Option::None,
                    Option::Some(st) => {
                        let i2 = ws_end(s, j);
                        if i2 < s.len() && s[i2] == ':' {
                            match p_u32(s, ws_end(s, i2 + 1)) {
                                Option::Some((n, j2)) => {
                                    let i3 = ws_end(s, j2);
                                    if n <= u8::MAX && i3 < s.len() && s[i3] == '}' {
                                        if st {
                                            Option::Some(
                                                (PlayerResult::ScoreWithStar(n as u8), i3 + 1),
                                            )
                                        } else {
                                            Option::Some((PlayerResult::Score(n as u8), i3 + 1))
                                        }
                                    } else {
                                        Option::None
                                    }
                                },
                                Option::None => Option::None,
                            }
                        } else {
                            Option::None
                        }
                    },
                }
            },
            Option::None => Option::None,
        }
    } else {
        Option::None
    }
}

/// The text holds no character that escaping would change.
pub open spec fn plain(t: Seq<char>) -> bool {
    forall|i: int| 0 <= i < t.len() ==> t[i] != '"' && t[i] != '\\'
}

proof fn lemma_esc_plain(t: Seq<char>)
    requires
        plain(t),
    ensures
        esc(t) =~= t,
    decreases t.len(),
{
    if t.len() > 0 {
        assert(t[0] != '"' && t[0] != '\\');
        lemma_esc_plain(t.drop_first());
        assert(esc(t) =~= seq![t[0]] + t.drop_first());
        assert(seq![t[0]] + t.drop_first() =~= t);
    }
}

proof fn lemma_ser_string_quoted(name: &str, quoted: &str, s: Seq<char>, i: int)
    requires
        plain(name@),
        quoted@ =~= seq!['"'] + name@ + seq!['"'],
        occurs_at(s, quoted@, i),
    ensures
        p_string(s, i) == Option::Some((name@, i + name@.len() + 2)),
        ws_end(s, i) == i,
{
    lemma_esc_plain(name@);
    assert(ser_string(name@) =~= quoted@);
    lemma_p_string_ser(name@, s, i);
    lemma_occurs_head(s, quoted@, i);
    assert(s[i] == '"');
}

proof fn lemma_result_names_distinct()
    ensures
        "Reserve"@ != "Fall"@,
        "Resign"@ != "Fall"@,
        "Resign"@ != "Reserve"@,
        "Tape"@ != "Fall"@,
        "Tape"@ != "Reserve"@,
        "Tape"@ != "Resign"@,
        "NotFinished"@ != "Fall"@,
        "NotFinished"@ != "Reserve"@,
        "NotFinished"@ != "Resign"@,
        "NotFinished"@ != "Tape"@,
        "None"@ != "Fall"@,
        "None"@ != "Reserve"@,
        "None"@ != "Resign"@,
        "None"@ != "Tape"@,
        "None"@ != "NotFinished"@,
{
    reveal_strlit("Fall");
    reveal_strlit("Reserve");
    reveal_strlit("Resign");
    reveal_strlit("Tape");
    reveal_strlit("NotFinished");
    reveal_strlit("None");
    assert("Fall"@.len() == 4 && "Reserve"@.len() == 7 && "Resign"@.len() == 6 && "Tape"@.len()
        == 4 && "NotFinished"@.len() == 11 && "None"@.len() == 4);
    assert("Tape"@ != "Fall"@) by {
        assert("Tape"@[0] == 'T' && "Fall"@[0] == 'F');
    }
    assert("None"@ != "Fall"@) by {
        assert("None"@[0] == 'N' && "Fall"@[0] == 'F');
    }
    assert("None"@ != "Tape"@) by {
        assert("None"@[0] == 'N' && "Tape"@[0] == 'T');
    }
}

proof fn lemma_p_result_ser(p: PlayerResult, s: Seq<char>, i: int)
    requires
        occurs_at(s, ser_result(p), i),
    ensures
        p_result(s, i) == Option::Some((p, i + ser_result(p).len())),
{
    lemma_result_names_distinct();
    reveal_strlit("Fall");
    reveal_strlit("Reserve");
    reveal_strlit("Resign");
    reveal_strlit("Tape");
    reveal_strlit("NotFinished");
    reveal_strlit("None");
    reveal_strlit("\"Fall\"");
    reveal_strlit("\"Reserve\"");
    reveal_strlit("\"Resign\"");
    reveal_strlit("\"Tape\"");
    reveal_strlit("\"NotFinished\"");
    reveal_strlit("\"None\"");
    match p {
        PlayerResult::Score(n) => {
            lemma_p_score_obj_ser(false, n, s, i);
        },
        PlayerResult::ScoreWithStar(n) => {
            lemma_p_score_obj_ser(true, n, s, i);
        },
        PlayerResult::Fall => {
            lemma_ser_string_quoted("Fall", "\"Fall\"", s, i);
        },
        PlayerResult::Reserve => {
            lemma_ser_string_quoted("Reserve", "\"Reserve\"", s, i);
        },
        PlayerResult::Resign => {
            lemma_ser_string_quoted("Resign", "\"Resign\"", s, i);
        },
        PlayerResult::Tape => {
            lemma_ser_string_quoted("Tape", "\"Tape\"", s, i);
        },
        PlayerResult::NotFinished => {
            lemma_ser_string_quoted("NotFinished", "\"NotFinished\"", s, i);
        },
        PlayerResult::NoScore => {
            lemma_ser_string_quoted("None", "\"None\"", s, i);
        },
    }
}

proof fn lemma_p_score_obj_ser(star: bool, n: u8, s: Seq<char>, i: int)
    requires
        !star ==> occurs_at(s, "{\"Score\":"@ + dec_rep(n as nat) + "}"@, i),
        star ==> occurs_at(s, "{\"ScoreWithStar\":"@ + dec_rep(n as nat) + "}"@, i),
    ensures
        !star ==> p_result(s, i) == Option::Some(
            (PlayerResult::Score(n), i + ser_result(PlayerResult::Score(n)).len()),
        ),
        star ==> p_result(s, i) == Option::Some(
            (
                PlayerResult::ScoreWithStar(n),
                i + ser_result(PlayerResult::ScoreWithStar(n)).len(),
            ),
        ),
{
    reveal_strlit("{\"Score\":");
    reveal_strlit("{\"ScoreWithStar\":");
    reveal_strlit("Score");
    reveal_strlit("ScoreWithStar");
    reveal_strlit("}");
    let head = if star {
        "{\"ScoreWithStar\":"@
    } else {
        "{\"Score\":"@
    };
    let key = if star {
        "ScoreWithStar"@
    } else {
        "Score"@
    };
    let num = dec_rep(n as nat);
    lemma_occurs_concat(s, head + num, "}"@, i);
    lemma_occurs_concat(s, head, num, i);
    lemma_occurs_head(s, head, i);
    assert(s[i] == '{');
    assert(ws_end(s, i) == i);
    let quoted = seq!['"'] + key + seq!['"'];
    assert(head =~= (seq!['{'] + quoted) + seq![':']);
    lemma_occurs_concat(s, seq!['{'] + quoted, seq![':'], i);
    lemma_occurs_concat(s, seq!['{'], quoted, i);
    lemma_occurs_head(s, seq![':'], i + 1 + quoted.len());
    assert(plain(key));
    lemma_esc_plain(key);
    assert(ser_string(key) =~= quoted);
    lemma_p_string_ser(key, s, i + 1);
    assert(ws_end(s, i + 1) == i + 1) by {
        assert(s[i + 1] == '"');
    }
    let jkey = i + 1 + quoted.len();
    assert(jkey == i + head.len() - 1);
    assert(s[jkey] == ':');
    assert(ws_end(s, jkey) == jkey);
    let inum = i + head.len();
    assert(ws_end(s, inum) == inum) by {
        lemma_dec_rep_digits(n as nat);
        assert(s[inum] == num[0]);
        assert(is_digit(num[0]));
    }
    assert(occurs_at(s, num, inum));
    lemma_occurs_head(s, "}"@, i + (head + num).len());
    assert((head + num).len() == head.len() + num.len());
    assert(s[inum + num.len()] == '}');
    lemma_p_u32_ser(n as u32, s, inum);
    let jnum = inum + num.len();
    assert(ws_end(s, jnum) == jnum) by {
        assert(s[jnum] == '}');
    }
    if star {
        assert(key != "Score"@) by {
            assert(key.len() != "Score"@.len());
        }
    }
}

/// Appends the characters of another vector.
pub fn push_chars(out: &mut Vec<char>, v: &Vec<char>)
    ensures
        final(out)@ == old(out)@ + v@,
{
    let n = v.len();
    let mut k: usize = 0;
    while k < n
        invariant
            k <= n == v@.len(),
            out@ =~= old(out)@ + v@.take(k as int),
        decreases n - k,
    {
        out.push(v[k]);
        k = k + 1;
    }
    proof {
        assert(old(out)@ + v@.take(n as int) =~= old(out)@ + v@);
    }
}

/// Appends the serialized form of a coded outcome.
pub fn write_result(out: &mut Vec<char>, p: &PlayerResult)
    ensures
        final(out)@ == old(out)@ + ser_result(*p),
{
    match p {
        PlayerResult::Score(n) => {
            push_lit(out, "{\"Score\":");
            let d = fmt_u32(*n as u32);
            push_chars(out, &d);
            push_lit(out, "}");
            proof {
                assert(out@ =~= old(out)@ + ser_result(*p));
            }
        },
        PlayerResult::ScoreWithStar(n) => {
            push_lit(out, "{\"ScoreWithStar\":");
            let d = fmt_u32(*n as u32);
            push_chars(out, &d);
            push_lit(out, "}");
            proof {
                assert(out@ =~= old(out)@ + ser_result(*p));
            }
        },
        PlayerResult::Fall => push_lit(out, "\"Fall\""),
        PlayerResult::Reserve => push_lit(out, "\"Reserve\""),
        PlayerResult::Resign => push_lit(out, "\"Resign\""),
        PlayerResult::Tape => push_lit(out, "\"Tape\""),
        PlayerResult::NotFinished => push_lit(out, "\"NotFinished\""),
        PlayerResult::NoScore => push_lit(out, "\"None\""),
    }
}

/// Executable outcome reader, equal to [`p_result`].
pub fn parse_result(s: &Vec<char>, i: usize) -> (r: Option<(PlayerResult, usize)>)
    requires
        i <= s@.len(),
    ensures
        match r {
            Option::Some((v, j)) => p_result(s@, i as int) == Option::Some((v, j as int)) && i < j
                <= s@.len(),
            Option::None => p_result(s@, i as int) is None,
        },
{
    let n = s.len();
    let i0 = skip_ws(s, i);
    if i0 >= n {
        return None;
    }
    let c = s[i0];
    if c == '"' {
        match parse_string(s, i0) {
            Some((t, j)) => {
                let m = t.len();
                proof {
                    assert(t@.subrange(0, m as int) =~= t@);
                }
                if crate::text::range_eq_lit(&t, 0, m, "Fall") {
                    Some((PlayerResult::Fall, j))
                } else if crate::text::range_eq_lit(&t, 0, m, "Reserve") {
                    Some((PlayerResult::Reserve, j))
                } else if crate::text::range_eq_lit(&t, 0, m, "Resign") {
                    Some((PlayerResult::Resign, j))
                } else if crate::text::range_eq_lit(&t, 0, m, "Tape") {
                    Some((PlayerResult::Tape, j))
                } else if crate::text::range_eq_lit(&t, 0, m, "NotFinished") {
                    Some((PlayerResult::NotFinished, j))
                } else if crate::text::range_eq_lit(&t, 0, m, "None") {
                    Some((PlayerResult::NoScore, j))
                } else {
                    None
                }
            },
            None => None,
        }
    } else if c == '{' {
        let i1 = skip_ws(s, i0 + 1);
        let (key, j) = match parse_string(s, i1) {
            Some(kj) => kj,
            None => {
                return None;
            },
        };
        let m = key.len();
        proof {
            assert(key@.subrange(0, m as int) =~= key@);
        }
        let star: bool;
        if crate::text::range_eq_lit(&key, 0, m, "Score") {
            star = false;
        } else if crate::text::range_eq_lit(&key, 0, m, "ScoreWithStar") {
            star = true;
        } else {
            return None;
        }
        let i2 = skip_ws(s, j);
        if !(i2 < n && s[i2] == ':') {
            return None;
        }
        let i3 = skip_ws(s, i2 + 1);
        let (nv, j2) = match parse_num(s, i3) {
            Some(x) => x,
            None => {
                return None;
            },
        };
        if nv > u8::MAX as u32 {
            return None;
        }
        let i4 = skip_ws(s, j2);
        if !(i4 < n && s[i4] == '}') {
            return None;
        }
        if star {
            Some((PlayerResult::ScoreWithStar(nv as u8), i4 + 1))
        } else {
            Some((PlayerResult::Score(nv as u8), i4 + 1))
        }
    } else {
        None
    }
}

/// What `from_str` accepts: one serialized outcome, possibly with
/// whitespace around it, and nothing else.
pub open spec fn result_from_json(s: Seq<char>) -> Option<PlayerResult> {
    match p_result(s, 0) {
        Option::Some((v, j)) => if ws_end(s, j) == s.len() {
            Option::Some(v)
        } else {
            Option::None
        },
        Option::None => Option::None,
    }
}

impl PlayerResult {
    /// The serialized form of this outcome: the JSON text
    /// `serde_json` would write for it.
    pub fn to_string(&self) -> (r: String)
        ensures
            r@ == ser_result(*self),
    {
        let mut out: Vec<char> = Vec::new();
        write_result(&mut out, self);
        proof {
            assert(Seq::<char>::empty() + ser_result(*self) =~= ser_result(*self));
        }
        string_from_chars(&out)
    }

    /// Reads an outcome back from its serialized form; accepts
    /// exactly one serialized outcome with nothing but whitespace
    /// around it.
    pub fn from_str(source: &str) -> (r: Option<PlayerResult>)
        ensures
            r == result_from_json(source@),
    {
        let v = chars_vec(source);
        match parse_result(&v, 0) {
            Some((p, j)) => {
                let e = skip_ws(&v, j);
                if e == v.len() {
                    Some(p)
                } else {
                    None
                }
            },
            None => None,
        }
    }
}

/// Reading a serialized outcome gives the outcome back.
pub proof fn lemma_result_round_trip(p: PlayerResult)
    ensures
        result_from_json(ser_result(p)) == Option::Some(p),
{
    let s = ser_result(p);
    assert(occurs_at(s, s, 0));
    lemma_p_result_ser(p, s, 0);
    assert(ws_end(s, s.len() as int) == s.len());
}


/// `t` stands verbatim at position `i`.
pub open spec fn lit_at(s: Seq<char>, t: Seq<char>, i: int) -> bool {
    0 <= i && i + t.len() <= s.len() && s.subrange(i, i + t.len()) == t
}

proof fn lemma_occurs_lit(s: Seq<char>, t: Seq<char>, i: int)
    requires
        occurs_at(s, t, i),
    ensures
        lit_at(s, t, i),
{
    assert(s.subrange(i, i + t.len()) =~= t);
}

/// Whether the literal stands verbatim at `i`; on success returns
/// the position just past it.
pub fn expect_lit(s: &Vec<char>, i: usize, lit: &str) -> (r: Option<usize>)
    requires
        i <= s@.len(),
    ensures
        match r {
            Option::Some(j) => lit_at(s@, lit@, i as int) && j == i + lit@.len() && i <= j
                <= s@.len(),
            Option::None => !lit_at(s@, lit@, i as int),
        },
{
    let m = lit.unicode_len();
    if m > s.len() - i {
        return None;
    }
    if crate::text::range_eq_lit(s, i, i + m, lit) {
        Some(i + m)
    } else {
        None
    }
}

pub proof fn lemma_ws_end_ge(s: Seq<char>, i: int)
    ensures
        ws_end(s, i) >= i,
    decreases s.len() - i,
{
    if 0 <= i < s.len() && is_space(s[i]) {
        lemma_ws_end_ge(s, i + 1);
    }
}

/// The serialized form of a marker colour.
pub open spec fn ser_helmet(h: crate::game::Helmet) -> Seq<char> {
    match h {
        crate::game::Helmet::Red => "\"Red\""@,
        crate::game::Helmet::Yellow => "\"Yellow\""@,
        crate::game::Helmet::Blue => "\"Blue\""@,
        crate::game::Helmet::White => "\"White\""@,
    }
}

/// Maps the body of a colour string to its colour.
pub open spec fn helmet_of_name(t: Seq<char>) -> Option<crate::game::Helmet> {
    if t == "Red"@ {
        Option::Some(crate::game::Helmet::Red)
    } else if t == "Yellow"@ {
        Option::Some(crate::game::Helmet::Yellow)
    } else if t == "Blue"@ {
        Option::Some(crate::game::Helmet::Blue)
    } else if t == "White"@ {
        Option::Some(crate::game::Helmet::White)
    } else {
        Option::None
    }
}

/// Reads a marker colour.
pub open spec fn p_helmet(s: Seq<char>, i: int) -> Option<(crate::game::Helmet, int)> {
    let i0 = ws_end(s, i);
    match p_string(s, i0) {
        Option::Some((t, j)) => match helmet_of_name(t) {
            Option::Some(h) => Option::Some((h, j)),
            Option::None => Option::None,
        },
        Option::None => Option::None,
    }
}

/// Reads an optional marker colour: `null` or a colour.
pub open spec fn p_opt_helmet(s: Seq<char>, i: int) -> Option<
    (Option<crate::game::Helmet>, int),
> {
    let i0 = ws_end(s, i);
    if lit_at(s, "null"@, i0) {
        Option::Some((Option::None, i0 + 4))
    } else {
        match p_helmet(s, i0) {
            Option::Some((h, j)) => Option::Some((Option::Some(h), j)),
            Option::None => Option::None,
        }
    }
}

/// The serialized form of an optional marker colour.
pub open spec fn ser_opt_helmet(o: Option<crate::game::Helmet>) -> Seq<char> {
    match o {
        Option::None => "null"@,
        Option::Some(h) => ser_helmet(h),
    }
}

proof fn lemma_p_opt_helmet_ser(o: Option<crate::game::Helmet>, s: Seq<char>, i: int)
    requires
        occurs_at(s, ser_opt_helmet(o), i),
    ensures
        p_opt_helmet(s, i) == Option::Some((o, i + ser_opt_helmet(o).len())),
{
    reveal_strlit("null");
    reveal_strlit("Red");
    reveal_strlit("Yellow");
    reveal_strlit("Blue");
    reveal_strlit("White");
    reveal_strlit("\"Red\"");
    reveal_strlit("\"Yellow\"");
    reveal_strlit("\"Blue\"");
    reveal_strlit("\"White\"");
    assert("Red"@.len() == 3 && "Yellow"@.len() == 6 && "Blue"@.len() == 4 && "White"@.len() == 5
        && "null"@.len() == 4);
    match o {
        Option::None => {
            lemma_occurs_lit(s, "null"@, i);
            lemma_occurs_head(s, "null"@, i);
            assert(ws_end(s, i) == i);
        },
        Option::Some(h) => {
            lemma_occurs_head(s, ser_helmet(h), i);
            assert(s[i] == '"');
            assert(ws_end(s, i) == i);
            assert(!lit_at(s, "null"@, i)) by {
                if lit_at(s, "null"@, i) {
                    assert(s.subrange(i, i + 4)[0] == s[i]);
                    assert("null"@[0] == 'n');
                }
            }
            match h {
                crate::game::Helmet::Red => {
                    lemma_ser_string_quoted("Red", "\"Red\"", s, i);
                },
                crate::game::Helmet::Yellow => {
                    lemma_ser_string_quoted("Yellow", "\"Yellow\"", s, i);
                },
                crate::game::Helmet::Blue => {
                    lemma_ser_string_quoted("Blue", "\"Blue\"", s, i);
                },
                crate::game::Helmet::White => {
                    lemma_ser_string_quoted("White", "\"White\"", s, i);
                },
            }
        },
    }
}

/// Appends the serialized form of an optional marker colour.
pub fn write_opt_helmet(out: &mut Vec<char>, o: &Option<crate::game::Helmet>)
    ensures
        final(out)@ == old(out)@ + ser_opt_helmet(*o),
{
    match o {
        None => push_lit(out, "null"),
        Some(crate::game::Helmet::Red) => push_lit(out, "\"Red\""),
        Some(crate::game::Helmet::Yellow) => push_lit(out, "\"Yellow\""),
        Some(crate::game::Helmet::Blue) => push_lit(out, "\"Blue\""),
        Some(crate::game::Helmet::White) => push_lit(out, "\"White\""),
    }
}

/// Executable reader for an optional marker colour.
pub fn parse_opt_helmet(s: &Vec<char>, i: usize) -> (r: Option<
    (Option<crate::game::Helmet>, usize),
>)
    requires
        i <= s@.len(),
    ensures
        match r {
            Option::Some((v, j)) => p_opt_helmet(s@, i as int) == Option::Some((v, j as int)) && i
                < j <= s@.len(),
            Option::None => p_opt_helmet(s@, i as int) is None,
        },
{
    let i0 = skip_ws(s, i);
    match expect_lit(s, i0, "null") {
        Some(j) => {
            proof {
                reveal_strlit("null");
            }
            return Some((None, j));
        },
        None => {},
    }
    match parse_string(s, i0) {
        Some((t, j)) => {
            let m = t.len();
            proof {
                assert(t@.subrange(0, m as int) =~= t@);
            }
            if crate::text::range_eq_lit(&t, 0, m, "Red") {
                Some((Some(crate::game::Helmet::Red), j))
            } else if crate::text::range_eq_lit(&t, 0, m, "Yellow") {
                Some((Some(crate::game::Helmet::Yellow), j))
            } else if crate::text::range_eq_lit(&t, 0, m, "Blue") {
                Some((Some(crate::game::Helmet::Blue), j))
            } else if crate::text::range_eq_lit(&t, 0, m, "White") {
                Some((Some(crate::game::Helmet::White), j))
            } else {
                None
            }
        },
        None => None,
    }
}

/// The serialized form of an optional heat time.
pub open spec fn ser_time(t: Option<(u16, u8)>) -> Seq<char> {
    match t {
        Option::None => "null"@,
        Option::Some((a, b)) => seq!['['] + dec_rep(a as nat) + seq![','] + dec_rep(b as nat)
            + seq![']'],
    }
}

/// Reads an optional heat time: `null` or a two-number array.
pub open spec fn p_time(s: Seq<char>, i: int) -> Option<(Option<(u16, u8)>, int)> {
    let i0 = ws_end(s, i);
    if lit_at(s, "null"@, i0) {
        Option::Some((Option::None, i0 + 4))
    } else if 0 <= i0 < s.len() && s[i0] == '[' {
        match p_u32(s, ws_end(s, i0 + 1)) {
            Option::Some((a, j)) => {
                let i1 = ws_end(s, j);
                if a <= u16::MAX && i1 < s.len() && s[i1] == ',' {
                    match p_u32(s, ws_end(s, i1 + 1)) {
                        Option::Some((b, j2)) => {
                            let i2 = ws_end(s, j2);
                            if b <= u8::MAX && i2 < s.len() && s[i2] == ']' {
                                Option::Some((Option::Some((a as u16, b as u8)), i2 + 1))
                            } else {
                                Option::None
                            }
                        },
                        Option::None => Option::None,
                    }
                } else {
                    Option::None
                }
            },
            Option::None => Option::None,
        }
    } else {
        Option::None
    }
}

proof fn lemma_p_time_ser(t: Option<(u16, u8)>, s: Seq<char>, i: int)
    requires
        occurs_at(s, ser_time(t), i),
    ensures
        p_time(s, i) == Option::Some((t, i + ser_time(t).len())),
{
    reveal_strlit("null");
    match t {
        Option::None => {
            lemma_occurs_lit(s, "null"@, i);
            lemma_occurs_head(s, "null"@, i);
            assert(ws_end(s, i) == i);
        },
        Option::Some((a, b)) => {
            let da = dec_rep(a as nat);
            let db = dec_rep(b as nat);
            lemma_dec_rep_digits(a as nat);
            lemma_dec_rep_digits(b as nat);
            let w = ser_time(t);
            assert(w =~= (((seq!['['] + da) + seq![',']) + db) + seq![']']);
            lemma_occurs_concat(s, ((seq!['['] + da) + seq![',']) + db, seq![']'], i);
            lemma_occurs_concat(s, (seq!['['] + da) + seq![','], db, i);
            lemma_occurs_concat(s, seq!['['] + da, seq![','], i);
            lemma_occurs_concat(s, seq!['['], da, i);
            lemma_occurs_head(s, seq!['['], i);
            assert(ws_end(s, i) == i);
            assert(!lit_at(s, "null"@, i)) by {
                if lit_at(s, "null"@, i) {
                    assert(s.subrange(i, i + 4)[0] == s[i]);
                    assert("null"@[0] == 'n');
                }
            }
            let ia = i + 1;
            lemma_occurs_head(s, da, ia);
            assert(is_digit(da[0]));
            assert(ws_end(s, ia) == ia);
            lemma_occurs_head(s, seq![','], ia + da.len());
            assert(s[ia + da.len()] == ',');
            lemma_p_u32_ser(a as u32, s, ia);
            let ic = ia + da.len();
            assert(ws_end(s, ic) == ic);
            let ib = ic + 1;
            lemma_occurs_head(s, db, ib);
            assert(is_digit(db[0]));
            assert(ws_end(s, ib) == ib);
            lemma_occurs_head(s, seq![']'], ib + db.len());
            assert(s[ib + db.len()] == ']');
            lemma_p_u32_ser(b as u32, s, ib);
            let iz = ib + db.len();
            assert(ws_end(s, iz) == iz);
        },
    }
}

/// Appends the serialized form of an optional heat time.
pub fn write_time(out: &mut Vec<char>, t: &Option<(u16, u8)>)
    ensures
        final(out)@ == old(out)@ + ser_time(*t),
{
    match t {
        None => push_lit(out, "null"),
        Some((a, b)) => {
            out.push('[');
            let da = fmt_u32(*a as u32);
            push_chars(out, &da);
            out.push(',');
            let db = fmt_u32(*b as u32);
            push_chars(out, &db);
            out.push(']');
            proof {
                assert(out@ =~= old(out)@ + ser_time(*t));
            }
        },
    }
}

/// Executable reader for an optional heat time.
pub fn parse_time_field(s: &Vec<char>, i: usize) -> (r: Option<(Option<(u16, u8)>, usize)>)
    requires
        i <= s@.len(),
    ensures
        match r {
            Option::Some((v, j)) => p_time(s@, i as int) == Option::Some((v, j as int)) && i < j
                <= s@.len(),
            Option::None => p_time(s@, i as int) is None,
        },
{
    let n = s.len();
    let i0 = skip_ws(s, i);
    match expect_lit(s, i0, "null") {
        Some(j) => {
            proof {
                reveal_strlit("null");
            }
            return Some((None, j));
        },
        None => {},
    }
    if !(i0 < n && s[i0] == '[') {
        return None;
    }
    let ja = skip_ws(s, i0 + 1);
    let (a, j) = match parse_num(s, ja) {
        Some(x) => x,
        None => {
            return None;
        },
    };
    let i1 = skip_ws(s, j);
    if !(a <= u16::MAX as u32 && i1 < n && s[i1] == ',') {
        return None;
    }
    let jb = skip_ws(s, i1 + 1);
    let (b, j2) = match parse_num(s, jb) {
        Some(x) => x,
        None => {
            return None;
        },
    };
    let i2 = skip_ws(s, j2);
    if !(b <= u8::MAX as u32 && i2 < n && s[i2] == ']') {
        return None;
    }
    Some((Some((a as u16, b as u8)), i2 + 1))
}


/// The serialized form of a match date.
pub open spec fn ser_date(d: crate::date::GameDate) -> Seq<char> {
    "{\"year\":"@ + dec_rep(d.year as nat) + ",\"month\":"@ + dec_rep(d.month as nat)
        + ",\"day\":"@ + dec_rep(d.day as nat) + ",\"hour\":"@ + dec_rep(d.hour as nat)
        + ",\"minute\":"@ + dec_rep(d.minute as nat) + "}"@
}

/// Reads a match date object, keys in serialized order.
pub open spec fn p_date(s: Seq<char>, i: int) -> Option<(crate::date::GameDate, int)> {
    let i0 = ws_end(s, i);
    if !lit_at(s, "{\"year\":"@, i0) {
        Option::None
    } else {
        match p_u32(s, ws_end(s, i0 + "{\"year\":"@.len())) {
            Option::None => Option::None,
            Option::Some((y, j1)) => {
                let k1 = ws_end(s, j1);
                if !(y <= u16::MAX && lit_at(s, ",\"month\":"@, k1)) {
                    Option::None
                } else {
                    match p_u32(s, ws_end(s, k1 + ",\"month\":"@.len())) {
                        Option::None => Option::None,
                        Option::Some((mo, j2)) => {
                            let k2 = ws_end(s, j2);
                            if !(mo <= u8::MAX && lit_at(s, ",\"day\":"@, k2)) {
                                Option::None
                            } else {
                                match p_u32(s, ws_end(s, k2 + ",\"day\":"@.len())) {
                                    Option::None => Option::None,
                                    Option::Some((da, j3)) => {
                                        let k3 = ws_end(s, j3);
                                        if !(da <= u8::MAX && lit_at(s, ",\"hour\":"@, k3)) {
                                            Option::None
                                        } else {
                                            match p_u32(
                                                s,
                                                ws_end(s, k3 + ",\"hour\":"@.len()),
                                            ) {
                                                Option::None => Option::None,
                                                Option::Some((ho, j4)) => {
                                                    let k4 = ws_end(s, j4);
                                                    if !(ho <= u8::MAX && lit_at(
                                                        s,
                                                        ",\"minute\":"@,
                                                        k4,
                                                    )) {
                                                        Option::None
                                                    } else {
                                                        match p_u32(
                                                            s,
                                                            ws_end(
                                                                s,
                                                                k4 + ",\"minute\":"@.len(),
                                                            ),
                                                        ) {
                                                            Option::None => Option::None,
                                                            Option::Some((mi, j5)) => {
                                                                let k5 = ws_end(s, j5);
                                                                if mi <= u8::MAX && k5 < s.len()
                                                                    && s[k5] == '}' {
                                                                    Option::Some(
                                                                        (
                                                                            crate::date::GameDate {
                                                                                year: y as u16,
                                                                                month: mo as u8,
                                                                                day: da as u8,
                                                                                hour: ho as u8,
                                                                                minute: mi as u8,
                                                                            },
                                                                            k5 + 1,
                                                                        ),
                                                                    )
                                                                } else {
                                                                    Option::None
                                                                }
                                                            },
                                                        }
                                                    }
                                                },
                                            }
                                        }
                                    },
                                }
                            }
                        },
                    }
                }
            },
        }
    }
}

proof fn lemma_p_date_ser(d: crate::date::GameDate, s: Seq<char>, i: int)
    requires
        occurs_at(s, ser_date(d), i),
    ensures
        p_date(s, i) == Option::Some((d, i + ser_date(d).len())),
{
    reveal_strlit("{\"year\":");
    reveal_strlit(",\"month\":");
    reveal_strlit(",\"day\":");
    reveal_strlit(",\"hour\":");
    reveal_strlit(",\"minute\":");
    reveal_strlit("}");
    let la = "{\"year\":"@;
    let lb = ",\"month\":"@;
    let lc = ",\"day\":"@;
    let ld = ",\"hour\":"@;
    let le = ",\"minute\":"@;
    let d1 = dec_rep(d.year as nat);
    let d2 = dec_rep(d.month as nat);
    let d3 = dec_rep(d.day as nat);
    let d4 = dec_rep(d.hour as nat);
    let d5 = dec_rep(d.minute as nat);
    lemma_dec_rep_digits(d.year as nat);
    lemma_dec_rep_digits(d.month as nat);
    lemma_dec_rep_digits(d.day as nat);
    lemma_dec_rep_digits(d.hour as nat);
    lemma_dec_rep_digits(d.minute as nat);
    lemma_occurs_concat(s, la + d1 + lb + d2 + lc + d3 + ld + d4 + le + d5, "}"@, i);
    lemma_occurs_concat(s, la + d1 + lb + d2 + lc + d3 + ld + d4 + le, d5, i);
    lemma_occurs_concat(s, la + d1 + lb + d2 + lc + d3 + ld + d4, le, i);
    lemma_occurs_concat(s, la + d1 + lb + d2 + lc + d3 + ld, d4, i);
    lemma_occurs_concat(s, la + d1 + lb + d2 + lc + d3, ld, i);
    lemma_occurs_concat(s, la + d1 + lb + d2 + lc, d3, i);
    lemma_occurs_concat(s, la + d1 + lb + d2, lc, i);
    lemma_occurs_concat(s, la + d1 + lb, d2, i);
    lemma_occurs_concat(s, la + d1, lb, i);
    lemma_occurs_concat(s, la, d1, i);
    lemma_occurs_head(s, la, i);
    assert(ws_end(s, i) == i);
    lemma_occurs_lit(s, la, i);
    let i1 = i + la.len();
    lemma_occurs_head(s, d1, i1);
    assert(is_digit(d1[0]));
    assert(ws_end(s, i1) == i1);
    let j1 = i1 + d1.len();
    lemma_occurs_head(s, lb, j1);
    assert(s[j1] == ',');
    lemma_p_u32_ser(d.year as u32, s, i1);
    assert(ws_end(s, j1) == j1);
    lemma_occurs_lit(s, lb, j1);
    let i2 = j1 + lb.len();
    lemma_occurs_head(s, d2, i2);
    assert(is_digit(d2[0]));
    assert(ws_end(s, i2) == i2);
    let j2 = i2 + d2.len();
    lemma_occurs_head(s, lc, j2);
    assert(s[j2] == ',');
    lemma_p_u32_ser(d.month as u32, s, i2);
    assert(ws_end(s, j2) == j2);
    lemma_occurs_lit(s, lc, j2);
    let i3 = j2 + lc.len();
    lemma_occurs_head(s, d3, i3);
    assert(is_digit(d3[0]));
    assert(ws_end(s, i3) == i3);
    let j3 = i3 + d3.len();
    lemma_occurs_head(s, ld, j3);
    assert(s[j3] == ',');
    lemma_p_u32_ser(d.day as u32, s, i3);
    assert(ws_end(s, j3) == j3);
    lemma_occurs_lit(s, ld, j3);
    let i4 = j3 + ld.len();
    lemma_occurs_head(s, d4, i4);
    assert(is_digit(d4[0]));
    assert(ws_end(s, i4) == i4);
    let j4 = i4 + d4.len();
    lemma_occurs_head(s, le, j4);
    assert(s[j4] == ',');
    lemma_p_u32_ser(d.hour as u32, s, i4);
    assert(ws_end(s, j4) == j4);
    lemma_occurs_lit(s, le, j4);
    let i5 = j4 + le.len();
    lemma_occurs_head(s, d5, i5);
    assert(is_digit(d5[0]));
    assert(ws_end(s, i5) == i5);
    let j5 = i5 + d5.len();
    lemma_occurs_head(s, "}"@, j5);
    assert(s[j5] == '}');
    lemma_p_u32_ser(d.minute as u32, s, i5);
    assert(ws_end(s, j5) == j5);
}

/// Appends the serialized form of a match date.
pub fn write_date(out: &mut Vec<char>, d: &crate::date::GameDate)
    ensures
        final(out)@ == old(out)@ + ser_date(*d),
{
    push_lit(out, "{\"year\":");
    let v1 = fmt_u32(d.year as u32);
    push_chars(out, &v1);
    push_lit(out, ",\"month\":");
    let v2 = fmt_u32(d.month as u32);
    push_chars(out, &v2);
    push_lit(out, ",\"day\":");
    let v3 = fmt_u32(d.day as u32);
    push_chars(out, &v3);
    push_lit(out, ",\"hour\":");
    let v4 = fmt_u32(d.hour as u32);
    push_chars(out, &v4);
    push_lit(out, ",\"minute\":");
    let v5 = fmt_u32(d.minute as u32);
    push_chars(out, &v5);
    push_lit(out, "}");
    proof {
        assert(out@ =~= old(out)@ + ser_date(*d));
    }
}

/// Executable reader for a match date.
pub fn parse_date_field(s: &Vec<char>, i: usize) -> (r: Option<(crate::date::GameDate, usize)>)
    requires
        i <= s@.len(),
    ensures
        match r {
            Option::Some((v, j)) => p_date(s@, i as int) == Option::Some((v, j as int)) && i < j
                <= s@.len(),
            Option::None => p_date(s@, i as int) is None,
        },
{
    let n = s.len();
    let i0 = skip_ws(s, i);
    let c1 = match expect_lit(s, i0, "{\"year\":") {
        Some(x) => x,
        None => {
            return None;
        },
    };
    let (y, j1) = match parse_num(s, skip_ws(s, c1)) {
        Some(x) => x,
        None => {
            return None;
        },
    };
    let k1 = skip_ws(s, j1);
    if y > u16::MAX as u32 {
        return None;
    }
    let c2 = match expect_lit(s, k1, ",\"month\":") {
        Some(x) => x,
        None => {
            return None;
        },
    };
    let (mo, j2) = match parse_num(s, skip_ws(s, c2)) {
        Some(x) => x,
        None => {
            return None;
        },
    };
    let k2 = skip_ws(s, j2);
    if mo > u8::MAX as u32 {
        return None;
    }
    let c3 = match expect_lit(s, k2, ",\"day\":") {
        Some(x) => x,
        None => {
            return None;
        },
    };
    let (da, j3) = match parse_num(s, skip_ws(s, c3)) {
        Some(x) => x,
        None => {
            return None;
        },
    };
    let k3 = skip_ws(s, j3);
    if da > u8::MAX as u32 {
        return None;
    }
    let c4 = match expect_lit(s, k3, ",\"hour\":") {
        Some(x) => x,
        None => {
            return None;
        },
    };
    let (ho, j4) = match parse_num(s, skip_ws(s, c4)) {
        Some(x) => x,
        None => {
            return None;
        },
    };
    let k4 = skip_ws(s, j4);
    if ho > u8::MAX as u32 {
        return None;
    }
    let c5 = match expect_lit(s, k4, ",\"minute\":") {
        Some(x) => x,
        None => {
            return None;
        },
    };
    let (mi, j5) = match parse_num(s, skip_ws(s, c5)) {
        Some(x) => x,
        None => {
            return None;
        },
    };
    let k5 = skip_ws(s, j5);
    if !(mi <= u8::MAX as u32 && k5 < n && s[k5] == '}') {
        return None;
    }
    Some(
        (
            crate::date::GameDate {
                year: y as u16,
                month: mo as u8,
                day: da as u8,
                hour: ho as u8,
                minute: mi as u8,
            },
            k5 + 1,
        ),
    )
}


/// The serialized form of one competitor's entry in a heat.
pub open spec fn ser_prs(v: crate::game::PlayerRunScoreV) -> Seq<char> {
    "{\"name\":"@ + ser_string(v.name) + ",\"score\":"@ + ser_result(v.score)
        + ",\"helmet\":"@ + ser_opt_helmet(v.helmet) + "}"@
}

/// Reads one competitor's entry, keys in serialized order.
pub open spec fn p_prs(s: Seq<char>, i: int) -> Option<(crate::game::PlayerRunScoreV, int)> {
    let i0 = ws_end(s, i);
    if !lit_at(s, "{\"name\":"@, i0) {
        Option::None
    } else {
        match p_string(s, ws_end(s, i0 + "{\"name\":"@.len())) {
            Option::None => Option::None,
            Option::Some((name, j1)) => {
                let k1 = ws_end(s, j1);
                if !lit_at(s, ",\"score\":"@, k1) {
                    Option::None
                } else {
                    match p_result(s, k1 + ",\"score\":"@.len()) {
                        Option::None => Option::None,
                        Option::Some((sc, j2)) => {
                            let k2 = ws_end(s, j2);
                            if !lit_at(s, ",\"helmet\":"@, k2) {
                                Option::None
                            } else {
                                match p_opt_helmet(s, k2 + ",\"helmet\":"@.len()) {
                                    Option::None => Option::None,
                                    Option::Some((h, j3)) => {
                                        let k3 = ws_end(s, j3);
                                        if k3 < s.len() && s[k3] == '}' {
                                            Option::Some(
                                                (
                                                    crate::game::PlayerRunScoreV {
                                                        name,
                                                        score: sc,
                                                        helmet: h,
                                                    },
                                                    k3 + 1,
                                                ),
                                            )
                                        } else {
                                            Option::None
                                        }
                                    },
                                }
                            }
                        },
                    }
                }
            },
        }
    }
}

proof fn lemma_p_prs_ser(v: crate::game::PlayerRunScoreV, s: Seq<char>, i: int)
    requires
        occurs_at(s, ser_prs(v), i),
    ensures
        p_prs(s, i) == Option::Some((v, i + ser_prs(v).len())),
        ser_prs(v).len() > 0,
        s[i] == '{',
{
    reveal_strlit("{\"name\":");
    reveal_strlit(",\"score\":");
    reveal_strlit(",\"helmet\":");
    reveal_strlit("}");
    let la = "{\"name\":"@;
    let lb = ",\"score\":"@;
    let lc = ",\"helmet\":"@;
    let f1 = ser_string(v.name);
    let f2 = ser_result(v.score);
    let f3 = ser_opt_helmet(v.helmet);
    lemma_occurs_concat(s, la + f1 + lb + f2 + lc + f3, "}"@, i);
    lemma_occurs_concat(s, la + f1 + lb + f2 + lc, f3, i);
    lemma_occurs_concat(s, la + f1 + lb + f2, lc, i);
    lemma_occurs_concat(s, la + f1 + lb, f2, i);
    lemma_occurs_concat(s, la + f1, lb, i);
    lemma_occurs_concat(s, la, f1, i);
    lemma_occurs_head(s, la, i);
    assert(ws_end(s, i) == i);
    lemma_occurs_lit(s, la, i);
    let i1 = i + la.len();
    lemma_occurs_head(s, f1, i1);
    assert(s[i1] == '"');
    assert(ws_end(s, i1) == i1);
    lemma_p_string_ser(v.name, s, i1);
    let j1 = i1 + f1.len();
    lemma_occurs_head(s, lb, j1);
    assert(ws_end(s, j1) == j1);
    lemma_occurs_lit(s, lb, j1);
    let i2 = j1 + lb.len();
    lemma_p_result_ser(v.score, s, i2);
    let j2 = i2 + f2.len();
    lemma_occurs_head(s, lc, j2);
    assert(ws_end(s, j2) == j2);
    lemma_occurs_lit(s, lc, j2);
    let i3 = j2 + lc.len();
    lemma_p_opt_helmet_ser(v.helmet, s, i3);
    let j3 = i3 + f3.len();
    lemma_occurs_head(s, "}"@, j3);
    assert(s[j3] == '}');
    assert(ws_end(s, j3) == j3);
}

/// Appends the serialized form of one competitor's entry.
pub fn write_prs(out: &mut Vec<char>, v: &crate::game::PlayerRunScore)
    ensures
        final(out)@ == old(out)@ + ser_prs(v@),
{
    push_lit(out, "{\"name\":");
    let name = chars_vec(v.name.as_str());
    push_string(out, &name);
    push_lit(out, ",\"score\":");
    write_result(out, &v.score);
    push_lit(out, ",\"helmet\":");
    write_opt_helmet(out, &v.helmet);
    push_lit(out, "}");
    proof {
        assert(out@ =~= old(out)@ + ser_prs(v@));
    }
}

/// Executable reader for one competitor's entry.
pub fn parse_prs(s: &Vec<char>, i: usize) -> (r: Option<(crate::game::PlayerRunScore, usize)>)
    requires
        i <= s@.len(),
    ensures
        match r {
            Option::Some((v, j)) => p_prs(s@, i as int) == Option::Some((v@, j as int)) && i < j
                <= s@.len(),
            Option::None => p_prs(s@, i as int) is None,
        },
{
    let n = s.len();
    let i0 = skip_ws(s, i);
    let c1 = match expect_lit(s, i0, "{\"name\":") {
        Some(x) => x,
        None => {
            return None;
        },
    };
    let (name, j1) = match parse_string(s, skip_ws(s, c1)) {
        Some(x) => x,
        None => {
            return None;
        },
    };
    let k1 = skip_ws(s, j1);
    let c2 = match expect_lit(s, k1, ",\"score\":") {
        Some(x) => x,
        None => {
            return None;
        },
    };
    let (sc, j2) = match parse_result(s, c2) {
        Some(x) => x,
        None => {
            return None;
        },
    };
    let k2 = skip_ws(s, j2);
    let c3 = match expect_lit(s, k2, ",\"helmet\":") {
        Some(x) => x,
        None => {
            return None;
        },
    };
    let (h, j3) = match parse_opt_helmet(s, c3) {
        Some(x) => x,
        None => {
            return None;
        },
    };
    let k3 = skip_ws(s, j3);
    if !(k3 < n && s[k3] == '}') {
        return None;
    }
    let v = crate::game::PlayerRunScore {
        name: string_from_chars(&name),
        score: sc,
        helmet: h,
    };
    Some((v, k3 + 1))
}


/// Comma-separated serialized entries after the first one.
pub open spec fn ser_prs_tail(l: Seq<crate::game::PlayerRunScoreV>) -> Seq<char>
    decreases l.len(),
{
    if l.len() == 0 {
        Seq::empty()
    } else {
        seq![','] + ser_prs(l[0]) + ser_prs_tail(l.drop_first())
    }
}

/// The serialized form of a list of competitor entries.
pub open spec fn ser_prs_list(l: Seq<crate::game::PlayerRunScoreV>) -> Seq<char> {
    if l.len() == 0 {
        seq!['[', ']']
    } else {
        seq!['['] + ser_prs(l[0]) + ser_prs_tail(l.drop_first()) + seq![']']
    }
}

/// Reads the rest of a list of entries: a closing bracket, or a
/// comma and a further entry.
pub open spec fn p_prs_rest(s: Seq<char>, i: int) -> Option<
    (Seq<crate::game::PlayerRunScoreV>, int),
>
    decreases s.len() - i,
    via p_prs_rest_decreases
{
    let i0 = ws_end(s, i);
    if i0 < s.len() && s[i0] == ']' {
        Option::Some((Seq::empty(), i0 + 1))
    } else if i0 < s.len() && s[i0] == ',' {
        match p_prs(s, i0 + 1) {
            Option::None => Option::None,
            Option::Some((v, j)) => if i0 + 1 < j <= s.len() {
                match p_prs_rest(s, j) {
                    Option::None => Option::None,
                    Option::Some((l, e)) => Option::Some((seq![v] + l, e)),
                }
            } else {
                Option::None
            },
        }
    } else {
        Option::None
    }
}

#[via_fn]
proof fn p_prs_rest_decreases(s: Seq<char>, i: int) {
    lemma_ws_end_ge(s, i);
}

/// Reads a list of competitor entries.
pub open spec fn p_prs_list(s: Seq<char>, i: int) -> Option<
    (Seq<crate::game::PlayerRunScoreV>, int),
> {
    let i0 = ws_end(s, i);
    if i0 < s.len() && s[i0] == '[' {
        let i1 = ws_end(s, i0 + 1);
        if i1 < s.len() && s[i1] == ']' {
            Option::Some((Seq::empty(), i1 + 1))
        } else {
            match p_prs(s, i0 + 1) {
                Option::None => Option::None,
                Option::Some((v, j)) => if i0 + 1 < j <= s.len() {
                    match p_prs_rest(s, j) {
                        Option::None => Option::None,
                        Option::Some((l, e)) => Option::Some((seq![v] + l, e)),
                    }
                } else {
                    Option::None
                },
            }
        }
    } else {
        Option::None
    }
}

proof fn lemma_p_prs_rest_ser(m: Seq<crate::game::PlayerRunScoreV>, s: Seq<char>, i: int)
    requires
        occurs_at(s, ser_prs_tail(m) + seq![']'], i),
    ensures
        p_prs_rest(s, i) == Option::Some((m, i + ser_prs_tail(m).len() + 1)),
    decreases m.len(),
{
    if m.len() == 0 {
        assert(ser_prs_tail(m) + seq![']'] =~= seq![']']);
        lemma_occurs_head(s, seq![']'], i);
        assert(ws_end(s, i) == i);
    } else {
        let f = ser_prs(m[0]);
        let t = ser_prs_tail(m.drop_first());
        assert(ser_prs_tail(m) + seq![']'] =~= (seq![','] + f) + (t + seq![']']));
        lemma_occurs_concat(s, seq![','] + f, t + seq![']'], i);
        lemma_occurs_concat(s, seq![','], f, i);
        lemma_occurs_head(s, seq![','], i);
        assert(ws_end(s, i) == i);
        lemma_p_prs_ser(m[0], s, i + 1);
        let j = i + 1 + f.len();
        lemma_p_prs_rest_ser(m.drop_first(), s, j);
        assert(seq![m[0]] + m.drop_first() =~= m);
        assert(s[i] != ']');
    }
}

proof fn lemma_p_prs_list_ser(l: Seq<crate::game::PlayerRunScoreV>, s: Seq<char>, i: int)
    requires
        occurs_at(s, ser_prs_list(l), i),
    ensures
        p_prs_list(s, i) == Option::Some((l, i + ser_prs_list(l).len())),
        s[i] == '[',
        ser_prs_list(l).len() > 0,
{
    if l.len() == 0 {
        lemma_occurs_head(s, seq!['[', ']'], i);
        assert(ws_end(s, i) == i);
        assert(s[i + 1] == seq!['[', ']'][1]);
        assert(ws_end(s, i + 1) == i + 1);
    } else {
        let f = ser_prs(l[0]);
        let t = ser_prs_tail(l.drop_first());
        assert(ser_prs_list(l) =~= (seq!['['] + f) + (t + seq![']']));
        lemma_occurs_concat(s, seq!['['] + f, t + seq![']'], i);
        lemma_occurs_concat(s, seq!['['], f, i);
        lemma_occurs_head(s, seq!['['], i);
        assert(ws_end(s, i) == i);
        lemma_p_prs_ser(l[0], s, i + 1);
        assert(s[i + 1] == '{');
        assert(ws_end(s, i + 1) == i + 1);
        let j = i + 1 + f.len();
        lemma_p_prs_rest_ser(l.drop_first(), s, j);
        assert(seq![l[0]] + l.drop_first() =~= l);
    }
}

/// Appends the serialized form of a list of competitor entries.
pub fn write_prs_list(out: &mut Vec<char>, l: &Vec<crate::game::PlayerRunScore>)
    ensures
        final(out)@ == old(out)@ + ser_prs_list(l@.map_values(|x: crate::game::PlayerRunScore| x@)),
{
    let ghost lv = l@.map_values(|x: crate::game::PlayerRunScore| x@);
    out.push('[');
    let n = l.len();
    if n == 0 {
        out.push(']');
        proof {
            assert(out@ =~= old(out)@ + ser_prs_list(lv));
        }
        return ;
    }
    write_prs(out, &l[0]);
    let mut k: usize = 1;
    while k < n
        invariant
            1 <= k <= n == l@.len(),
            lv == l@.map_values(|x: crate::game::PlayerRunScore| x@),
            out@ =~= old(out)@ + seq!['['] + ser_prs(lv[0]) + ser_prs_tail(
                lv.subrange(1, k as int),
            ),
        decreases n - k,
    {
        out.push(',');
        write_prs(out, &l[k]);
        proof {
            lemma_prs_tail_snoc(lv, k as int);
        }
        k = k + 1;
    }
    out.push(']');
    proof {
        assert(lv.subrange(1, n as int) =~= lv.drop_first());
        assert(out@ =~= old(out)@ + ser_prs_list(lv));
    }
}

proof fn lemma_prs_tail_snoc(lv: Seq<crate::game::PlayerRunScoreV>, k: int)
    requires
        1 <= k < lv.len(),
    ensures
        ser_prs_tail(lv.subrange(1, k + 1)) =~= ser_prs_tail(lv.subrange(1, k)) + (seq![',']
            + ser_prs(lv[k])),
    decreases k,
{
    lemma_prs_tail_snoc_from(lv, 1, k);
}

proof fn lemma_prs_tail_snoc_from(lv: Seq<crate::game::PlayerRunScoreV>, a: int, k: int)
    requires
        1 <= a <= k < lv.len(),
    ensures
        ser_prs_tail(lv.subrange(a, k + 1)) =~= ser_prs_tail(lv.subrange(a, k)) + (seq![',']
            + ser_prs(lv[k])),
    decreases k - a,
{
    if a == k {
        assert(lv.subrange(a, k) =~= Seq::<crate::game::PlayerRunScoreV>::empty());
        assert(lv.subrange(a, k + 1) =~= seq![lv[k]]);
        assert(lv.subrange(a, k + 1)[0] == lv[k]);
        assert(lv.subrange(a, k + 1).drop_first()
            =~= Seq::<crate::game::PlayerRunScoreV>::empty());
        assert(ser_prs_tail(Seq::<crate::game::PlayerRunScoreV>::empty()) =~= Seq::<
            char,
        >::empty());
        assert(ser_prs_tail(lv.subrange(a, k)) =~= Seq::<char>::empty());
    } else {
        let u = lv.subrange(a, k + 1);
        let w = lv.subrange(a, k);
        assert(u[0] == lv[a] && w[0] == lv[a]);
        assert(u.drop_first() =~= lv.subrange(a + 1, k + 1));
        assert(w.drop_first() =~= lv.subrange(a + 1, k));
        lemma_prs_tail_snoc_from(lv, a + 1, k);
    }
}

/// Executable reader for a list of competitor entries.
pub fn parse_prs_list(s: &Vec<char>, i: usize) -> (r: Option<
    (Vec<crate::game::PlayerRunScore>, usize),
>)
    requires
        i <= s@.len(),
    ensures
        match r {
            Option::Some((l, j)) => p_prs_list(s@, i as int) == Option::Some(
                (l@.map_values(|x: crate::game::PlayerRunScore| x@), j as int),
            ) && i < j <= s@.len(),
            Option::None => p_prs_list(s@, i as int) is None,
        },
{
    let n = s.len();
    let i0 = skip_ws(s, i);
    if !(i0 < n && s[i0] == '[') {
        return None;
    }
    let i1 = skip_ws(s, i0 + 1);
    let mut acc: Vec<crate::game::PlayerRunScore> = Vec::new();
    if i1 < n && s[i1] == ']' {
        proof {
            assert(acc@.map_values(|x: crate::game::PlayerRunScore| x@)
                =~= Seq::<crate::game::PlayerRunScoreV>::empty());
        }
        return Some((acc, i1 + 1));
    }
    let (v0, mut j) = match parse_prs(s, i0 + 1) {
        Some(x) => x,
        None => {
            return None;
        },
    };
    acc.push(v0);
    loop
        invariant
            i0 + 1 < j <= n == s@.len(),
            i0 >= i,
            acc@.len() >= 1,
            (match p_prs_rest(s@, j as int) {
                Option::Some((l, e)) => p_prs_list(s@, i as int) == Option::Some(
                    (acc@.map_values(|x: crate::game::PlayerRunScore| x@) + l, e),
                ),
                Option::None => p_prs_list(s@, i as int) is None,
            }),
        decreases n - j,
    {
        let k = skip_ws(s, j);
        if k < n && s[k] == ']' {
            proof {
                let av = acc@.map_values(|x: crate::game::PlayerRunScore| x@);
                assert(av + Seq::<crate::game::PlayerRunScoreV>::empty() =~= av);
            }
            return Some((acc, k + 1));
        }
        if !(k < n && s[k] == ',') {
            return None;
        }
        let (v, j2) = match parse_prs(s, k + 1) {
            Some(x) => x,
            None => {
                return None;
            },
        };
        proof {
            let av = acc@.map_values(|x: crate::game::PlayerRunScore| x@);
            let av2 = acc@.push(v).map_values(|x: crate::game::PlayerRunScore| x@);
            assert(av2 =~= av.push(v@));
            if let Option::Some((l, e)) = p_prs_rest(s@, j2 as int) {
                assert(av + (seq![v@] + l) =~= av2 + l);
            }
        }
        acc.push(v);
        j = j2;
    }
}


proof fn lemma_ser_result_head(p: PlayerResult)
    ensures
        ser_result(p).len() > 0,
        ser_result(p)[0] == '{' || ser_result(p)[0] == '"',
{
    reveal_strlit("{\"Score\":");
    reveal_strlit("{\"ScoreWithStar\":");
    reveal_strlit("\"Fall\"");
    reveal_strlit("\"Reserve\"");
    reveal_strlit("\"Resign\"");
    reveal_strlit("\"Tape\"");
    reveal_strlit("\"NotFinished\"");
    reveal_strlit("\"None\"");
    match p {
        PlayerResult::Score(n) => {
            assert(ser_result(p)[0] == "{\"Score\":"@[0]);
        },
        PlayerResult::ScoreWithStar(n) => {
            assert(ser_result(p)[0] == "{\"ScoreWithStar\":"@[0]);
        },
        _ => {},
    }
}

/// Comma-separated serialized outcomes after the first one.
pub open spec fn ser_results_tail(l: Seq<PlayerResult>) -> Seq<char>
    decreases l.len(),
{
    if l.len() == 0 {
        Seq::empty()
    } else {
        seq![','] + ser_result(l[0]) + ser_results_tail(l.drop_first())
    }
}

/// The serialized form of a list of outcomes.
pub open spec fn ser_results_list(l: Seq<PlayerResult>) -> Seq<char> {
    if l.len() == 0 {
        seq!['[', ']']
    } else {
        seq!['['] + ser_result(l[0]) + ser_results_tail(l.drop_first()) + seq![']']
    }
}

/// Reads the rest of a list of outcomes.
pub open spec fn p_results_rest(s: Seq<char>, i: int) -> Option<(Seq<PlayerResult>, int)>
    decreases s.len() - i,
    via p_results_rest_decreases
{
    let i0 = ws_end(s, i);
    if i0 < s.len() && s[i0] == ']' {
        Option::Some((Seq::empty(), i0 + 1))
    } else if i0 < s.len() && s[i0] == ',' {
        match p_result(s, i0 + 1) {
            Option::None => Option::None,
            Option::Some((v, j)) => if i0 + 1 < j <= s.len() {
                match p_results_rest(s, j) {
                    Option::None => Option::None,
                    Option::Some((l, e)) => Option::Some((seq![v] + l, e)),
                }
            } else {
                Option::None
            },
        }
    } else {
        Option::None
    }
}

#[via_fn]
proof fn p_results_rest_decreases(s: Seq<char>, i: int) {
    lemma_ws_end_ge(s, i);
}

/// Reads a list of outcomes.
pub open spec fn p_results_list(s: Seq<char>, i: int) -> Option<(Seq<PlayerResult>, int)> {
    let i0 = ws_end(s, i);
    if i0 < s.len() && s[i0] == '[' {
        let i1 = ws_end(s, i0 + 1);
        if i1 < s.len() && s[i1] == ']' {
            Option::Some((Seq::empty(), i1 + 1))
        } else {
            match p_result(s, i0 + 1) {
                Option::None => Option::None,
                Option::Some((v, j)) => if i0 + 1 < j <= s.len() {
                    match p_results_rest(s, j) {
                        Option::None => Option::None,
                        Option::Some((l, e)) => Option::Some((seq![v] + l, e)),
                    }
                } else {
                    Option::None
                },
            }
        }
    } else {
        Option::None
    }
}

proof fn lemma_p_results_rest_ser(m: Seq<PlayerResult>, s: Seq<char>, i: int)
    requires
        occurs_at(s, ser_results_tail(m) + seq![']'], i),
    ensures
        p_results_rest(s, i) == Option::Some((m, i + ser_results_tail(m).len() + 1)),
    decreases m.len(),
{
    if m.len() == 0 {
        assert(ser_results_tail(m) + seq![']'] =~= seq![']']);
        lemma_occurs_head(s, seq![']'], i);
        assert(ws_end(s, i) == i);
    } else {
        let f = ser_result(m[0]);
        let t = ser_results_tail(m.drop_first());
        assert(ser_results_tail(m) + seq![']'] =~= (seq![','] + f) + (t + seq![']']));
        lemma_occurs_concat(s, seq![','] + f, t + seq![']'], i);
        lemma_occurs_concat(s, seq![','], f, i);
        lemma_occurs_head(s, seq![','], i);
        assert(ws_end(s, i) == i);
        lemma_ser_result_head(m[0]);
        lemma_p_result_ser(m[0], s, i + 1);
        let j = i + 1 + f.len();
        lemma_p_results_rest_ser(m.drop_first(), s, j);
        assert(seq![m[0]] + m.drop_first() =~= m);
        assert(s[i] != ']');
    }
}

proof fn lemma_p_results_list_ser(l: Seq<PlayerResult>, s: Seq<char>, i: int)
    requires
        occurs_at(s, ser_results_list(l), i),
    ensures
        p_results_list(s, i) == Option::Some((l, i + ser_results_list(l).len())),
        s[i] == '[',
        ser_results_list(l).len() > 0,
{
    if l.len() == 0 {
        lemma_occurs_head(s, seq!['[', ']'], i);
        assert(ws_end(s, i) == i);
        assert(s[i + 1] == seq!['[', ']'][1]);
        assert(ws_end(s, i + 1) == i + 1);
    } else {
        let f = ser_result(l[0]);
        let t = ser_results_tail(l.drop_first());
        assert(ser_results_list(l) =~= (seq!['['] + f) + (t + seq![']']));
        lemma_occurs_concat(s, seq!['['] + f, t + seq![']'], i);
        lemma_occurs_concat(s, seq!['['], f, i);
        lemma_occurs_head(s, seq!['['], i);
        assert(ws_end(s, i) == i);
        lemma_ser_result_head(l[0]);
        lemma_occurs_head(s, f, i + 1);
        assert(s[i + 1] == f[0]);
        assert(ws_end(s, i + 1) == i + 1);
        lemma_p_result_ser(l[0], s, i + 1);
        let j = i + 1 + f.len();
        lemma_p_results_rest_ser(l.drop_first(), s, j);
        assert(seq![l[0]] + l.drop_first() =~= l);
    }
}

proof fn lemma_results_tail_snoc_from(lv: Seq<PlayerResult>, a: int, k: int)
    requires
        1 <= a <= k < lv.len(),
    ensures
        ser_results_tail(lv.subrange(a, k + 1)) =~= ser_results_tail(lv.subrange(a, k)) + (
        seq![','] + ser_result(lv[k])),
    decreases k - a,
{
    if a == k {
        assert(lv.subrange(a, k) =~= Seq::<PlayerResult>::empty());
        assert(lv.subrange(a, k + 1) =~= seq![lv[k]]);
        assert(lv.subrange(a, k + 1)[0] == lv[k]);
        assert(lv.subrange(a, k + 1).drop_first() =~= Seq::<PlayerResult>::empty());
        assert(ser_results_tail(Seq::<PlayerResult>::empty()) =~= Seq::<char>::empty());
        assert(ser_results_tail(lv.subrange(a, k)) =~= Seq::<char>::empty());
    } else {
        let u = lv.subrange(a, k + 1);
        let w = lv.subrange(a, k);
        assert(u[0] == lv[a] && w[0] == lv[a]);
        assert(u.drop_first() =~= lv.subrange(a + 1, k + 1));
        assert(w.drop_first() =~= lv.subrange(a + 1, k));
        lemma_results_tail_snoc_from(lv, a + 1, k);
    }
}

/// Appends the serialized form of a list of outcomes.
pub fn write_results_list(out: &mut Vec<char>, l: &Vec<PlayerResult>)
    ensures
        final(out)@ == old(out)@ + ser_results_list(l@),
{
    let ghost lv = l@;
    out.push('[');
    let n = l.len();
    if n == 0 {
        out.push(']');
        proof {
            assert(out@ =~= old(out)@ + ser_results_list(lv));
        }
        return ;
    }
    write_result(out, &l[0]);
    let mut k: usize = 1;
    while k < n
        invariant
            1 <= k <= n == l@.len(),
            lv == l@,
            out@ =~= old(out)@ + seq!['['] + ser_result(lv[0]) + ser_results_tail(
                lv.subrange(1, k as int),
            ),
        decreases n - k,
    {
        out.push(',');
        write_result(out, &l[k]);
        proof {
            lemma_results_tail_snoc_from(lv, 1, k as int);
        }
        k = k + 1;
    }
    out.push(']');
    proof {
        assert(lv.subrange(1, n as int) =~= lv.drop_first());
        assert(out@ =~= old(out)@ + ser_results_list(lv));
    }
}

/// Executable reader for a list of outcomes.
pub fn parse_results_list(s: &Vec<char>, i: usize) -> (r: Option<(Vec<PlayerResult>, usize)>)
    requires
        i <= s@.len(),
    ensures
        match r {
            Option::Some((l, j)) => p_results_list(s@, i as int) == Option::Some(
                (l@, j as int),
            ) && i < j <= s@.len(),
            Option::None => p_results_list(s@, i as int) is None,
        },
{
    let n = s.len();
    let i0 = skip_ws(s, i);
    if !(i0 < n && s[i0] == '[') {
        return None;
    }
    let i1 = skip_ws(s, i0 + 1);
    let mut acc: Vec<PlayerResult> = Vec::new();
    if i1 < n && s[i1] == ']' {
        return Some((acc, i1 + 1));
    }
    let (v0, mut j) = match parse_result(s, i0 + 1) {
        Some(x) => x,
        None => {
            return None;
        },
    };
    acc.push(v0);
    loop
        invariant
            i0 + 1 < j <= n == s@.len(),
            i0 >= i,
            acc@.len() >= 1,
            (match p_results_rest(s@, j as int) {
                Option::Some((l, e)) => p_results_list(s@, i as int) == Option::Some(
                    (acc@ + l, e),
                ),
                Option::None => p_results_list(s@, i as int) is None,
            }),
        decreases n - j,
    {
        let k = skip_ws(s, j);
        if k < n && s[k] == ']' {
            proof {
                assert(acc@ + Seq::<PlayerResult>::empty() =~= acc@);
            }
            return Some((acc, k + 1));
        }
        if !(k < n && s[k] == ',') {
            return None;
        }
        let (v, j2) = match parse_result(s, k + 1) {
            Some(x) => x,
            None => {
                return None;
            },
        };
        proof {
            if let Option::Some((l, e)) = p_results_rest(s@, j2 as int) {
                assert(acc@ + (seq![v] + l) =~= acc@.push(v) + l);
            }
        }
        acc.push(v);
        j = j2;
    }
}


/// The serialized form of one rider.
pub open spec fn ser_player(v: crate::game::PlayerV) -> Seq<char> {
    "{\"name\":"@ + ser_string(v.name) + ",\"surname\":"@ + ser_string(v.surname)
        + ",\"number\":"@ + dec_rep(v.number as nat) + ",\"scores\":"@ + ser_results_list(
        v.scores,
    ) + "}"@
}

/// Reads one rider, keys in serialized order.
pub open spec fn p_player(s: Seq<char>, i: int) -> Option<(crate::game::PlayerV, int)> {
    let i0 = ws_end(s, i);
    if !lit_at(s, "{\"name\":"@, i0) {
        Option::None
    } else {
        match p_string(s, ws_end(s, i0 + "{\"name\":"@.len())) {
            Option::None => Option::None,
            Option::Some((name, j1)) => {
                let k1 = ws_end(s, j1);
                if !lit_at(s, ",\"surname\":"@, k1) {
                    Option::None
                } else {
                    match p_string(s, ws_end(s, k1 + ",\"surname\":"@.len())) {
                        Option::None => Option::None,
                        Option::Some((surname, j2)) => {
                            let k2 = ws_end(s, j2);
                            if !lit_at(s, ",\"number\":"@, k2) {
                                Option::None
                            } else {
                                match p_u32(s, ws_end(s, k2 + ",\"number\":"@.len())) {
                                    Option::None => Option::None,
                                    Option::Some((num, j3)) => {
                                        let k3 = ws_end(s, j3);
                                        if !lit_at(s, ",\"scores\":"@, k3) {
                                            Option::None
                                        } else {
                                            match p_results_list(
                                                s,
                                                k3 + ",\"scores\":"@.len(),
                                            ) {
                                                Option::None => Option::None,
                                                Option::Some((scores, j4)) => {
                                                    let k4 = ws_end(s, j4);
                                                    if k4 < s.len() && s[k4] == '}' {
                                                        Option::Some(
                                                            (
                                                                crate::game::PlayerV {
                                                                    name,
                                                                    surname,
                                                                    number: num,
                                                                    scores,
                                                                },
                                                                k4 + 1,
                                                            ),
                                                        )
                                                    } else {
                                                        Option::None
                                                    }
                                                },
                                            }
                                        }
                                    },
                                }
                            }
                        },
                    }
                }
            },
        }
    }
}

proof fn lemma_p_player_ser(v: crate::game::PlayerV, s: Seq<char>, i: int)
    requires
        occurs_at(s, ser_player(v), i),
    ensures
        p_player(s, i) == Option::Some((v, i + ser_player(v).len())),
        ser_player(v).len() > 0,
        s[i] == '{',
{
    reveal_strlit("{\"name\":");
    reveal_strlit(",\"surname\":");
    reveal_strlit(",\"number\":");
    reveal_strlit(",\"scores\":");
    reveal_strlit("}");
    let la = "{\"name\":"@;
    let lb = ",\"surname\":"@;
    let lc = ",\"number\":"@;
    let ld = ",\"scores\":"@;
    let f1 = ser_string(v.name);
    let f2 = ser_string(v.surname);
    let f3 = dec_rep(v.number as nat);
    let f4 = ser_results_list(v.scores);
    lemma_dec_rep_digits(v.number as nat);
    lemma_occurs_concat(s, la + f1 + lb + f2 + lc + f3 + ld + f4, "}"@, i);
    lemma_occurs_concat(s, la + f1 + lb + f2 + lc + f3 + ld, f4, i);
    lemma_occurs_concat(s, la + f1 + lb + f2 + lc + f3, ld, i);
    lemma_occurs_concat(s, la + f1 + lb + f2 + lc, f3, i);
    lemma_occurs_concat(s, la + f1 + lb + f2, lc, i);
    lemma_occurs_concat(s, la + f1 + lb, f2, i);
    lemma_occurs_concat(s, la + f1, lb, i);
    lemma_occurs_concat(s, la, f1, i);
    lemma_occurs_head(s, la, i);
    assert(ws_end(s, i) == i);
    lemma_occurs_lit(s, la, i);
    let i1 = i + la.len();
    lemma_occurs_head(s, f1, i1);
    assert(s[i1] == '"');
    assert(ws_end(s, i1) == i1);
    lemma_p_string_ser(v.name, s, i1);
    let j1 = i1 + f1.len();
    lemma_occurs_head(s, lb, j1);
    assert(ws_end(s, j1) == j1);
    lemma_occurs_lit(s, lb, j1);
    let i2 = j1 + lb.len();
    lemma_occurs_head(s, f2, i2);
    assert(s[i2] == '"');
    assert(ws_end(s, i2) == i2);
    lemma_p_string_ser(v.surname, s, i2);
    let j2 = i2 + f2.len();
    lemma_occurs_head(s, lc, j2);
    assert(ws_end(s, j2) == j2);
    lemma_occurs_lit(s, lc, j2);
    let i3 = j2 + lc.len();
    lemma_occurs_head(s, f3, i3);
    assert(is_digit(f3[0]));
    assert(ws_end(s, i3) == i3);
    let j3 = i3 + f3.len();
    lemma_occurs_head(s, ld, j3);
    assert(s[j3] == ',');
    lemma_p_u32_ser(v.number, s, i3);
    assert(ws_end(s, j3) == j3);
    lemma_occurs_lit(s, ld, j3);
    let i4 = j3 + ld.len();
    lemma_p_results_list_ser(v.scores, s, i4);
    let j4 = i4 + f4.len();
    lemma_occurs_head(s, "}"@, j4);
    assert(s[j4] == '}');
    assert(ws_end(s, j4) == j4);
}

/// Appends the serialized form of one rider.
pub fn write_player(out: &mut Vec<char>, v: &crate::game::Player)
    ensures
        final(out)@ == old(out)@ + ser_player(v@),
{
    push_lit(out, "{\"name\":");
    let name = chars_vec(v.name.as_str());
    push_string(out, &name);
    push_lit(out, ",\"surname\":");
    let surname = chars_vec(v.surname.as_str());
    push_string(out, &surname);
    push_lit(out, ",\"number\":");
    let num = fmt_u32(v.number);
    push_chars(out, &num);
    push_lit(out, ",\"scores\":");
    write_results_list(out, &v.scores);
    push_lit(out, "}");
    proof {
        assert(out@ =~= old(out)@ + ser_player(v@));
    }
}

/// Executable reader for one rider.
pub fn parse_player_obj(s: &Vec<char>, i: usize) -> (r: Option<(crate::game::Player, usize)>)
    requires
        i <= s@.len(),
    ensures
        match r {
            Option::Some((v, j)) => p_player(s@, i as int) == Option::Some((v@, j as int)) && i
                < j <= s@.len(),
            Option::None => p_player(s@, i as int) is None,
        },
{
    let n = s.len();
    let i0 = skip_ws(s, i);
    let c1 = match expect_lit(s, i0, "{\"name\":") {
        Some(x) => x,
        None => {
            return None;
        },
    };
    let (name, j1) = match parse_string(s, skip_ws(s, c1)) {
        Some(x) => x,
        None => {
            return None;
        },
    };
    let k1 = skip_ws(s, j1);
    let c2 = match expect_lit(s, k1, ",\"surname\":") {
        Some(x) => x,
        None => {
            return None;
        },
    };
    let (surname, j2) = match parse_string(s, skip_ws(s, c2)) {
        Some(x) => x,
        None => {
            return None;
        },
    };
    let k2 = skip_ws(s, j2);
    let c3 = match expect_lit(s, k2, ",\"number\":") {
        Some(x) => x,
        None => {
            return None;
        },
    };
    let (num, j3) = match parse_num(s, skip_ws(s, c3)) {
        Some(x) => x,
        None => {
            return None;
        },
    };
    let k3 = skip_ws(s, j3);
    let c4 = match expect_lit(s, k3, ",\"scores\":") {
        Some(x) => x,
        None => {
            return None;
        },
    };
    let (scores, j4) = match parse_results_list(s, c4) {
        Some(x) => x,
        None => {
            return None;
        },
    };
    let k4 = skip_ws(s, j4);
    if !(k4 < n && s[k4] == '}') {
        return None;
    }
    let v = crate::game::Player {
        name: string_from_chars(&name),
        surname: string_from_chars(&surname),
        number: num,
        scores,
    };
    Some((v, k4 + 1))
}


/// Comma-separated serialized riders after the first one.
pub open spec fn ser_player_tail(l: Seq<crate::game::PlayerV>) -> Seq<char>
    decreases l.len(),
{
    if l.len() == 0 {
        Seq::empty()
    } else {
        seq![','] + ser_player(l[0]) + ser_player_tail(l.drop_first())
    }
}

/// The serialized form of a list of riders.
pub open spec fn ser_player_list(l: Seq<crate::game::PlayerV>) -> Seq<char> {
    if l.len() == 0 {
        seq!['[', ']']
    } else {
        seq!['['] + ser_player(l[0]) + ser_player_tail(l.drop_first()) + seq![']']
    }
}

/// Reads the rest of a list of riders: a closing bracket, or a
/// comma and a further rider.
pub open spec fn p_player_rest(s: Seq<char>, i: int) -> Option<
    (Seq<crate::game::PlayerV>, int),
>
    decreases s.len() - i,
    via p_player_rest_decreases
{
    let i0 = ws_end(s, i);
    if i0 < s.len() && s[i0] == ']' {
        Option::Some((Seq::empty(), i0 + 1))
    } else if i0 < s.len() && s[i0] == ',' {
        match p_player(s, i0 + 1) {
            Option::None => Option::None,
            Option::Some((v, j)) => if i0 + 1 < j <= s.len() {
                match p_player_rest(s, j) {
                    Option::None => Option::None,
                    Option::Some((l, e)) => Option::Some((seq![v] + l, e)),
                }
            } else {
                Option::None
            },
        }
    } else {
        Option::None
    }
}

#[via_fn]
proof fn p_player_rest_decreases(s: Seq<char>, i: int) {
    lemma_ws_end_ge(s, i);
}

/// Reads a list of riders.
pub open spec fn p_player_list(s: Seq<char>, i: int) -> Option<
    (Seq<crate::game::PlayerV>, int),
> {
    let i0 = ws_end(s, i);
    if i0 < s.len() && s[i0] == '[' {
        let i1 = ws_end(s, i0 + 1);
        if i1 < s.len() && s[i1] == ']' {
            Option::Some((Seq::empty(), i1 + 1))
        } else {
            match p_player(s, i0 + 1) {
                Option::None => Option::None,
                Option::Some((v, j)) => if i0 + 1 < j <= s.len() {
                    match p_player_rest(s, j) {
                        Option::None => Option::None,
                        Option::Some((l, e)) => Option::Some((seq![v] + l, e)),
                    }
                } else {
                    Option::None
                },
            }
        }
    } else {
        Option::None
    }
}

proof fn lemma_p_player_rest_ser(m: Seq<crate::game::PlayerV>, s: Seq<char>, i: int)
    requires
        occurs_at(s, ser_player_tail(m) + seq![']'], i),
    ensures
        p_player_rest(s, i) == Option::Some((m, i + ser_player_tail(m).len() + 1)),
    decreases m.len(),
{
    if m.len() == 0 {
        assert(ser_player_tail(m) + seq![']'] =~= seq![']']);
        lemma_occurs_head(s, seq![']'], i);
        assert(ws_end(s, i) == i);
    } else {
        let f = ser_player(m[0]);
        let t = ser_player_tail(m.drop_first());
        assert(ser_player_tail(m) + seq![']'] =~= (seq![','] + f) + (t + seq![']']));
        lemma_occurs_concat(s, seq![','] + f, t + seq![']'], i);
        lemma_occurs_concat(s, seq![','], f, i);
        lemma_occurs_head(s, seq![','], i);
        assert(ws_end(s, i) == i);
        lemma_p_player_ser(m[0], s, i + 1);
        let j = i + 1 + f.len();
        lemma_p_player_rest_ser(m.drop_first(), s, j);
        assert(seq![m[0]] + m.drop_first() =~= m);
        assert(s[i] != ']');
    }
}

#[verifier::rlimit(100)]
proof fn lemma_p_player_list_ser(l: Seq<crate::game::PlayerV>, s: Seq<char>, i: int)
    requires
        occurs_at(s, ser_player_list(l), i),
    ensures
        p_player_list(s, i) == Option::Some((l, i + ser_player_list(l).len())),
        s[i] == '[',
        ser_player_list(l).len() > 0,
{
    if l.len() == 0 {
        lemma_occurs_head(s, seq!['[', ']'], i);
        assert(ws_end(s, i) == i);
        assert(s[i + 1] == seq!['[', ']'][1]);
        assert(ws_end(s, i + 1) == i + 1);
    } else {
        let f = ser_player(l[0]);
        let t = ser_player_tail(l.drop_first());
        assert(ser_player_list(l) =~= (seq!['['] + f) + (t + seq![']']));
        lemma_occurs_concat(s, seq!['['] + f, t + seq![']'], i);
        lemma_occurs_concat(s, seq!['['], f, i);
        lemma_occurs_head(s, seq!['['], i);
        assert(ws_end(s, i) == i);
        lemma_p_player_ser(l[0], s, i + 1);
        assert(s[i + 1] == '{');
        assert(ws_end(s, i + 1) == i + 1);
        let j = i + 1 + f.len();
        lemma_p_player_rest_ser(l.drop_first(), s, j);
        assert(seq![l[0]] + l.drop_first() =~= l);
    }
}

/// Appends the serialized form of a list of riders.
pub fn write_player_list(out: &mut Vec<char>, l: &Vec<crate::game::Player>)
    ensures
        final(out)@ == old(out)@ + ser_player_list(l@.map_values(|x: crate::game::Player| x@)),
{
    let ghost lv = l@.map_values(|x: crate::game::Player| x@);
    out.push('[');
    let n = l.len();
    if n == 0 {
        out.push(']');
        proof {
            assert(out@ =~= old(out)@ + ser_player_list(lv));
        }
        return ;
    }
    write_player(out, &l[0]);
    let mut k: usize = 1;
    while k < n
        invariant
            1 <= k <= n == l@.len(),
            lv == l@.map_values(|x: crate::game::Player| x@),
            out@ =~= old(out)@ + seq!['['] + ser_player(lv[0]) + ser_player_tail(
                lv.subrange(1, k as int),
            ),
        decreases n - k,
    {
        out.push(',');
        write_player(out, &l[k]);
        proof {
            lemma_player_tail_snoc(lv, k as int);
        }
        k = k + 1;
    }
    out.push(']');
    proof {
        assert(lv.subrange(1, n as int) =~= lv.drop_first());
        assert(out@ =~= old(out)@ + ser_player_list(lv));
    }
}

proof fn lemma_player_tail_snoc(lv: Seq<crate::game::PlayerV>, k: int)
    requires
        1 <= k < lv.len(),
    ensures
        ser_player_tail(lv.subrange(1, k + 1)) =~= ser_player_tail(lv.subrange(1, k)) + (seq![',']
            + ser_player(lv[k])),
    decreases k,
{
    lemma_player_tail_snoc_from(lv, 1, k);
}

proof fn lemma_player_tail_snoc_from(lv: Seq<crate::game::PlayerV>, a: int, k: int)
    requires
        1 <= a <= k < lv.len(),
    ensures
        ser_player_tail(lv.subrange(a, k + 1)) =~= ser_player_tail(lv.subrange(a, k)) + (seq![',']
            + ser_player(lv[k])),
    decreases k - a,
{
    if a == k {
        assert(lv.subrange(a, k) =~= Seq::<crate::game::PlayerV>::empty());
        assert(lv.subrange(a, k + 1) =~= seq![lv[k]]);
        assert(lv.subrange(a, k + 1)[0] == lv[k]);
        assert(lv.subrange(a, k + 1).drop_first()
            =~= Seq::<crate::game::PlayerV>::empty());
        assert(ser_player_tail(Seq::<crate::game::PlayerV>::empty()) =~= Seq::<
            char,
        >::empty());
        assert(ser_player_tail(lv.subrange(a, k)) =~= Seq::<char>::empty());
    } else {
        let u = lv.subrange(a, k + 1);
        let w = lv.subrange(a, k);
        assert(u[0] == lv[a] && w[0] == lv[a]);
        assert(u.drop_first() =~= lv.subrange(a + 1, k + 1));
        assert(w.drop_first() =~= lv.subrange(a + 1, k));
        lemma_player_tail_snoc_from(lv, a + 1, k);
    }
}

/// Executable reader for a list of riders.
pub fn parse_player_list(s: &Vec<char>, i: usize) -> (r: Option<
    (Vec<crate::game::Player>, usize),
>)
    requires
        i <= s@.len(),
    ensures
        match r {
            Option::Some((l, j)) => p_player_list(s@, i as int) == Option::Some(
                (l@.map_values(|x: crate::game::Player| x@), j as int),
            ) && i < j <= s@.len(),
            Option::None => p_player_list(s@, i as int) is None,
        },
{
    let n = s.len();
    let i0 = skip_ws(s, i);
    if !(i0 < n && s[i0] == '[') {
        return None;
    }
    let i1 = skip_ws(s, i0 + 1);
    let mut acc: Vec<crate::game::Player> = Vec::new();
    if i1 < n && s[i1] == ']' {
        proof {
            assert(acc@.map_values(|x: crate::game::Player| x@)
                =~= Seq::<crate::game::PlayerV>::empty());
        }
        return Some((acc, i1 + 1));
    }
    let (v0, mut j) = match parse_player_obj(s, i0 + 1) {
        Some(x) => x,
        None => {
            return None;
        },
    };
    acc.push(v0);
    loop
        invariant
            i0 + 1 < j <= n == s@.len(),
            i0 >= i,
            acc@.len() >= 1,
            (match p_player_rest(s@, j as int) {
                Option::Some((l, e)) => p_player_list(s@, i as int) == Option::Some(
                    (acc@.map_values(|x: crate::game::Player| x@) + l, e),
                ),
                Option::None => p_player_list(s@, i as int) is None,
            }),
        decreases n - j,
    {
        let k = skip_ws(s, j);
        if k < n && s[k] == ']' {
            proof {
                let av = acc@.map_values(|x: crate::game::Player| x@);
                assert(av + Seq::<crate::game::PlayerV>::empty() =~= av);
            }
            return Some((acc, k + 1));
        }
        if !(k < n && s[k] == ',') {
            return None;
        }
        let (v, j2) = match parse_player_obj(s, k + 1) {
            Some(x) => x,
            None => {
                return None;
            },
        };
        proof {
            let av = acc@.map_values(|x: crate::game::Player| x@);
            let av2 = acc@.push(v).map_values(|x: crate::game::Player| x@);
            assert(av2 =~= av.push(v@));
            if let Option::Some((l, e)) = p_player_rest(s@, j2 as int) {
                assert(av + (seq![v@] + l) =~= av2 + l);
            }
        }
        acc.push(v);
        j = j2;
    }
}


/// The serialized form of one heat.
#[verifier::opaque]
pub open spec fn ser_run(v: crate::game::RunV) -> Seq<char> {
    "{\"number\":"@ + dec_rep(v.number as nat) + ",\"time\":"@ + ser_time(v.time)
        + ",\"player_score\":"@ + ser_prs_list(v.player_score) + "}"@
}

/// Reads one heat, keys in serialized order.
pub open spec fn p_run(s: Seq<char>, i: int) -> Option<(crate::game::RunV, int)> {
    let i0 = ws_end(s, i);
    if !lit_at(s, "{\"number\":"@, i0) {
        Option::None
    } else {
        match p_u32(s, ws_end(s, i0 + "{\"number\":"@.len())) {
            Option::None => Option::None,
            Option::Some((num, j1)) => {
                let k1 = ws_end(s, j1);
                if !(num <= u8::MAX && lit_at(s, ",\"time\":"@, k1)) {
                    Option::None
                } else {
                    match p_time(s, k1 + ",\"time\":"@.len()) {
                        Option::None => Option::None,
                        Option::Some((t, j2)) => {
                            let k2 = ws_end(s, j2);
                            if !lit_at(s, ",\"player_score\":"@, k2) {
                                Option::None
                            } else {
                                match p_prs_list(s, k2 + ",\"player_score\":"@.len()) {
                                    Option::None => Option::None,
                                    Option::Some((ps, j3)) => {
                                        let k3 = ws_end(s, j3);
                                        if k3 < s.len() && s[k3] == '}' {
                                            Option::Some(
                                                (
                                                    crate::game::RunV {
                                                        number: num as u8,
                                                        time: t,
                                                        player_score: ps,
                                                    },
                                                    k3 + 1,
                                                ),
                                            )
                                        } else {
                                            Option::None
                                        }
                                    },
                                }
                            }
                        },
                    }
                }
            },
        }
    }
}

proof fn lemma_p_run_ser(v: crate::game::RunV, s: Seq<char>, i: int)
    requires
        occurs_at(s, ser_run(v), i),
    ensures
        p_run(s, i) == Option::Some((v, i + ser_run(v).len())),
        ser_run(v).len() > 0,
        s[i] == '{',
{
    reveal(ser_run);
    reveal_strlit("{\"number\":");
    reveal_strlit(",\"time\":");
    reveal_strlit(",\"player_score\":");
    reveal_strlit("}");
    reveal_strlit("null");
    let la = "{\"number\":"@;
    let lb = ",\"time\":"@;
    let lc = ",\"player_score\":"@;
    let f1 = dec_rep(v.number as nat);
    let f2 = ser_time(v.time);
    let f3 = ser_prs_list(v.player_score);
    lemma_dec_rep_digits(v.number as nat);
    lemma_occurs_concat(s, la + f1 + lb + f2 + lc + f3, "}"@, i);
    lemma_occurs_concat(s, la + f1 + lb + f2 + lc, f3, i);
    lemma_occurs_concat(s, la + f1 + lb + f2, lc, i);
    lemma_occurs_concat(s, la + f1 + lb, f2, i);
    lemma_occurs_concat(s, la + f1, lb, i);
    lemma_occurs_concat(s, la, f1, i);
    lemma_occurs_head(s, la, i);
    assert(ws_end(s, i) == i);
    lemma_occurs_lit(s, la, i);
    let i1 = i + la.len();
    lemma_occurs_head(s, f1, i1);
    assert(is_digit(f1[0]));
    assert(ws_end(s, i1) == i1);
    let j1 = i1 + f1.len();
    lemma_occurs_head(s, lb, j1);
    assert(s[j1] == ',');
    lemma_p_u32_ser(v.number as u32, s, i1);
    assert(ws_end(s, j1) == j1);
    lemma_occurs_lit(s, lb, j1);
    let i2 = j1 + lb.len();
    lemma_p_time_ser(v.time, s, i2);
    let j2 = i2 + f2.len();
    lemma_occurs_head(s, lc, j2);
    assert(ws_end(s, j2) == j2);
    lemma_occurs_lit(s, lc, j2);
    let i3 = j2 + lc.len();
    lemma_p_prs_list_ser(v.player_score, s, i3);
    let j3 = i3 + f3.len();
    lemma_occurs_head(s, "}"@, j3);
    assert(s[j3] == '}');
    assert(ws_end(s, j3) == j3);
}

/// Appends the serialized form of one heat.
pub fn write_run(out: &mut Vec<char>, v: &crate::game::Run)
    ensures
        final(out)@ == old(out)@ + ser_run(v@),
{
    push_lit(out, "{\"number\":");
    let num = fmt_u32(v.number as u32);
    push_chars(out, &num);
    push_lit(out, ",\"time\":");
    write_time(out, &v.time);
    push_lit(out, ",\"player_score\":");
    write_prs_list(out, &v.player_score);
    push_lit(out, "}");
    proof {
        reveal(ser_run);
        assert(out@ =~= old(out)@ + ser_run(v@));
    }
}

/// Executable reader for one heat.
pub fn parse_run_obj(s: &Vec<char>, i: usize) -> (r: Option<(crate::game::Run, usize)>)
    requires
        i <= s@.len(),
    ensures
        match r {
            Option::Some((v, j)) => p_run(s@, i as int) == Option::Some((v@, j as int)) && i < j
                <= s@.len(),
            Option::None => p_run(s@, i as int) is None,
        },
{
    let n = s.len();
    let i0 = skip_ws(s, i);
    let c1 = match expect_lit(s, i0, "{\"number\":") {
        Some(x) => x,
        None => {
            return None;
        },
    };
    let (num, j1) = match parse_num(s, skip_ws(s, c1)) {
        Some(x) => x,
        None => {
            return None;
        },
    };
    let k1 = skip_ws(s, j1);
    if num > u8::MAX as u32 {
        return None;
    }
    let c2 = match expect_lit(s, k1, ",\"time\":") {
        Some(x) => x,
        None => {
            return None;
        },
    };
    let (t, j2) = match parse_time_field(s, c2) {
        Some(x) => x,
        None => {
            return None;
        },
    };
    let k2 = skip_ws(s, j2);
    let c3 = match expect_lit(s, k2, ",\"player_score\":") {
        Some(x) => x,
        None => {
            return None;
        },
    };
    let (ps, j3) = match parse_prs_list(s, c3) {
        Some(x) => x,
        None => {
            return None;
        },
    };
    let k3 = skip_ws(s, j3);
    if !(k3 < n && s[k3] == '}') {
        return None;
    }
    let v = crate::game::Run { number: num as u8, time: t, player_score: ps };
    Some((v, k3 + 1))
}


/// Comma-separated serialized heats after the first one.
pub open spec fn ser_run_tail(l: Seq<crate::game::RunV>) -> Seq<char>
    decreases l.len(),
{
    if l.len() == 0 {
        Seq::empty()
    } else {
        seq![','] + ser_run(l[0]) + ser_run_tail(l.drop_first())
    }
}

/// The serialized form of a list of heats.
pub open spec fn ser_run_list(l: Seq<crate::game::RunV>) -> Seq<char> {
    if l.len() == 0 {
        seq!['[', ']']
    } else {
        seq!['['] + ser_run(l[0]) + ser_run_tail(l.drop_first()) + seq![']']
    }
}

/// Reads the rest of a list of heats: a closing bracket, or a
/// comma and a further heat.
pub open spec fn p_run_rest(s: Seq<char>, i: int) -> Option<
    (Seq<crate::game::RunV>, int),
>
    decreases s.len() - i,
    via p_run_rest_decreases
{
    let i0 = ws_end(s, i);
    if i0 < s.len() && s[i0] == ']' {
        Option::Some((Seq::empty(), i0 + 1))
    } else if i0 < s.len() && s[i0] == ',' {
        match p_run(s, i0 + 1) {
            Option::None => Option::None,
            Option::Some((v, j)) => if i0 + 1 < j <= s.len() {
                match p_run_rest(s, j) {
                    Option::None => Option::None,
                    Option::Some((l, e)) => Option::Some((seq![v] + l, e)),
                }
            } else {
                Option::None
            },
        }
    } else {
        Option::None
    }
}

#[via_fn]
proof fn p_run_rest_decreases(s: Seq<char>, i: int) {
    lemma_ws_end_ge(s, i);
}

/// Reads a list of heats.
pub open spec fn p_run_list(s: Seq<char>, i: int) -> Option<
    (Seq<crate::game::RunV>, int),
> {
    let i0 = ws_end(s, i);
    if i0 < s.len() && s[i0] == '[' {
        let i1 = ws_end(s, i0 + 1);
        if i1 < s.len() && s[i1] == ']' {
            Option::Some((Seq::empty(), i1 + 1))
        } else {
            match p_run(s, i0 + 1) {
                Option::None => Option::None,
                Option::Some((v, j)) => if i0 + 1 < j <= s.len() {
                    match p_run_rest(s, j) {
                        Option::None => Option::None,
                        Option::Some((l, e)) => Option::Some((seq![v] + l, e)),
                    }
                } else {
                    Option::None
                },
            }
        }
    } else {
        Option::None
    }
}

proof fn lemma_p_run_rest_ser(m: Seq<crate::game::RunV>, s: Seq<char>, i: int)
    requires
        occurs_at(s, ser_run_tail(m) + seq![']'], i),
    ensures
        p_run_rest(s, i) == Option::Some((m, i + ser_run_tail(m).len() + 1)),
    decreases m.len(),
{
    if m.len() == 0 {
        assert(ser_run_tail(m) + seq![']'] =~= seq![']']);
        lemma_occurs_head(s, seq![']'], i);
        assert(ws_end(s, i) == i);
    } else {
        let f = ser_run(m[0]);
        let t = ser_run_tail(m.drop_first());
        assert(ser_run_tail(m) + seq![']'] =~= (seq![','] + f) + (t + seq![']']));
        lemma_occurs_concat(s, seq![','] + f, t + seq![']'], i);
        lemma_occurs_concat(s, seq![','], f, i);
        lemma_occurs_head(s, seq![','], i);
        assert(ws_end(s, i) == i);
        lemma_p_run_ser(m[0], s, i + 1);
        let j = i + 1 + f.len();
        lemma_p_run_rest_ser(m.drop_first(), s, j);
        assert(seq![m[0]] + m.drop_first() =~= m);
        assert(s[i] != ']');
    }
}

#[verifier::rlimit(100)]
proof fn lemma_p_run_list_ser(l: Seq<crate::game::RunV>, s: Seq<char>, i: int)
    requires
        occurs_at(s, ser_run_list(l), i),
    ensures
        p_run_list(s, i) == Option::Some((l, i + ser_run_list(l).len())),
        s[i] == '[',
        ser_run_list(l).len() > 0,
{
    if l.len() == 0 {
        lemma_occurs_head(s, seq!['[', ']'], i);
        assert(ws_end(s, i) == i);
        assert(s[i + 1] == seq!['[', ']'][1]);
        assert(ws_end(s, i + 1) == i + 1);
    } else {
        let f = ser_run(l[0]);
        let t = ser_run_tail(l.drop_first());
        assert(ser_run_list(l) =~= (seq!['['] + f) + (t + seq![']']));
        lemma_occurs_concat(s, seq!['['] + f, t + seq![']'], i);
        lemma_occurs_concat(s, seq!['['], f, i);
        lemma_occurs_head(s, seq!['['], i);
        assert(ws_end(s, i) == i);
        lemma_p_run_ser(l[0], s, i + 1);
        assert(s[i + 1] == '{');
        assert(ws_end(s, i + 1) == i + 1);
        let j = i + 1 + f.len();
        lemma_p_run_rest_ser(l.drop_first(), s, j);
        assert(seq![l[0]] + l.drop_first() =~= l);
    }
}

/// Appends the serialized form of a list of heats.
pub fn write_run_list(out: &mut Vec<char>, l: &Vec<crate::game::Run>)
    ensures
        final(out)@ == old(out)@ + ser_run_list(l@.map_values(|x: crate::game::Run| x@)),
{
    let ghost lv = l@.map_values(|x: crate::game::Run| x@);
    out.push('[');
    let n = l.len();
    if n == 0 {
        out.push(']');
        proof {
            assert(out@ =~= old(out)@ + ser_run_list(lv));
        }
        return ;
    }
    write_run(out, &l[0]);
    let mut k: usize = 1;
    while k < n
        invariant
            1 <= k <= n == l@.len(),
            lv == l@.map_values(|x: crate::game::Run| x@),
            out@ =~= old(out)@ + seq!['['] + ser_run(lv[0]) + ser_run_tail(
                lv.subrange(1, k as int),
            ),
        decreases n - k,
    {
        out.push(',');
        write_run(out, &l[k]);
        proof {
            lemma_run_tail_snoc(lv, k as int);
        }
        k = k + 1;
    }
    out.push(']');
    proof {
        assert(lv.subrange(1, n as int) =~= lv.drop_first());
        assert(out@ =~= old(out)@ + ser_run_list(lv));
    }
}

proof fn lemma_run_tail_snoc(lv: Seq<crate::game::RunV>, k: int)
    requires
        1 <= k < lv.len(),
    ensures
        ser_run_tail(lv.subrange(1, k + 1)) =~= ser_run_tail(lv.subrange(1, k)) + (seq![',']
            + ser_run(lv[k])),
    decreases k,
{
    lemma_run_tail_snoc_from(lv, 1, k);
}

proof fn lemma_run_tail_snoc_from(lv: Seq<crate::game::RunV>, a: int, k: int)
    requires
        1 <= a <= k < lv.len(),
    ensures
        ser_run_tail(lv.subrange(a, k + 1)) =~= ser_run_tail(lv.subrange(a, k)) + (seq![',']
            + ser_run(lv[k])),
    decreases k - a,
{
    if a == k {
        assert(lv.subrange(a, k) =~= Seq::<crate::game::RunV>::empty());
        assert(lv.subrange(a, k + 1) =~= seq![lv[k]]);
        assert(lv.subrange(a, k + 1)[0] == lv[k]);
        assert(lv.subrange(a, k + 1).drop_first()
            =~= Seq::<crate::game::RunV>::empty());
        assert(ser_run_tail(Seq::<crate::game::RunV>::empty()) =~= Seq::<
            char,
        >::empty());
        assert(ser_run_tail(lv.subrange(a, k)) =~= Seq::<char>::empty());
    } else {
        let u = lv.subrange(a, k + 1);
        let w = lv.subrange(a, k);
        assert(u[0] == lv[a] && w[0] == lv[a]);
        assert(u.drop_first() =~= lv.subrange(a + 1, k + 1));
        assert(w.drop_first() =~= lv.subrange(a + 1, k));
        lemma_run_tail_snoc_from(lv, a + 1, k);
    }
}

/// Executable reader for a list of heats.
pub fn parse_run_list(s: &Vec<char>, i: usize) -> (r: Option<
    (Vec<crate::game::Run>, usize),
>)
    requires
        i <= s@.len(),
    ensures
        match r {
            Option::Some((l, j)) => p_run_list(s@, i as int) == Option::Some(
                (l@.map_values(|x: crate::game::Run| x@), j as int),
            ) && i < j <= s@.len(),
            Option::None => p_run_list(s@, i as int) is None,
        },
{
    let n = s.len();
    let i0 = skip_ws(s, i);
    if !(i0 < n && s[i0] == '[') {
        return None;
    }
    let i1 = skip_ws(s, i0 + 1);
    let mut acc: Vec<crate::game::Run> = Vec::new();
    if i1 < n && s[i1] == ']' {
        proof {
            assert(acc@.map_values(|x: crate::game::Run| x@)
                =~= Seq::<crate::game::RunV>::empty());
        }
        return Some((acc, i1 + 1));
    }
    let (v0, mut j) = match parse_run_obj(s, i0 + 1) {
        Some(x) => x,
        None => {
            return None;
        },
    };
    acc.push(v0);
    loop
        invariant
            i0 + 1 < j <= n == s@.len(),
            i0 >= i,
            acc@.len() >= 1,
            (match p_run_rest(s@, j as int) {
                Option::Some((l, e)) => p_run_list(s@, i as int) == Option::Some(
                    (acc@.map_values(|x: crate::game::Run| x@) + l, e),
                ),
                Option::None => p_run_list(s@, i as int) is None,
            }),
        decreases n - j,
    {
        let k = skip_ws(s, j);
        if k < n && s[k] == ']' {
            proof {
                let av = acc@.map_values(|x: crate::game::Run| x@);
                assert(av + Seq::<crate::game::RunV>::empty() =~= av);
            }
            return Some((acc, k + 1));
        }
        if !(k < n && s[k] == ',') {
            return None;
        }
        let (v, j2) = match parse_run_obj(s, k + 1) {
            Some(x) => x,
            None => {
                return None;
            },
        };
        proof {
            let av = acc@.map_values(|x: crate::game::Run| x@);
            let av2 = acc@.push(v).map_values(|x: crate::game::Run| x@);
            assert(av2 =~= av.push(v@));
            if let Option::Some((l, e)) = p_run_rest(s@, j2 as int) {
                assert(av + (seq![v@] + l) =~= av2 + l);
            }
        }
        acc.push(v);
        j = j2;
    }
}


/// The serialized form of one side.
pub open spec fn ser_team(v: crate::game::TeamV) -> Seq<char> {
    "{\"name\":"@ + ser_string(v.name) + ",\"points\":"@ + dec_rep(v.points as nat)
        + ",\"players\":"@ + ser_player_list(v.players) + "}"@
}

/// Reads one side, keys in serialized order.
pub open spec fn p_team(s: Seq<char>, i: int) -> Option<(crate::game::TeamV, int)> {
    let i0 = ws_end(s, i);
    if !lit_at(s, "{\"name\":"@, i0) {
        Option::None
    } else {
        match p_string(s, ws_end(s, i0 + "{\"name\":"@.len())) {
            Option::None => Option::None,
            Option::Some((name, j1)) => {
                let k1 = ws_end(s, j1);
                if !lit_at(s, ",\"points\":"@, k1) {
                    Option::None
                } else {
                    match p_u32(s, ws_end(s, k1 + ",\"points\":"@.len())) {
                        Option::None => Option::None,
                        Option::Some((pts, j2)) => {
                            let k2 = ws_end(s, j2);
                            if !(pts <= u16::MAX && lit_at(s, ",\"players\":"@, k2)) {
                                Option::None
                            } else {
                                match p_player_list(s, k2 + ",\"players\":"@.len()) {
                                    Option::None => Option::None,
                                    Option::Some((pls, j3)) => {
                                        let k3 = ws_end(s, j3);
                                        if k3 < s.len() && s[k3] == '}' {
                                            Option::Some(
                                                (
                                                    crate::game::TeamV {
                                                        name,
                                                        points: pts as u16,
                                                        players: pls,
                                                    },
                                                    k3 + 1,
                                                ),
                                            )
                                        } else {
                                            Option::None
                                        }
                                    },
                                }
                            }
                        },
                    }
                }
            },
        }
    }
}

#[verifier::rlimit(100)]
proof fn lemma_p_team_ser(v: crate::game::TeamV, s: Seq<char>, i: int)
    requires
        occurs_at(s, ser_team(v), i),
    ensures
        p_team(s, i) == Option::Some((v, i + ser_team(v).len())),
        ser_team(v).len() > 0,
        s[i] == '{',
{
    reveal_strlit("{\"name\":");
    reveal_strlit(",\"points\":");
    reveal_strlit(",\"players\":");
    reveal_strlit("}");
    let la = "{\"name\":"@;
    let lb = ",\"points\":"@;
    let lc = ",\"players\":"@;
    let f1 = ser_string(v.name);
    let f2 = dec_rep(v.points as nat);
    let f3 = ser_player_list(v.players);
    lemma_dec_rep_digits(v.points as nat);
    lemma_occurs_concat(s, la + f1 + lb + f2 + lc + f3, "}"@, i);
    lemma_occurs_concat(s, la + f1 + lb + f2 + lc, f3, i);
    lemma_occurs_concat(s, la + f1 + lb + f2, lc, i);
    lemma_occurs_concat(s, la + f1 + lb, f2, i);
    lemma_occurs_concat(s, la + f1, lb, i);
    lemma_occurs_concat(s, la, f1, i);
    lemma_occurs_head(s, la, i);
    assert(ws_end(s, i) == i);
    lemma_occurs_lit(s, la, i);
    let i1 = i + la.len();
    lemma_occurs_head(s, f1, i1);
    assert(s[i1] == '"');
    assert(ws_end(s, i1) == i1);
    lemma_p_string_ser(v.name, s, i1);
    let j1 = i1 + f1.len();
    lemma_occurs_head(s, lb, j1);
    assert(ws_end(s, j1) == j1);
    lemma_occurs_lit(s, lb, j1);
    let i2 = j1 + lb.len();
    lemma_occurs_head(s, f2, i2);
    assert(is_digit(f2[0]));
    assert(ws_end(s, i2) == i2);
    let j2 = i2 + f2.len();
    lemma_occurs_head(s, lc, j2);
    assert(s[j2] == ',');
    lemma_p_u32_ser(v.points as u32, s, i2);
    assert(ws_end(s, j2) == j2);
    lemma_occurs_lit(s, lc, j2);
    let i3 = j2 + lc.len();
    lemma_p_player_list_ser(v.players, s, i3);
    let j3 = i3 + f3.len();
    lemma_occurs_head(s, "}"@, j3);
    assert(s[j3] == '}');
    assert(ws_end(s, j3) == j3);
}

/// Appends the serialized form of one side.
pub fn write_team(out: &mut Vec<char>, v: &crate::game::Team)
    ensures
        final(out)@ == old(out)@ + ser_team(v@),
{
    push_lit(out, "{\"name\":");
    let name = chars_vec(v.name.as_str());
    push_string(out, &name);
    push_lit(out, ",\"points\":");
    let pts = fmt_u32(v.points as u32);
    push_chars(out, &pts);
    push_lit(out, ",\"players\":");
    write_player_list(out, &v.players);
    push_lit(out, "}");
    proof {
        assert(out@ =~= old(out)@ + ser_team(v@));
    }
}

/// Executable reader for one side.
pub fn parse_team_obj(s: &Vec<char>, i: usize) -> (r: Option<(crate::game::Team, usize)>)
    requires
        i <= s@.len(),
    ensures
        match r {
            Option::Some((v, j)) => p_team(s@, i as int) == Option::Some((v@, j as int)) && i < j
                <= s@.len(),
            Option::None => p_team(s@, i as int) is None,
        },
{
    let n = s.len();
    let i0 = skip_ws(s, i);
    let c1 = match expect_lit(s, i0, "{\"name\":") {
        Some(x) => x,
        None => {
            return None;
        },
    };
    let (name, j1) = match parse_string(s, skip_ws(s, c1)) {
        Some(x) => x,
        None => {
            return None;
        },
    };
    let k1 = skip_ws(s, j1);
    let c2 = match expect_lit(s, k1, ",\"points\":") {
        Some(x) => x,
        None => {
            return None;
        },
    };
    let (pts, j2) = match parse_num(s, skip_ws(s, c2)) {
        Some(x) => x,
        None => {
            return None;
        },
    };
    let k2 = skip_ws(s, j2);
    if pts > u16::MAX as u32 {
        return None;
    }
    let c3 = match expect_lit(s, k2, ",\"players\":") {
        Some(x) => x,
        None => {
            return None;
        },
    };
    let (pls, j3) = match parse_player_list(s, c3) {
        Some(x) => x,
        None => {
            return None;
        },
    };
    let k3 = skip_ws(s, j3);
    if !(k3 < n && s[k3] == '}') {
        return None;
    }
    let v = crate::game::Team { name: string_from_chars(&name), points: pts as u16, players: pls };
    Some((v, k3 + 1))
}

/// The serialized form of a whole match record.
#[verifier::opaque]
pub open spec fn ser_game(v: crate::game::GameInfoV) -> Seq<char> {
    "{\"team1\":"@ + ser_team(v.team1) + ",\"team2\":"@ + ser_team(v.team2)
        + ",\"stadium\":"@ + ser_string(v.stadium) + ",\"date\":"@ + ser_date(v.date)
        + ",\"runs\":"@ + ser_run_list(v.runs) + "}"@
}

/// Reads a whole match record, keys in serialized order.
pub open spec fn p_game(s: Seq<char>, i: int) -> Option<(crate::game::GameInfoV, int)> {
    let i0 = ws_end(s, i);
    if !lit_at(s, "{\"team1\":"@, i0) {
        Option::None
    } else {
        match p_team(s, i0 + "{\"team1\":"@.len()) {
            Option::None => Option::None,
            Option::Some((t1, j1)) => {
                let k1 = ws_end(s, j1);
                if !lit_at(s, ",\"team2\":"@, k1) {
                    Option::None
                } else {
                    match p_team(s, k1 + ",\"team2\":"@.len()) {
                        Option::None => Option::None,
                        Option::Some((t2, j2)) => {
                            let k2 = ws_end(s, j2);
                            if !lit_at(s, ",\"stadium\":"@, k2) {
                                Option::None
                            } else {
                                match p_string(
                                    s,
                                    ws_end(s, k2 + ",\"stadium\":"@.len()),
                                ) {
                                    Option::None => Option::None,
                                    Option::Some((st, j3)) => {
                                        let k3 = ws_end(s, j3);
                                        if !lit_at(s, ",\"date\":"@, k3) {
                                            Option::None
                                        } else {
                                            match p_date(s, k3 + ",\"date\":"@.len()) {
                                                Option::None => Option::None,
                                                Option::Some((dt, j4)) => {
                                                    let k4 = ws_end(s, j4);
                                                    if !lit_at(s, ",\"runs\":"@, k4) {
                                                        Option::None
                                                    } else {
                                                        match p_run_list(
                                                            s,
                                                            k4 + ",\"runs\":"@.len(),
                                                        ) {
                                                            Option::None => Option::None,
                                                            Option::Some((rs, j5)) => {
                                                                let k5 = ws_end(s, j5);
                                                                if k5 < s.len() && s[k5]
                                                                    == '}' {
                                                                    Option::Some(
                                                                        (
                                                                            crate::game::GameInfoV {
                                                                                team1: t1,
                                                                                team2: t2,
                                                                                stadium: st,
                                                                                date: dt,
                                                                                runs: rs,
                                                                            },
                                                                            k5 + 1,
                                                                        ),
                                                                    )
                                                                } else {
                                                                    Option::None
                                                                }
                                                            },
                                                        }
                                                    }
                                                },
                                            }
                                        }
                                    },
                                }
                            }
                        },
                    }
                }
            },
        }
    }
}

proof fn lemma_p_game_front(v: crate::game::GameInfoV, s: Seq<char>, i: int)
    requires
        occurs_at(
            s,
            "{\"team1\":"@ + ser_team(v.team1) + ",\"team2\":"@ + ser_team(v.team2),
            i,
        ),
    ensures
        ws_end(s, i) == i,
        s[i] == '{',
        lit_at(s, "{\"team1\":"@, i),
        p_team(s, i + "{\"team1\":"@.len()) == Option::Some(
            (v.team1, i + "{\"team1\":"@.len() + ser_team(v.team1).len()),
        ),
        ws_end(s, i + "{\"team1\":"@.len() + ser_team(v.team1).len()) == i
            + "{\"team1\":"@.len() + ser_team(v.team1).len(),
        lit_at(s, ",\"team2\":"@, i + "{\"team1\":"@.len() + ser_team(v.team1).len()),
        p_team(
            s,
            i + "{\"team1\":"@.len() + ser_team(v.team1).len() + ",\"team2\":"@.len(),
        ) == Option::Some(
            (
                v.team2,
                i + "{\"team1\":"@.len() + ser_team(v.team1).len() + ",\"team2\":"@.len()
                    + ser_team(v.team2).len(),
            ),
        ),
{
    reveal_strlit("{\"team1\":");
    reveal_strlit(",\"team2\":");
    let la = "{\"team1\":"@;
    let lb = ",\"team2\":"@;
    let f1 = ser_team(v.team1);
    let f2 = ser_team(v.team2);
    lemma_occurs_concat(s, la + f1 + lb, f2, i);
    lemma_occurs_concat(s, la + f1, lb, i);
    lemma_occurs_concat(s, la, f1, i);
    lemma_occurs_head(s, la, i);
    assert(ws_end(s, i) == i);
    lemma_occurs_lit(s, la, i);
    let i1 = i + la.len();
    lemma_p_team_ser(v.team1, s, i1);
    let j1 = i1 + f1.len();
    lemma_occurs_head(s, lb, j1);
    assert(ws_end(s, j1) == j1);
    lemma_occurs_lit(s, lb, j1);
    let i2 = j1 + lb.len();
    lemma_p_team_ser(v.team2, s, i2);
}

proof fn lemma_p_game_back(v: crate::game::GameInfoV, s: Seq<char>, b: int)
    requires
        occurs_at(
            s,
            ",\"stadium\":"@ + ser_string(v.stadium) + ",\"date\":"@ + ser_date(v.date)
                + ",\"runs\":"@ + ser_run_list(v.runs) + "}"@,
            b,
        ),
    ensures
        ws_end(s, b) == b,
        lit_at(s, ",\"stadium\":"@, b),
        p_string(s, ws_end(s, b + ",\"stadium\":"@.len())) == Option::Some(
            (v.stadium, b + ",\"stadium\":"@.len() + ser_string(v.stadium).len()),
        ),
        ws_end(s, b + ",\"stadium\":"@.len() + ser_string(v.stadium).len()) == b
            + ",\"stadium\":"@.len() + ser_string(v.stadium).len(),
        lit_at(
            s,
            ",\"date\":"@,
            b + ",\"stadium\":"@.len() + ser_string(v.stadium).len(),
        ),
        p_date(
            s,
            b + ",\"stadium\":"@.len() + ser_string(v.stadium).len() + ",\"date\":"@.len(),
        ) == Option::Some(
            (
                v.date,
                b + ",\"stadium\":"@.len() + ser_string(v.stadium).len()
                    + ",\"date\":"@.len() + ser_date(v.date).len(),
            ),
        ),
        ws_end(
            s,
            b + ",\"stadium\":"@.len() + ser_string(v.stadium).len() + ",\"date\":"@.len()
                + ser_date(v.date).len(),
        ) == b + ",\"stadium\":"@.len() + ser_string(v.stadium).len() + ",\"date\":"@.len()
            + ser_date(v.date).len(),
        lit_at(
            s,
            ",\"runs\":"@,
            b + ",\"stadium\":"@.len() + ser_string(v.stadium).len() + ",\"date\":"@.len()
                + ser_date(v.date).len(),
        ),
        p_run_list(
            s,
            b + ",\"stadium\":"@.len() + ser_string(v.stadium).len() + ",\"date\":"@.len()
                + ser_date(v.date).len() + ",\"runs\":"@.len(),
        ) == Option::Some(
            (
                v.runs,
                b + ",\"stadium\":"@.len() + ser_string(v.stadium).len()
                    + ",\"date\":"@.len() + ser_date(v.date).len() + ",\"runs\":"@.len()
                    + ser_run_list(v.runs).len(),
            ),
        ),
        ({
            let e = b + ",\"stadium\":"@.len() + ser_string(v.stadium).len()
                + ",\"date\":"@.len() + ser_date(v.date).len() + ",\"runs\":"@.len()
                + ser_run_list(v.runs).len();
            ws_end(s, e) == e && e < s.len() && s[e] == '}'
        }),
{
    reveal_strlit(",\"stadium\":");
    reveal_strlit(",\"date\":");
    reveal_strlit(",\"runs\":");
    reveal_strlit("}");
    let lc = ",\"stadium\":"@;
    let ld = ",\"date\":"@;
    let le = ",\"runs\":"@;
    let f3 = ser_string(v.stadium);
    let f4 = ser_date(v.date);
    let f5 = ser_run_list(v.runs);
    lemma_occurs_concat(s, lc + f3 + ld + f4 + le + f5, "}"@, b);
    lemma_occurs_concat(s, lc + f3 + ld + f4 + le, f5, b);
    lemma_occurs_concat(s, lc + f3 + ld + f4, le, b);
    lemma_occurs_concat(s, lc + f3 + ld, f4, b);
    lemma_occurs_concat(s, lc + f3, ld, b);
    lemma_occurs_concat(s, lc, f3, b);
    lemma_occurs_head(s, lc, b);
    assert(ws_end(s, b) == b);
    lemma_occurs_lit(s, lc, b);
    let i3 = b + lc.len();
    lemma_occurs_head(s, f3, i3);
    assert(s[i3] == '"');
    assert(ws_end(s, i3) == i3);
    lemma_p_string_ser(v.stadium, s, i3);
    let j3 = i3 + f3.len();
    lemma_occurs_head(s, ld, j3);
    assert(ws_end(s, j3) == j3);
    lemma_occurs_lit(s, ld, j3);
    let i4 = j3 + ld.len();
    lemma_p_date_ser(v.date, s, i4);
    let j4 = i4 + f4.len();
    lemma_occurs_head(s, le, j4);
    assert(ws_end(s, j4) == j4);
    lemma_occurs_lit(s, le, j4);
    let i5 = j4 + le.len();
    lemma_p_run_list_ser(v.runs, s, i5);
    let j5 = i5 + f5.len();
    lemma_occurs_head(s, "}"@, j5);
    assert(s[j5] == '}');
    assert(ws_end(s, j5) == j5);
}

proof fn lemma_ser_game_split(v: crate::game::GameInfoV)
    ensures
        ser_game(v) =~= ("{\"team1\":"@ + ser_team(v.team1) + ",\"team2\":"@ + ser_team(
            v.team2,
        )) + (",\"stadium\":"@ + ser_string(v.stadium) + ",\"date\":"@ + ser_date(v.date)
            + ",\"runs\":"@ + ser_run_list(v.runs) + "}"@),
{
    reveal(ser_game);
}

proof fn lemma_p_game_assemble(v: crate::game::GameInfoV, s: Seq<char>, i: int, b: int, e: int)
    requires
        b == i + "{\"team1\":"@.len() + ser_team(v.team1).len() + ",\"team2\":"@.len()
            + ser_team(v.team2).len(),
        e == b + ",\"stadium\":"@.len() + ser_string(v.stadium).len() + ",\"date\":"@.len()
            + ser_date(v.date).len() + ",\"runs\":"@.len() + ser_run_list(v.runs).len(),
        ws_end(s, i) == i,
        lit_at(s, "{\"team1\":"@, i),
        p_team(s, i + "{\"team1\":"@.len()) == Option::Some(
            (v.team1, i + "{\"team1\":"@.len() + ser_team(v.team1).len()),
        ),
        ws_end(s, i + "{\"team1\":"@.len() + ser_team(v.team1).len()) == i
            + "{\"team1\":"@.len() + ser_team(v.team1).len(),
        lit_at(s, ",\"team2\":"@, i + "{\"team1\":"@.len() + ser_team(v.team1).len()),
        p_team(
            s,
            i + "{\"team1\":"@.len() + ser_team(v.team1).len() + ",\"team2\":"@.len(),
        ) == Option::Some((v.team2, b)),
        ws_end(s, b) == b,
        lit_at(s, ",\"stadium\":"@, b),
        p_string(s, ws_end(s, b + ",\"stadium\":"@.len())) == Option::Some(
            (v.stadium, b + ",\"stadium\":"@.len() + ser_string(v.stadium).len()),
        ),
        ws_end(s, b + ",\"stadium\":"@.len() + ser_string(v.stadium).len()) == b
            + ",\"stadium\":"@.len() + ser_string(v.stadium).len(),
        lit_at(
            s,
            ",\"date\":"@,
            b + ",\"stadium\":"@.len() + ser_string(v.stadium).len(),
        ),
        p_date(
            s,
            b + ",\"stadium\":"@.len() + ser_string(v.stadium).len() + ",\"date\":"@.len(),
        ) == Option::Some(
            (
                v.date,
                b + ",\"stadium\":"@.len() + ser_string(v.stadium).len()
                    + ",\"date\":"@.len() + ser_date(v.date).len(),
            ),
        ),
        ws_end(
            s,
            b + ",\"stadium\":"@.len() + ser_string(v.stadium).len() + ",\"date\":"@.len()
                + ser_date(v.date).len(),
        ) == b + ",\"stadium\":"@.len() + ser_string(v.stadium).len() + ",\"date\":"@.len()
            + ser_date(v.date).len(),
        lit_at(
            s,
            ",\"runs\":"@,
            b + ",\"stadium\":"@.len() + ser_string(v.stadium).len() + ",\"date\":"@.len()
                + ser_date(v.date).len(),
        ),
        p_run_list(
            s,
            b + ",\"stadium\":"@.len() + ser_string(v.stadium).len() + ",\"date\":"@.len()
                + ser_date(v.date).len() + ",\"runs\":"@.len(),
        ) == Option::Some((v.runs, e)),
        ws_end(s, e) == e,
        e < s.len(),
        s[e] == '}',
    ensures
        p_game(s, i) == Option::Some((v, e + 1)),
{
}

#[verifier::rlimit(100)]
proof fn lemma_p_game_ser(v: crate::game::GameInfoV, s: Seq<char>, i: int)
    requires
        occurs_at(s, ser_game(v), i),
    ensures
        p_game(s, i) == Option::Some((v, i + ser_game(v).len())),
        ser_game(v).len() > 0,
        s[i] == '{',
{
    let la = "{\"team1\":"@;
    let lb = ",\"team2\":"@;
    let f1 = ser_team(v.team1);
    let f2 = ser_team(v.team2);
    let front = la + f1 + lb + f2;
    let back = ",\"stadium\":"@ + ser_string(v.stadium) + ",\"date\":"@ + ser_date(v.date)
        + ",\"runs\":"@ + ser_run_list(v.runs) + "}"@;
    lemma_ser_game_split(v);
    lemma_occurs_concat(s, front, back, i);
    lemma_p_game_front(v, s, i);
    let b = i + front.len();
    lemma_p_game_back(v, s, b);
    let e = b + ",\"stadium\":"@.len() + ser_string(v.stadium).len() + ",\"date\":"@.len()
        + ser_date(v.date).len() + ",\"runs\":"@.len() + ser_run_list(v.runs).len();
    lemma_p_game_assemble(v, s, i, b, e);
    reveal_strlit("{\"team1\":");
    reveal_strlit("}");
    assert(ser_game(v).len() == front.len() + back.len());
    assert(back.len() == ",\"stadium\":"@.len() + ser_string(v.stadium).len()
        + ",\"date\":"@.len() + ser_date(v.date).len() + ",\"runs\":"@.len()
        + ser_run_list(v.runs).len() + 1);
    lemma_occurs_head(s, front, i);
    assert(front[0] == '{');
}

/// Appends the serialized form of a whole match record.
#[verifier::rlimit(100)]
pub fn write_game(out: &mut Vec<char>, v: &crate::game::GameInfo)
    ensures
        final(out)@ == old(out)@ + ser_game(v@),
{
    push_lit(out, "{\"team1\":");
    write_team(out, &v.team1);
    push_lit(out, ",\"team2\":");
    write_team(out, &v.team2);
    push_lit(out, ",\"stadium\":");
    let st = chars_vec(v.stadium.as_str());
    push_string(out, &st);
    push_lit(out, ",\"date\":");
    write_date(out, &v.date);
    push_lit(out, ",\"runs\":");
    write_run_list(out, &v.runs);
    push_lit(out, "}");
    proof {
        reveal(ser_game);
        assert(out@ =~= old(out)@ + ser_game(v@));
    }
}

/// Executable reader for a whole match record.
pub fn parse_game_obj(s: &Vec<char>, i: usize) -> (r: Option<(crate::game::GameInfo, usize)>)
    requires
        i <= s@.len(),
    ensures
        match r {
            Option::Some((v, j)) => p_game(s@, i as int) == Option::Some((v@, j as int)) && i < j
                <= s@.len(),
            Option::None => p_game(s@, i as int) is None,
        },
{
    let n = s.len();
    let i0 = skip_ws(s, i);
    let c1 = match expect_lit(s, i0, "{\"team1\":") {
        Some(x) => x,
        None => {
            return None;
        },
    };
    let (t1, j1) = match parse_team_obj(s, c1) {
        Some(x) => x,
        None => {
            return None;
        },
    };
    let k1 = skip_ws(s, j1);
    let c2 = match expect_lit(s, k1, ",\"team2\":") {
        Some(x) => x,
        None => {
            return None;
        },
    };
    let (t2, j2) = match parse_team_obj(s, c2) {
        Some(x) => x,
        None => {
            return None;
        },
    };
    let k2 = skip_ws(s, j2);
    let c3 = match expect_lit(s, k2, ",\"stadium\":") {
        Some(x) => x,
        None => {
            return None;
        },
    };
    let (st, j3) = match parse_string(s, skip_ws(s, c3)) {
        Some(x) => x,
        None => {
            return None;
        },
    };
    let k3 = skip_ws(s, j3);
    let c4 = match expect_lit(s, k3, ",\"date\":") {
        Some(x) => x,
        None => {
            return None;
        },
    };
    let (dt, j4) = match parse_date_field(s, c4) {
        Some(x) => x,
        None => {
            return None;
        },
    };
    let k4 = skip_ws(s, j4);
    let c5 = match expect_lit(s, k4, ",\"runs\":") {
        Some(x) => x,
        None => {
            return None;
        },
    };
    let (rs, j5) = match parse_run_list(s, c5) {
        Some(x) => x,
        None => {
            return None;
        },
    };
    let k5 = skip_ws(s, j5);
    if !(k5 < n && s[k5] == '}') {
        return None;
    }
    let v = crate::game::GameInfo {
        team1: t1,
        team2: t2,
        stadium: string_from_chars(&st),
        date: dt,
        runs: rs,
    };
    Some((v, k5 + 1))
}


/// The output artifact: each record's serialized form, written
/// back-to-back with no separator.
pub open spec fn ser_stream(gs: Seq<crate::game::GameInfoV>) -> Seq<char>
    decreases gs.len(),
{
    if gs.len() == 0 {
        Seq::empty()
    } else {
        ser_game(gs[0]) + ser_stream(gs.drop_first())
    }
}

/// Reads a whole artifact: match records until, after possible
/// whitespace, the text ends.  Anything else is a malformed
/// artifact.
pub open spec fn p_stream(s: Seq<char>, i: int) -> Option<Seq<crate::game::GameInfoV>>
    decreases s.len() - i,
    via p_stream_decreases
{
    if ws_end(s, i) == s.len() {
        Option::Some(Seq::empty())
    } else {
        match p_game(s, i) {
            Option::None => Option::None,
            Option::Some((g, j)) => if i < j <= s.len() {
                match p_stream(s, j) {
                    Option::None => Option::None,
                    Option::Some(l) => Option::Some(seq![g] + l),
                }
            } else {
                Option::None
            },
        }
    }
}

#[via_fn]
proof fn p_stream_decreases(s: Seq<char>, i: int) {
}

#[verifier::rlimit(100)]
proof fn lemma_p_stream_ser(gs: Seq<crate::game::GameInfoV>, s: Seq<char>, i: int)
    requires
        occurs_at(s, ser_stream(gs), i),
        i + ser_stream(gs).len() == s.len(),
    ensures
        p_stream(s, i) == Option::Some(gs),
    decreases gs.len(),
{
    if gs.len() == 0 {
        assert(i == s.len());
        assert(ws_end(s, i) == i);
    } else {
        let f = ser_game(gs[0]);
        let t = ser_stream(gs.drop_first());
        lemma_occurs_concat(s, f, t, i);
        lemma_p_game_ser(gs[0], s, i);
        assert(ws_end(s, i) == i);
        assert(ws_end(s, i) != s.len());
        let j = i + f.len();
        lemma_p_stream_ser(gs.drop_first(), s, j);
        assert(seq![gs[0]] + gs.drop_first() =~= gs);
    }
}

/// Writing any sequence of records and reading the text back gives
/// the records again: the artifact format loses nothing.
pub proof fn lemma_stream_round_trip(gs: Seq<crate::game::GameInfoV>)
    ensures
        p_stream(ser_stream(gs), 0) == Option::Some(gs),
{
    let s = ser_stream(gs);
    assert(occurs_at(s, s, 0));
    lemma_p_stream_ser(gs, s, 0);
}

/// Reading a serialized record back gives the record: the reader
/// inverts the serializer on every record value.
pub proof fn lemma_game_round_trip(v: crate::game::GameInfoV)
    ensures
        p_game(ser_game(v), 0) == Option::Some((v, ser_game(v).len() as int)),
{
    let s = ser_game(v);
    assert(occurs_at(s, s, 0));
    lemma_p_game_ser(v, s, 0);
}

/// Serializes one match record as its JSON text.
pub fn serialize_game(g: &crate::game::GameInfo) -> (r: String)
    ensures
        r@ == ser_game(g@),
{
    let mut out: Vec<char> = Vec::new();
    write_game(&mut out, g);
    proof {
        assert(Seq::<char>::empty() + ser_game(g@) =~= ser_game(g@));
    }
    string_from_chars(&out)
}

/// Reads a whole artifact of back-to-back serialized records;
/// nothing for a malformed artifact.
pub fn parse_games(text: &str) -> (r: Option<Vec<crate::game::GameInfo>>)
    ensures
        match r {
            Option::Some(l) => p_stream(text@, 0) == Option::Some(
                l@.map_values(|g: crate::game::GameInfo| g@),
            ),
            Option::None => p_stream(text@, 0) is None,
        },
{
    let v = chars_vec(text);
    let n = v.len();
    let mut acc: Vec<crate::game::GameInfo> = Vec::new();
    let mut j: usize = 0;
    proof {
        assert(acc@.map_values(|g: crate::game::GameInfo| g@)
            =~= Seq::<crate::game::GameInfoV>::empty());
    }
    loop
        invariant
            j <= n == v@.len(),
            v@ == text@,
            (match p_stream(v@, j as int) {
                Option::Some(l) => p_stream(v@, 0) == Option::Some(
                    acc@.map_values(|g: crate::game::GameInfo| g@) + l,
                ),
                Option::None => p_stream(v@, 0) is None,
            }),
        decreases n - j,
    {
        let k = skip_ws(&v, j);
        if k == n {
            proof {
                let av = acc@.map_values(|g: crate::game::GameInfo| g@);
                assert(av + Seq::<crate::game::GameInfoV>::empty() =~= av);
            }
            return Some(acc);
        }
        let (g, j2) = match parse_game_obj(&v, j) {
            Some(x) => x,
            None => {
                return None;
            },
        };
        proof {
            let av = acc@.map_values(|g2: crate::game::GameInfo| g2@);
            let av2 = acc@.push(g).map_values(|g2: crate::game::GameInfo| g2@);
            assert(av2 =~= av.push(g@));
            if let Option::Some(l) = p_stream(v@, j2 as int) {
                assert(av + (seq![g@] + l) =~= av2 + l);
            }
        }
        acc.push(g);
        j = j2;
    }
}

} // verus!
