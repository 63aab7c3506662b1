//! The coded outcome of one competitor in one heat, and the grammar
//! of the raw result codes found on a match page.

use vstd::prelude::*;

verus! {

use vstd::string::StringExecFns;
use crate::num::{all_digits, dec_rep, digits_val, parse_u8_range};
use crate::text::{chars_vec, string_from_chars, trim_range, trimmed};

/// Coded outcome of one competitor in one heat.
///
/// `NoScore` stands for an empty cell: the competitor has no recorded
/// outcome for the heat.
#[derive(Debug, Clone, Copy, PartialEq, Eq, Structural)]
pub enum PlayerResult {
    Score(u8),
    ScoreWithStar(u8),
    Fall,
    Reserve,
    Resign,
    Tape,
    NotFinished,
    NoScore,
}

/// The result-code grammar.  An empty code is an empty cell; `-` a
/// reserve; `u`, `U` and `w` a fall; `d` a resignation; a digit run
/// is a point score, with a single trailing `*` marking a bonus
/// point.  Everything else fails to decode.
pub open spec fn code_value(s: Seq<char>) -> Option<PlayerResult> {
    if s.len() == 0 {
        Option::Some(PlayerResult::NoScore)
    } else if s.len() == 1 && s[0] == '-' {
        Option::Some(PlayerResult::Reserve)
    } else if s.len() == 1 && (s[0] == 'u' || s[0] == 'U' || s[0] == 'w') {
        Option::Some(PlayerResult::Fall)
    } else if s.len() == 1 && s[0] == 'd' {
        Option::Some(PlayerResult::Resign)
    } else if s.last() == '*' {
        if s.len() >= 2 && all_digits(s.drop_last()) && digits_val(s.drop_last()) <= u8::MAX {
            Option::Some(PlayerResult::ScoreWithStar(digits_val(s.drop_last()) as u8))
        } else {
            Option::None
        }
    } else if all_digits(s) && digits_val(s) <= u8::MAX {
        Option::Some(PlayerResult::Score(digits_val(s) as u8))
    } else {
        Option::None
    }
}

/// Pretty, human-readable form of an outcome.
pub open spec fn pretty_of(p: PlayerResult) -> Seq<char> {
    match p {
        PlayerResult::Score(n) => dec_rep(n as nat),
        PlayerResult::ScoreWithStar(n) => dec_rep(n as nat).push('*'),
        PlayerResult::Fall => "Upadek"@,
        PlayerResult::Reserve => "Rezerwa"@,
        PlayerResult::Resign => "Defekt"@,
        PlayerResult::Tape => "Taśma"@,
        PlayerResult::NotFinished => "Nie ukończono"@,
        PlayerResult::NoScore => "Brak wyniku?"@,
    }
}

impl PlayerResult {
    /// Decodes a raw result code, ignoring surrounding whitespace.
    /// Returns exactly what the result-code grammar assigns to the
    /// trimmed code, and nothing for any other string.
    pub fn parse(text: &str) -> (r: Option<PlayerResult>)
        ensures
            r == code_value(trimmed(text@)),
    {
        let v = chars_vec(text);
        let (a, b) = trim_range(&v);
        let ghost t = trimmed(text@);
        proof {
            assert(t =~= v@.subrange(a as int, b as int));
        }
        if a == b {
            return Some(PlayerResult::NoScore);
        }
        let len = b - a;
        if len == 1 {
            let c = v[a];
            proof {
                assert(t[0] == v@[a as int]);
            }
            if c == '-' {
                return Some(PlayerResult::Reserve);
            }
            if c == 'u' || c == 'U' || c == 'w' {
                return Some(PlayerResult::Fall);
            }
            if c == 'd' {
                return Some(PlayerResult::Resign);
            }
        }
        let last = v[b - 1];
        proof {
            assert(t.last() == v@[b - 1]);
        }
        if last == '*' {
            proof {
                assert(t.drop_last() =~= v@.subrange(a as int, b - 1));
            }
            match parse_u8_range(&v, a, b - 1) {
                Some(n) => Some(PlayerResult::ScoreWithStar(n)),
                None => None,
            }
        } else {
            match parse_u8_range(&v, a, b) {
                Some(n) => {
                    proof {
                        assert(t =~= v@.subrange(a as int, b as int));
                    }
                    Some(PlayerResult::Score(n))
                },
                None => None,
            }
        }
    }

    /// Pretty, human-readable form of the outcome.
    pub fn to_pretty(&self) -> (r: String)
        ensures
            r@ == pretty_of(*self),
    {
        match self {
            PlayerResult::Score(n) => {
                let v = crate::num::fmt_u32(*n as u32);
                string_from_chars(&v)
            },
            PlayerResult::ScoreWithStar(n) => {
                let mut v = crate::num::fmt_u32(*n as u32);
                v.push('*');
                string_from_chars(&v)
            },
            PlayerResult::Fall => String::from_str("Upadek"),
            PlayerResult::Reserve => String::from_str("Rezerwa"),
            PlayerResult::Resign => String::from_str("Defekt"),
            PlayerResult::Tape => String::from_str("Taśma"),
            PlayerResult::NotFinished => String::from_str("Nie ukończono"),
            PlayerResult::NoScore => String::from_str("Brak wyniku?"),
        }
    }
}

} // verus!
