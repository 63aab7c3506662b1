//! The canonical match record handed from the scraper to the loader:
//! players, teams, runs and the whole game, together with the
//! character-level grammars of the fields read off a match page.

use vstd::prelude::*;

verus! {

use crate::date::GameDate;
use crate::num::{
    all_digits,
    is_digit,
    digit_run,
    digits_val,
    nondigit_run,
    lemma_digit_run_is,
    parse_u8_range,
    parse_u16_range,
    parse_u32_range,
    scan_digits,
    scan_nondigits,
};
use crate::result_code::PlayerResult;
use crate::text::{
    chars_vec,
    contains_lit,
    contains_seq,
    range_eq_lit,
    string_from_chars,
    split_spaces,
    trim_range,
    trimmed,
    ws_tokens,
};
use crate::text::prefix_to;

/// Marker colour worn by a competitor in a heat.
#[derive(Debug, Clone, Copy, PartialEq, Eq, Structural)]
pub enum Helmet {
    Red,
    Yellow,
    Blue,
    White,
}

/// The helmet grammar: the first of the four colour names that
/// occurs in the text wins, searched in this order.
pub open spec fn helmet_of(s: Seq<char>) -> Option<Helmet> {
    if contains_seq(s, "red"@) {
        Option::Some(Helmet::Red)
    } else if contains_seq(s, "blue"@) {
        Option::Some(Helmet::Blue)
    } else if contains_seq(s, "yellow"@) {
        Option::Some(Helmet::Yellow)
    } else if contains_seq(s, "white"@) {
        Option::Some(Helmet::White)
    } else {
        Option::None
    }
}

impl Helmet {
    /// Reads a marker colour out of an element's class text.
    pub fn try_parsing(text: &str) -> (r: Option<Helmet>)
        ensures
            r == helmet_of(text@),
    {
        let v = chars_vec(text);
        if contains_lit(&v, "red") {
            Some(Helmet::Red)
        } else if contains_lit(&v, "blue") {
            Some(Helmet::Blue)
        } else if contains_lit(&v, "yellow") {
            Some(Helmet::Yellow)
        } else if contains_lit(&v, "white") {
            Some(Helmet::White)
        } else {
            None
        }
    }
}

/// Points a single coded outcome is worth.
pub open spec fn points_of(p: PlayerResult) -> nat {
    match p {
        PlayerResult::Score(n) => n as nat,
        PlayerResult::ScoreWithStar(n) => n as nat,
        _ => 0,
    }
}

/// One bonus point per starred score.
pub open spec fn bonus_of(p: PlayerResult) -> nat {
    match p {
        PlayerResult::ScoreWithStar(_) => 1,
        _ => 0,
    }
}

/// Base points of a score line.
pub open spec fn base_points(scores: Seq<PlayerResult>) -> nat
    decreases scores.len(),
{
    if scores.len() == 0 {
        0
    } else {
        base_points(scores.drop_last()) + points_of(scores.last())
    }
}

/// Bonus points of a score line.
pub open spec fn bonus_points(scores: Seq<PlayerResult>) -> nat
    decreases scores.len(),
{
    if scores.len() == 0 {
        0
    } else {
        bonus_points(scores.drop_last()) + bonus_of(scores.last())
    }
}

pub proof fn lemma_base_points_prefix(scores: Seq<PlayerResult>, i: int)
    requires
        0 <= i <= scores.len(),
    ensures
        base_points(scores.take(i)) <= base_points(scores),
        bonus_points(scores.take(i)) <= bonus_points(scores),
    decreases scores.len() - i,
{
    if i == scores.len() {
        assert(scores.take(i) =~= scores);
    } else {
        lemma_base_points_prefix(scores, i + 1);
        assert(scores.take(i + 1).drop_last() =~= scores.take(i));
        assert(base_points(scores.take(i + 1)) == base_points(scores.take(i)) + points_of(
            scores[i],
        ));
        assert(bonus_points(scores.take(i + 1)) == bonus_points(scores.take(i)) + bonus_of(
            scores[i],
        ));
    }
}

/// Mathematical image of a [`Player`].
pub ghost struct PlayerV {
    pub name: Seq<char>,
    pub surname: Seq<char>,
    pub number: u32,
    pub scores: Seq<PlayerResult>,
}

/// One rider of a team's line-up for a match: the name pair is the
/// durable natural key, `number` the shirt number, and `scores` the
/// coded outcome of each of the rider's starts.
#[derive(Debug, Clone, PartialEq, Eq)]
pub struct Player {
    pub name: String,
    pub surname: String,
    pub number: u32,
    pub scores: Vec<PlayerResult>,
}

impl View for Player {
    type V = PlayerV;

    open spec fn view(&self) -> PlayerV {
        PlayerV {
            name: self.name@,
            surname: self.surname@,
            number: self.number,
            scores: self.scores@,
        }
    }
}

/// Base and bonus points of one rider over a match.
#[derive(Debug, Clone, Copy, PartialEq, Eq, Structural)]
pub struct PlayerSumScore {
    pub base: u16,
    pub bonus: Option<u16>,
}

impl PlayerSumScore {
    pub fn new(base: u16, bonus: Option<u16>) -> (r: PlayerSumScore)
        ensures
            r == (PlayerSumScore { base, bonus }),
    {
        PlayerSumScore { base, bonus }
    }

    pub fn base(&self) -> (r: u16)
        ensures
            r == self.base,
    {
        self.base
    }

    pub fn bonus(&self) -> (r: Option<u16>)
        ensures
            r == self.bonus,
    {
        self.bonus
    }
}

impl Player {
    /// Builds a rider from already-parsed parts.
    pub fn new(name: String, surname: String, number: u32, scores: Vec<PlayerResult>) -> (r:
        Player)
        ensures
            r@ == (PlayerV { name: name@, surname: surname@, number, scores: scores@ }),
    {
        Player { name, surname, number, scores }
    }

    pub fn name(&self) -> (r: &str)
        ensures
            r@ == self@.name,
    {
        self.name.as_str()
    }

    pub fn surname(&self) -> (r: &str)
        ensures
            r@ == self@.surname,
    {
        self.surname.as_str()
    }

    pub fn number(&self) -> (r: u32)
        ensures
            r == self@.number,
    {
        self.number
    }

    pub fn scores(&self) -> (r: &Vec<PlayerResult>)
        ensures
            r@ == self@.scores,
    {
        &self.scores
    }

    /// Sums the rider's base points, and counts one bonus point per
    /// starred score; the bonus is reported only when it is not
    /// zero.
    pub fn sum_score(&self) -> (r: PlayerSumScore)
        requires
            base_points(self@.scores) <= u16::MAX,
            bonus_points(self@.scores) <= u16::MAX,
        ensures
            r.base == base_points(self@.scores),
            r.bonus == if bonus_points(self@.scores) == 0 {
                Option::<u16>::None
            } else {
                Option::Some(bonus_points(self@.scores) as u16)
            },
    {
        let n = self.scores.len();
        let mut sum: u16 = 0;
        let mut bonus_sum: u16 = 0;
        let mut i: usize = 0;
        while i < n
            invariant
                i <= n == self@.scores.len(),
                base_points(self@.scores) <= u16::MAX,
                bonus_points(self@.scores) <= u16::MAX,
                sum == base_points(self@.scores.take(i as int)),
                bonus_sum == bonus_points(self@.scores.take(i as int)),
            decreases n - i,
        {
            proof {
                lemma_base_points_prefix(self@.scores, i + 1);
                assert(self@.scores.take(i + 1).drop_last() =~= self@.scores.take(i as int));
            }
            match self.scores[i] {
                PlayerResult::Score(s) => {
                    sum = sum + s as u16;
                },
                PlayerResult::ScoreWithStar(s) => {
                    sum = sum + s as u16;
                    bonus_sum = bonus_sum + 1;
                },
                _ => {},
            }
            i = i + 1;
        }
        proof {
            assert(self@.scores.take(n as int) =~= self@.scores);
        }
        if bonus_sum == 0 {
            PlayerSumScore::new(sum, None)
        } else {
            PlayerSumScore::new(sum, Some(bonus_sum))
        }
    }
}

/// Base points of a whole line-up.
pub open spec fn team_points(players: Seq<PlayerV>) -> nat
    decreases players.len(),
{
    if players.len() == 0 {
        0
    } else {
        team_points(players.drop_last()) + base_points(players.last().scores)
    }
}

pub proof fn lemma_team_points_prefix(players: Seq<PlayerV>, i: int)
    requires
        0 <= i <= players.len(),
    ensures
        team_points(players.take(i)) <= team_points(players),
    decreases players.len() - i,
{
    if i == players.len() {
        assert(players.take(i) =~= players);
    } else {
        lemma_team_points_prefix(players, i + 1);
        assert(players.take(i + 1).drop_last() =~= players.take(i));
        assert(team_points(players.take(i + 1)) == team_points(players.take(i)) + base_points(
            players[i].scores,
        ));
    }
}

/// Mathematical image of a [`Team`].
pub ghost struct TeamV {
    pub name: Seq<char>,
    pub points: u16,
    pub players: Seq<PlayerV>,
}

/// One side of a match: the team name is the durable natural key,
/// `points` the side's aggregate score.
#[derive(Debug, Clone, PartialEq, Eq)]
pub struct Team {
    pub name: String,
    pub points: u16,
    pub players: Vec<Player>,
}

impl View for Team {
    type V = TeamV;

    open spec fn view(&self) -> TeamV {
        TeamV {
            name: self.name@,
            points: self.points,
            players: self.players@.map_values(|p: Player| p@),
        }
    }
}

impl Team {
    /// Builds a side from already-parsed parts.
    pub fn new(name: String, points: u16, players: Vec<Player>) -> (r: Team)
        ensures
            r@ == (TeamV {
                name: name@,
                points,
                players: players@.map_values(|p: Player| p@),
            }),
    {
        Team { name, points, players }
    }

    pub fn name(&self) -> (r: &str)
        ensures
            r@ == self@.name,
    {
        self.name.as_str()
    }

    pub fn score(&self) -> (r: u16)
        ensures
            r == self@.points,
    {
        self.points
    }

    pub fn players(&self) -> (r: &Vec<Player>)
        ensures
            r@.map_values(|p: Player| p@) == self@.players,
    {
        &self.players
    }

    /// Sums the base points of a whole line-up.
    pub fn sum_score(players: &Vec<Player>) -> (r: u16)
        requires
            team_points(players@.map_values(|p: Player| p@)) <= u16::MAX,
            forall|i: int|
                0 <= i < players@.len() ==> bonus_points(#[trigger] players@[i]@.scores)
                    <= u16::MAX,
        ensures
            r == team_points(players@.map_values(|p: Player| p@)),
    {
        let ghost pv = players@.map_values(|p: Player| p@);
        let n = players.len();
        let mut sum: u16 = 0;
        let mut i: usize = 0;
        while i < n
            invariant
                i <= n == players@.len(),
                pv == players@.map_values(|p: Player| p@),
                team_points(pv) <= u16::MAX,
                forall|k: int|
                    0 <= k < players@.len() ==> bonus_points(#[trigger] players@[k]@.scores)
                        <= u16::MAX,
                sum == team_points(pv.take(i as int)),
            decreases n - i,
        {
            proof {
                lemma_team_points_prefix(pv, i + 1);
                assert(pv.take(i + 1).drop_last() =~= pv.take(i as int));
                assert(pv[i as int] == players@[i as int]@);
                lemma_base_points_prefix(players@[i as int]@.scores, 0);
            }
            let s = players[i].sum_score();
            sum = sum + s.base();
            i = i + 1;
        }
        proof {
            assert(pv.take(n as int) =~= pv);
        }
        sum
    }
}

/// Mathematical image of a [`PlayerRunScore`].
pub ghost struct PlayerRunScoreV {
    pub name: Seq<char>,
    pub score: PlayerResult,
    pub helmet: Option<Helmet>,
}

/// One competitor's entry in one heat: full name, coded outcome and
/// the marker colour, when one was shown.
#[derive(Debug, Clone, PartialEq, Eq)]
pub struct PlayerRunScore {
    pub name: String,
    pub score: PlayerResult,
    pub helmet: Option<Helmet>,
}

impl View for PlayerRunScore {
    type V = PlayerRunScoreV;

    open spec fn view(&self) -> PlayerRunScoreV {
        PlayerRunScoreV { name: self.name@, score: self.score, helmet: self.helmet }
    }
}

/// Splitting a trimmed full name at its first space.
pub open spec fn name_parts(s: Seq<char>) -> (Seq<char>, Seq<char>) {
    let t = trimmed(s);
    let k = prefix_to(t, ' ') as int;
    (t.take(k), t.skip(k + 1))
}

/// The trimmed full name holds a space, so it can be split into a
/// first and a last part.
pub open spec fn name_splittable(s: Seq<char>) -> bool {
    prefix_to(trimmed(s), ' ') < trimmed(s).len()
}

impl PlayerRunScore {
    /// Builds an entry from already-parsed parts.
    pub fn new(name: String, score: PlayerResult, helmet: Option<Helmet>) -> (r: PlayerRunScore)
        ensures
            r@ == (PlayerRunScoreV { name: name@, score, helmet }),
    {
        PlayerRunScore { name, score, helmet }
    }

    pub fn score(&self) -> (r: &PlayerResult)
        ensures
            r == self@.score,
    {
        &self.score
    }

    pub fn helmet(&self) -> (r: Option<Helmet>)
        ensures
            r == self@.helmet,
    {
        self.helmet
    }

    pub fn full_name(&self) -> (r: &str)
        ensures
            r@ == self@.name,
    {
        self.name.as_str()
    }

    /// The competitor's name split at the first space of its trimmed
    /// form: first name, then the rest.
    pub fn name(&self) -> (r: (String, String))
        requires
            name_splittable(self@.name),
        ensures
            r.0@ == name_parts(self@.name).0,
            r.1@ == name_parts(self@.name).1,
    {
        let v = chars_vec(self.name.as_str());
        let (a, b) = trim_range(&v);
        let ghost t = trimmed(self@.name);
        proof {
            assert(t =~= v@.subrange(a as int, b as int));
        }
        let mut j: usize = a;
        while j < b && v[j] != ' '
            invariant
                a <= j <= b <= v@.len(),
                forall|k: int| a <= k < j ==> v@[k] != ' ',
            decreases b - j,
        {
            j = j + 1;
        }
        proof {
            assert(forall|k: int| 0 <= k < j - a ==> t[k] != ' ');
            if j < b {
                assert(t[j - a] == v@[j as int]);
            }
            crate::text::lemma_prefix_to_run(t, ' ', j - a);
            assert(j < b);
        }
        let mut first: Vec<char> = Vec::new();
        let mut i: usize = a;
        while i < j
            invariant
                a <= i <= j <= v@.len(),
                first@ =~= v@.subrange(a as int, i as int),
            decreases j - i,
        {
            first.push(v[i]);
            i = i + 1;
        }
        let mut rest: Vec<char> = Vec::new();
        let mut i2: usize = j + 1;
        while i2 < b
            invariant
                j + 1 <= i2 <= b <= v@.len(),
                rest@ =~= v@.subrange((j + 1) as int, i2 as int),
            decreases b - i2,
        {
            rest.push(v[i2]);
            i2 = i2 + 1;
        }
        proof {
            assert(t.take(j - a) =~= v@.subrange(a as int, j as int));
            assert(t.skip(j - a + 1) =~= v@.subrange((j + 1) as int, b as int));
        }
        (string_from_chars(&first), string_from_chars(&rest))
    }
}

/// Mathematical image of a [`Run`].
pub ghost struct RunV {
    pub number: u8,
    pub time: Option<(u16, u8)>,
    pub player_score: Seq<PlayerRunScoreV>,
}

/// One heat of a match: its position, the winning time when one was
/// recorded (whole seconds and hundredths), and the four
/// competitors' entries.
#[derive(Debug, Clone, PartialEq, Eq)]
pub struct Run {
    pub number: u8,
    pub time: Option<(u16, u8)>,
    pub player_score: Vec<PlayerRunScore>,
}

impl View for Run {
    type V = RunV;

    open spec fn view(&self) -> RunV {
        RunV {
            number: self.number,
            time: self.time,
            player_score: self.player_score@.map_values(|p: PlayerRunScore| p@),
        }
    }
}

impl Run {
    /// Builds a heat from already-parsed parts.
    pub fn new(number: u8, time: Option<(u16, u8)>, player_score: Vec<PlayerRunScore>) -> (r: Run)
        ensures
            r@ == (RunV {
                number,
                time,
                player_score: player_score@.map_values(|p: PlayerRunScore| p@),
            }),
    {
        Run { number, time, player_score }
    }

    pub fn position(&self) -> (r: u8)
        ensures
            r == self@.number,
    {
        self.number
    }

    /// The recorded time as a pair of optional columns, the shape
    /// the relational store takes.
    pub fn time(&self) -> (r: (Option<i32>, Option<i32>))
        ensures
            match self@.time {
                Option::None => r == (Option::<i32>::None, Option::<i32>::None),
                Option::Some(t) => r == (Option::Some(t.0 as i32), Option::Some(t.1 as i32)),
            },
    {
        match self.time {
            None => (None, None),
            Some((int_part, dec_part)) => (Some(int_part as i32), Some(dec_part as i32)),
        }
    }

    pub fn get_time(&self) -> (r: Option<(u16, u8)>)
        ensures
            r == self@.time,
    {
        self.time
    }

    pub fn player_scores(&self) -> (r: &Vec<PlayerRunScore>)
        ensures
            r@.map_values(|p: PlayerRunScore| p@) == self@.player_score,
    {
        &self.player_score
    }
}

/// Mathematical image of a [`GameInfo`].
pub ghost struct GameInfoV {
    pub team1: TeamV,
    pub team2: TeamV,
    pub stadium: Seq<char>,
    pub date: GameDate,
    pub runs: Seq<RunV>,
}

/// The canonical unit of work handed from the scraper to the
/// loader: both sides, the venue, the date, and the fifteen heats.
#[derive(Debug, Clone, PartialEq, Eq)]
pub struct GameInfo {
    pub team1: Team,
    pub team2: Team,
    pub stadium: String,
    pub date: GameDate,
    pub runs: Vec<Run>,
}

impl View for GameInfo {
    type V = GameInfoV;

    open spec fn view(&self) -> GameInfoV {
        GameInfoV {
            team1: self.team1@,
            team2: self.team2@,
            stadium: self.stadium@,
            date: self.date,
            runs: self.runs@.map_values(|r: Run| r@),
        }
    }
}

impl GameInfo {
    /// Builds a record from already-parsed parts.
    pub fn new(team1: Team, team2: Team, stadium: String, date: GameDate, runs: Vec<Run>) -> (r:
        GameInfo)
        ensures
            r@ == (GameInfoV {
                team1: team1@,
                team2: team2@,
                stadium: stadium@,
                date,
                runs: runs@.map_values(|x: Run| x@),
            }),
    {
        GameInfo { team1, team2, stadium, date, runs }
    }

    pub fn team_one(&self) -> (r: &Team)
        ensures
            r@ == self@.team1,
    {
        &self.team1
    }

    pub fn team_two(&self) -> (r: &Team)
        ensures
            r@ == self@.team2,
    {
        &self.team2
    }

    pub fn place(&self) -> (r: &str)
        ensures
            r@ == self@.stadium,
    {
        self.stadium.as_str()
    }

    pub fn date(&self) -> (r: &GameDate)
        ensures
            r == self@.date,
    {
        &self.date
    }

    pub fn runs(&self) -> (r: &Vec<Run>)
        ensures
            r@.map_values(|x: Run| x@) == self@.runs,
    {
        &self.runs
    }
}

/// The run-time grammar.  An empty (trimmed) cell means no recorded
/// time; otherwise the cell must read `S sek.` or `S.F sek.` with
/// `S` a digit run fitting a `u16` and `F` one fitting a `u8`.
pub open spec fn run_time_value(s: Seq<char>) -> Option<Option<(u16, u8)>> {
    let t = trimmed(s);
    if t.len() == 0 {
        Option::Some(Option::<(u16, u8)>::None)
    } else {
        let j = digit_run(t) as int;
        if j == 0 {
            Option::None
        } else if digits_val(t.take(j)) > u16::MAX {
            Option::None
        } else {
            let secs = digits_val(t.take(j)) as u16;
            let rest = t.skip(j);
            if rest == " sek."@ {
                Option::Some(Option::Some((secs, 0u8)))
            } else if rest.len() > 0 && rest[0] == '.' {
                let r2 = rest.skip(1);
                let k = digit_run(r2) as int;
                if k == 0 {
                    Option::None
                } else if digits_val(r2.take(k)) > u8::MAX {
                    Option::None
                } else if r2.skip(k) == " sek."@ {
                    Option::Some(Option::Some((secs, digits_val(r2.take(k)) as u8)))
                } else {
                    Option::None
                }
            } else {
                Option::None
            }
        }
    }
}

/// Decodes a heat's time cell.  Returns exactly what the run-time
/// grammar assigns to the text, and nothing for any other string.
pub fn parse_time(text: &str) -> (r: Option<Option<(u16, u8)>>)
    ensures
        r == run_time_value(text@),
{
    let v = chars_vec(text);
    let (a, b) = trim_range(&v);
    let ghost t = trimmed(text@);
    proof {
        assert(t =~= v@.subrange(a as int, b as int));
    }
    if a == b {
        return Some(None);
    }
    let j = scan_digits(&v, a);
    proof {
        if j > b {
            assert(is_digit(v@[b as int]));
            assert(crate::text::is_space(v@[b as int]));
            assert(false);
        }
        assert(forall|k: int| 0 <= k < j - a ==> t[k] == v@[a + k]);
        assert(forall|k: int| 0 <= k < j - a ==> is_digit(#[trigger] t[k]));
        if j < b {
            assert(t[j - a] == v@[j as int]);
            assert(!is_digit(t[j - a]));
        }
        lemma_digit_run_is(t, j - a);
        assert(t.take(j - a) =~= v@.subrange(a as int, j as int));
    }
    if j == a {
        return None;
    }
    let secs = match parse_u16_range(&v, a, j) {
        None => {
            return None;
        },
        Some(x) => x,
    };
    proof {
        assert(t.skip(j - a) =~= v@.subrange(j as int, b as int));
    }
    if range_eq_lit(&v, j, b, " sek.") {
        return Some(Some((secs, 0)));
    }
    if j < b && v[j] == '.' {
        let ghost r2 = t.skip(j - a).skip(1);
        proof {
            assert(r2 =~= v@.subrange((j + 1) as int, b as int));
        }
        let j2 = scan_digits(&v, j + 1);
        proof {
            if j2 > b {
                assert(is_digit(v@[b as int]));
                assert(crate::text::is_space(v@[b as int]));
                assert(false);
            }
            assert(forall|k: int| 0 <= k < j2 - (j + 1) ==> r2[k] == v@[j + 1 + k]);
            assert(forall|k: int| 0 <= k < j2 - (j + 1) ==> is_digit(#[trigger] r2[k]));
            if j2 < b {
                assert(r2[j2 - (j + 1)] == v@[j2 as int]);
                assert(!is_digit(r2[j2 - (j + 1)]));
            }
            lemma_digit_run_is(r2, j2 - (j + 1));
            assert(r2.take(j2 - (j + 1)) =~= v@.subrange((j + 1) as int, j2 as int));
        }
        if j2 == j + 1 {
            return None;
        }
        let frac = match parse_u8_range(&v, j + 1, j2) {
            None => {
                return None;
            },
            Some(x) => x,
        };
        proof {
            assert(r2.skip(j2 - (j + 1)) =~= v@.subrange(j2 as int, b as int));
        }
        if range_eq_lit(&v, j2, b, " sek.") {
            return Some(Some((secs, frac)));
        }
        return None;
    }
    None
}

/// The headline-score grammar: the first digit run anywhere in the
/// text, then the next digit run after it, each fitting a `u32`.
pub open spec fn score_pair_value(s: Seq<char>) -> Option<(u32, u32)> {
    let i = nondigit_run(s) as int;
    let j = i + digit_run(s.skip(i)) as int;
    if j == i {
        Option::None
    } else {
        let k = j + nondigit_run(s.skip(j)) as int;
        let l = k + digit_run(s.skip(k)) as int;
        if l == k {
            Option::None
        } else if digits_val(s.subrange(i, j)) <= u32::MAX && digits_val(s.subrange(k, l))
            <= u32::MAX {
            Option::Some(
                (digits_val(s.subrange(i, j)) as u32, digits_val(s.subrange(k, l)) as u32),
            )
        } else {
            Option::None
        }
    }
}

/// Decodes the headline score of a match page.  Returns exactly
/// what the headline-score grammar assigns to the text, and nothing
/// for any other string.
#[verifier::rlimit(50)]
pub fn parse_score(text: &str) -> (r: Option<(u32, u32)>)
    ensures
        r == score_pair_value(text@),
{
    let v = chars_vec(text);
    let i = scan_nondigits(&v, 0);
    proof {
        assert(v@.skip(0) =~= v@);
    }
    let j = scan_digits(&v, i);
    if j == i {
        return None;
    }
    let k = scan_nondigits(&v, j);
    let l = scan_digits(&v, k);
    if l == k {
        return None;
    }
    let s1 = match parse_u32_range(&v, i, j) {
        None => {
            return None;
        },
        Some(x) => x,
    };
    let s2 = match parse_u32_range(&v, k, l) {
        None => {
            return None;
        },
        Some(x) => x,
    };
    Some((s1, s2))
}

/// The competitor-name grammar: the first two whitespace-separated
/// tokens, joined by a single space.
pub open spec fn name_value(s: Seq<char>) -> Option<Seq<char>> {
    let toks = ws_tokens(s);
    if toks.len() >= 2 {
        Option::Some(toks[0] + seq![' '] + toks[1])
    } else {
        Option::None
    }
}

/// Reads a competitor's name: the first two whitespace-separated
/// tokens of the text, joined by a single space; fails when the
/// text holds fewer than two tokens.
pub fn parse_name(text: &str) -> (r: Option<String>)
    ensures
        match r {
            Option::Some(x) => name_value(text@) == Option::Some(x@),
            Option::None => name_value(text@) is None,
        },
{
    let v = chars_vec(text);
    let toks = split_spaces(&v);
    if toks.len() < 2 {
        return None;
    }
    proof {
        assert(toks@[0].deep_view() == ws_tokens(text@)[0]);
        assert(toks@[1].deep_view() == ws_tokens(text@)[1]);
        assert(toks@[0].deep_view() =~= toks@[0]@);
        assert(toks@[1].deep_view() =~= toks@[1]@);
    }
    let t0 = &toks[0];
    let t1 = &toks[1];
    let mut out: Vec<char> = Vec::new();
    let n0 = t0.len();
    let mut i: usize = 0;
    while i < n0
        invariant
            i <= n0 == t0@.len(),
            out@ =~= t0@.take(i as int),
        decreases n0 - i,
    {
        out.push(t0[i]);
        i = i + 1;
    }
    out.push(' ');
    let n1 = t1.len();
    let mut i2: usize = 0;
    while i2 < n1
        invariant
            i2 <= n1 == t1@.len(),
            out@ =~= t0@ + seq![' '] + t1@.take(i2 as int),
        decreases n1 - i2,
    {
        out.push(t1[i2]);
        i2 = i2 + 1;
    }
    proof {
        assert(out@ =~= t0@ + seq![' '] + t1@);
    }
    Some(string_from_chars(&out))
}

} // verus!
