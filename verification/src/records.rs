//! The query-side record schema: a stored match as the serving API
//! hands it out, with its per-heat lines and per-rider score lines,
//! and the scraper's runtime configuration.

use vstd::prelude::*;

verus! {

use vstd::string::StringExecFns;
use vstd::seq_lib::group_to_multiset_ensures;
use vstd::multiset::{Multiset, group_multiset_axioms};
use crate::date::GameDate;
use crate::num::dec_rep;
use crate::result_code::PlayerResult;
use crate::text::string_from_chars;

/// One heat line of a stored match: its position, the optional
/// winning time, and one entry per rider.
#[derive(Debug, Clone, PartialEq, Eq)]
pub struct RunInfo {
    pub number: u8,
    pub time: Option<(u32, u16)>,
    pub player_scores: Vec<(i32, String, String)>,
}

/// The rendered time of a heat: seconds, a dot, hundredths and the
/// unit; empty when no time was recorded.
pub open spec fn time_string_of(t: Option<(u32, u16)>) -> Seq<char> {
    match t {
        Option::None => Seq::empty(),
        Option::Some((a, b)) => dec_rep(a as nat) + seq!['.'] + dec_rep(b as nat) + " s"@,
    }
}

impl RunInfo {
    /// Builds a heat line.
    pub fn new(number: u8, time: Option<(u32, u16)>, player_scores: Vec<(i32, String, String)>)
        -> (r: RunInfo)
        ensures
            r.number == number,
            r.time == time,
            r.player_scores == player_scores,
    {
        RunInfo { number, time, player_scores }
    }

    pub fn scores(&self) -> (r: &Vec<(i32, String, String)>)
        ensures
            r == &self.player_scores,
    {
        &self.player_scores
    }

    pub fn get_time(&self) -> (r: Option<(u32, u16)>)
        ensures
            r == self.time,
    {
        self.time
    }

    pub fn number(&self) -> (r: u8)
        ensures
            r == self.number,
    {
        self.number
    }

    /// Renders the heat's time, or the empty string when none was
    /// recorded.
    pub fn time_string(&self) -> (r: String)
        ensures
            r@ == time_string_of(self.time),
    {
        match self.time {
            None => {
                let v: Vec<char> = Vec::new();
                proof {
                    assert(v@ =~= time_string_of(self.time));
                }
                string_from_chars(&v)
            },
            Some((a, b)) => {
                let mut v = crate::num::fmt_u32(a);
                v.push('.');
                let w = crate::num::fmt_u32(b as u32);
                crate::json::push_chars(&mut v, &w);
                crate::json::push_lit(&mut v, " s");
                proof {
                    assert(v@ =~= time_string_of(self.time));
                }
                string_from_chars(&v)
            },
        }
    }
}

/// One rider's per-round score line of a stored match, rounds in
/// ascending order.
#[derive(Debug, Clone, PartialEq, Eq)]
pub struct Player {
    pub name: String,
    pub surname: String,
    pub scores: Vec<(u8, PlayerResult)>,
}

/// Round entries in ascending round order.
pub open spec fn rounds_sorted(s: Seq<(u8, PlayerResult)>) -> bool {
    forall|i: int, j: int| 0 <= i < j < s.len() ==> (#[trigger] s[i]).0 <= (#[trigger] s[j]).0
}

impl Player {
    /// Builds a rider's score line, putting the rounds in ascending
    /// order.
    pub fn new(name: String, surname: String, scores: Vec<(u8, PlayerResult)>) -> (r: Player)
        ensures
            r.name@ == name@,
            r.surname@ == surname@,
            rounds_sorted(r.scores@),
            r.scores@.to_multiset() == scores@.to_multiset(),
    {
        let sorted = sort_rounds(scores);
        Player { name, surname, scores: sorted }
    }
}

/// Sorts round entries by round, keeping exactly the given entries.
fn sort_rounds(scores: Vec<(u8, PlayerResult)>) -> (r: Vec<(u8, PlayerResult)>)
    ensures
        rounds_sorted(r@),
        r@.to_multiset() == scores@.to_multiset(),
{
    broadcast use group_to_multiset_ensures, group_multiset_axioms;

    let mut rest = scores;
    let mut out: Vec<(u8, PlayerResult)> = Vec::new();
    let ghost whole = rest@.to_multiset();
    proof {
        assert(out@.to_multiset().add(rest@.to_multiset()) =~= whole);
    }
    while rest.len() > 0
        invariant
            out@.to_multiset().add(rest@.to_multiset()) == whole,
            rounds_sorted(out@),
            forall|k: int, m: int|
                0 <= k < out@.len() && 0 <= m < rest@.len() ==> (#[trigger] out@[k]).0 <= (
                #[trigger] rest@[m]).0,
        decreases rest@.len(),
    {
        let n = rest.len();
        let mut mi: usize = 0;
        let mut j: usize = 1;
        while j < n
            invariant
                mi < j <= n == rest@.len(),
                forall|k: int| 0 <= k < j ==> (#[trigger] rest@[k]).0 >= rest@[mi as int].0,
            decreases n - j,
        {
            if rest[j].0 < rest[mi].0 {
                mi = j;
            }
            j = j + 1;
        }
        let ghost old_out = out@;
        let ghost old_rest = rest@;
        let x = rest.remove(mi);
        out.push(x);
        proof {
            assert(x == old_rest[mi as int]);
            assert(out@ =~= old_out.push(x));
            vstd::seq_lib::to_multiset_build(old_out, x);
            assert(rest@ =~= old_rest.remove(mi as int));
            vstd::seq_lib::to_multiset_remove(old_rest, mi as int);
            vstd::seq_lib::to_multiset_contains(old_rest, x);
            assert(old_rest.contains(x));
            assert(old_rest.to_multiset().count(x) > 0);
            assert(out@.to_multiset().add(rest@.to_multiset()) =~= old_out.to_multiset().add(
                old_rest.to_multiset(),
            ));
            assert(forall|m: int|
                0 <= m < rest@.len() ==> (#[trigger] rest@[m]) == (if m < mi {
                    old_rest[m]
                } else {
                    old_rest[m + 1]
                }));
        }
    }
    proof {
        assert(rest@.to_multiset() =~= Multiset::<(u8, PlayerResult)>::empty());
        assert(out@.to_multiset().add(Multiset::<(u8, PlayerResult)>::empty())
            =~= out@.to_multiset());
    }
    out
}

/// A stored match as the serving side reads it: both team names and
/// scores, venue and date, the heat lines, and the riders' score
/// lines.
#[derive(Debug, Clone, PartialEq, Eq)]
pub struct MatchResult {
    pub team_1: String,
    pub team_2: String,
    pub score_1: u32,
    pub score_2: u32,
    pub date: GameDate,
    pub place: String,
    pub runs: Vec<RunInfo>,
    pub player_results: Vec<Player>,
}

/// Heat lines in ascending position order.
pub open spec fn runs_sorted(s: Seq<RunInfo>) -> bool {
    forall|i: int, j: int| 0 <= i < j < s.len() ==> (#[trigger] s[i]).number <= (
    #[trigger] s[j]).number
}

impl MatchResult {
    /// Builds a stored match.
    pub fn new(
        team_1: String,
        team_2: String,
        score_1: u32,
        score_2: u32,
        place: String,
        date: GameDate,
        runs: Vec<RunInfo>,
        player_results: Vec<Player>,
    ) -> (r: MatchResult)
        ensures
            r.team_1@ == team_1@,
            r.team_2@ == team_2@,
            r.score_1 == score_1,
            r.score_2 == score_2,
            r.place@ == place@,
            r.date == date,
            r.runs == runs,
            r.player_results == player_results,
    {
        MatchResult { team_1, team_2, score_1, score_2, date, place, runs, player_results }
    }

    pub fn first_team_name(&self) -> (r: &str)
        ensures
            r@ == self.team_1@,
    {
        self.team_1.as_str()
    }

    pub fn second_team_name(&self) -> (r: &str)
        ensures
            r@ == self.team_2@,
    {
        self.team_2.as_str()
    }

    pub fn first_team_score(&self) -> (r: u32)
        ensures
            r == self.score_1,
    {
        self.score_1
    }

    pub fn second_team_score(&self) -> (r: u32)
        ensures
            r == self.score_2,
    {
        self.score_2
    }

    pub fn runs(&self) -> (r: &Vec<RunInfo>)
        ensures
            r == &self.runs,
    {
        &self.runs
    }

    /// Puts the heat lines in ascending position order, keeping
    /// exactly the same lines.
    pub fn sort_runs(&mut self)
        ensures
            runs_sorted(final(self).runs@),
            final(self).runs@.to_multiset() == old(self).runs@.to_multiset(),
            final(self).team_1 == old(self).team_1,
            final(self).team_2 == old(self).team_2,
            final(self).score_1 == old(self).score_1,
            final(self).score_2 == old(self).score_2,
            final(self).date == old(self).date,
            final(self).place == old(self).place,
            final(self).player_results == old(self).player_results,
    {
        broadcast use group_to_multiset_ensures, group_multiset_axioms;

        let mut out: Vec<RunInfo> = Vec::new();
        let ghost whole = self.runs@.to_multiset();
        proof {
            assert(out@.to_multiset().add(self.runs@.to_multiset()) =~= whole);
        }
        while self.runs.len() > 0
            invariant
                out@.to_multiset().add(self.runs@.to_multiset()) == whole,
                whole == old(self).runs@.to_multiset(),
                runs_sorted(out@),
                forall|k: int, m: int|
                    0 <= k < out@.len() && 0 <= m < self.runs@.len() ==> (
                    #[trigger] out@[k]).number <= (#[trigger] self.runs@[m]).number,
                self.team_1 == old(self).team_1,
                self.team_2 == old(self).team_2,
                self.score_1 == old(self).score_1,
                self.score_2 == old(self).score_2,
                self.date == old(self).date,
                self.place == old(self).place,
                self.player_results == old(self).player_results,
            decreases self.runs@.len(),
        {
            let n = self.runs.len();
            let mut mi: usize = 0;
            let mut j: usize = 1;
            while j < n
                invariant
                    mi < j <= n == self.runs@.len(),
                    forall|k: int|
                        0 <= k < j ==> (#[trigger] self.runs@[k]).number
                            >= self.runs@[mi as int].number,
                decreases n - j,
            {
                if self.runs[j].number < self.runs[mi].number {
                    mi = j;
                }
                j = j + 1;
            }
            let ghost old_out = out@;
            let ghost old_rest = self.runs@;
            let x = self.runs.remove(mi);
            out.push(x);
            proof {
                assert(x == old_rest[mi as int]);
                assert(out@ =~= old_out.push(x));
                vstd::seq_lib::to_multiset_build(old_out, x);
                assert(self.runs@ =~= old_rest.remove(mi as int));
                vstd::seq_lib::to_multiset_remove(old_rest, mi as int);
                vstd::seq_lib::to_multiset_contains(old_rest, x);
                assert(old_rest.contains(x));
                assert(old_rest.to_multiset().count(x) > 0);
                assert(out@.to_multiset().add(self.runs@.to_multiset())
                    =~= old_out.to_multiset().add(old_rest.to_multiset()));
                assert(forall|m: int|
                    0 <= m < self.runs@.len() ==> (#[trigger] self.runs@[m]) == (if m < mi {
                        old_rest[m]
                    } else {
                        old_rest[m + 1]
                    }));
            }
        }
        proof {
            assert(self.runs@.to_multiset() =~= Multiset::<RunInfo>::empty());
            assert(out@.to_multiset().add(Multiset::<RunInfo>::empty()) =~= out@.to_multiset());
        }
        self.runs = out;
    }
}

/// The scraper's runtime configuration: worker count, output path,
/// and the minimum spacing between request starts, in milliseconds.
#[derive(Debug, Clone, PartialEq, Eq)]
pub struct ProgramConfig {
    pub concurrency: usize,
    pub output_file: String,
    pub tick_interval: u64,
}

impl ProgramConfig {
    /// Builds a configuration.
    pub fn new(concurrency: usize, output_file: String, tick_interval: u64) -> (r: ProgramConfig)
        ensures
            r.concurrency == concurrency,
            r.output_file@ == output_file@,
            r.tick_interval == tick_interval,
    {
        ProgramConfig { concurrency, output_file, tick_interval }
    }

    /// The number of workers that fetch match pages.
    pub fn concurrency(&self) -> (r: usize)
        ensures
            r == self.concurrency,
    {
        self.concurrency
    }

    /// The path of the output artifact.
    pub fn output_file(&self) -> (r: String)
        ensures
            r@ == self.output_file@,
    {
        self.output_file.clone()
    }

    /// The minimum spacing between request starts, in milliseconds.
    pub fn tick_interval(&self) -> (r: u64)
        ensures
            r == self.tick_interval,
    {
        self.tick_interval
    }
}

} // verus!
