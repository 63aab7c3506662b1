//! Extraction of a match page: line-ups, heats, venue and date are
//! read out of the page's markup through fixed structural selectors
//! and decoded by the field grammars.

use vstd::prelude::*;

verus! {

use crate::game::{GameInfo, GameInfoV, Player, PlayerV, Team, TeamV, base_points, team_points};
use crate::num::{all_digits, digits_val, parse_u32_range};
use crate::result_code::{PlayerResult, code_value};
use crate::text::{chars_vec, split_spaces, string_from_chars, trim_range, trimmed, ws_tokens};

/// Why a page failed to extract, and which page it was.
#[derive(Debug, Clone, PartialEq, Eq)]
pub struct ExtractError {
    pub url: String,
    pub kind: ExtractErrorKind,
}

/// The extraction stage that failed.
#[derive(Debug, Clone, Copy, PartialEq, Eq, Structural)]
pub enum ExtractErrorKind {
    Teams,
    Runs,
    Stadium,
    DateLine,
    Schedule,
    Seasons,
}

/// Decoding of a row of raw result codes, all or nothing.
pub open spec fn codes_value(cells: Seq<Seq<char>>) -> Option<Seq<PlayerResult>>
    decreases cells.len(),
{
    if cells.len() == 0 {
        Option::Some(Seq::empty())
    } else {
        match code_value(trimmed(cells[0])) {
            Option::None => Option::None,
            Option::Some(p) => match codes_value(cells.drop_first()) {
                Option::None => Option::None,
                Option::Some(rest) => Option::Some(seq![p] + rest),
            },
        }
    }
}

/// Decodes a range of cells as result codes, all or nothing.
pub fn parse_codes(cells: &Vec<String>, from: usize, to: usize) -> (r: Option<Vec<PlayerResult>>)
    requires
        from <= to <= cells@.len(),
    ensures
        match r {
            Option::Some(v) => codes_value(cells.deep_view().subrange(from as int, to as int))
                == Option::Some(v@),
            Option::None => codes_value(cells.deep_view().subrange(from as int, to as int))
                is None,
        },
{
    let ghost cv = cells.deep_view().subrange(from as int, to as int);
    let mut acc: Vec<PlayerResult> = Vec::new();
    let mut i: usize = from;
    proof {
        assert(cv.skip(0) =~= cv);
    }
    while i < to
        invariant
            from <= i <= to <= cells@.len(),
            cv == cells.deep_view().subrange(from as int, to as int),
            (match codes_value(cv.skip(i - from)) {
                Option::Some(rest) => codes_value(cv) == Option::Some(acc@ + rest),
                Option::None => codes_value(cv) is None,
            }),
        decreases to - i,
    {
        proof {
            assert(cv.skip(i - from)[0] == cells.deep_view()[i as int]);
            assert(cells.deep_view()[i as int] =~= cells@[i as int]@);
        }
        let p = match PlayerResult::parse(cells[i].as_str()) {
            Some(p) => p,
            None => {
                return None;
            },
        };
        proof {
            assert(cv.skip(i - from).drop_first() =~= cv.skip(i + 1 - from));
            if let Option::Some(rest) = codes_value(cv.skip(i + 1 - from)) {
                assert(acc@ + (seq![p] + rest) =~= acc@.push(p) + rest);
            }
        }
        acc.push(p);
        i = i + 1;
    }
    proof {
        assert(cv.skip(to - from) =~= Seq::<Seq<char>>::empty());
        assert(acc@ + Seq::<PlayerResult>::empty() =~= acc@);
    }
    Some(acc)
}

/// The number of score cells read per rider: at most seven.
pub open spec fn score_cell_end(n_cells: int) -> int {
    if n_cells <= 9 {
        n_cells
    } else {
        9
    }
}

/// Decoding of one line-up table row: shirt number, the rider's two
/// name tokens off the link title, and up to seven result codes.
pub open spec fn player_row_value(cells: Seq<Seq<char>>, title: Option<Seq<char>>) -> Option<
    PlayerV,
> {
    if cells.len() < 2 {
        Option::None
    } else {
        let num_t = trimmed(cells[0]);
        if !(num_t.len() > 0 && all_digits(num_t) && digits_val(num_t) <= u32::MAX) {
            Option::None
        } else {
            match title {
                Option::None => Option::None,
                Option::Some(t) => {
                    let toks = ws_tokens(t);
                    if toks.len() < 2 {
                        Option::None
                    } else {
                        match codes_value(cells.subrange(2, score_cell_end(cells.len() as int))) {
                            Option::None => Option::None,
                            Option::Some(scores) => Option::Some(
                                PlayerV {
                                    name: toks[0],
                                    surname: toks[1],
                                    number: digits_val(num_t) as u32,
                                    scores,
                                },
                            ),
                        }
                    }
                },
            }
        }
    }
}

impl Player {
    /// Decodes one line-up table row: the cells are the row's table
    /// cells, the title the rider link's full name.
    pub fn parse_player(cells: &Vec<String>, title: &Option<String>) -> (r: Option<Player>)
        ensures
            match r {
                Option::Some(p) => player_row_value(cells.deep_view(), title.deep_view())
                    == Option::Some(p@),
                Option::None => player_row_value(cells.deep_view(), title.deep_view()) is None,
            },
    {
        let n = cells.len();
        if n < 2 {
            return None;
        }
        let numv = chars_vec(cells[0].as_str());
        proof {
            assert(cells.deep_view()[0] =~= cells@[0]@);
        }
        let (a, b) = trim_range(&numv);
        proof {
            assert(trimmed(cells.deep_view()[0]) =~= numv@.subrange(a as int, b as int));
        }
        let number = match parse_u32_range(&numv, a, b) {
            Some(x) => x,
            None => {
                return None;
            },
        };
        let t = match title {
            Some(t) => t,
            None => {
                return None;
            },
        };
        let tv = chars_vec(t.as_str());
        let toks = split_spaces(&tv);
        if toks.len() < 2 {
            proof {
                assert(title.deep_view() == Option::Some(t@));
            }
            return None;
        }
        proof {
            assert(title.deep_view() == Option::Some(t@));
            assert(toks@[0].deep_view() == ws_tokens(t@)[0]);
            assert(toks@[1].deep_view() == ws_tokens(t@)[1]);
            assert(toks@[0].deep_view() =~= toks@[0]@);
            assert(toks@[1].deep_view() =~= toks@[1]@);
        }
        let send: usize = if n <= 9 {
            n
        } else {
            9
        };
        let scores = match parse_codes(cells, 2, send) {
            Some(v) => v,
            None => {
                return None;
            },
        };
        let p = Player {
            name: string_from_chars(&toks[0]),
            surname: string_from_chars(&toks[1]),
            number,
            scores,
        };
        Some(p)
    }
}

/// Decoding of a whole line-up: one rider per row, each row paired
/// with the first link title of its second cell; all or nothing.
pub open spec fn players_value(
    rows: Seq<Seq<Seq<char>>>,
    titles: Seq<Seq<Option<Seq<char>>>>,
) -> Option<Seq<PlayerV>>
    decreases rows.len(),
{
    if rows.len() != titles.len() {
        Option::None
    } else if rows.len() == 0 {
        Option::Some(Seq::empty())
    } else {
        let title = if titles[0].len() >= 1 {
            titles[0][0]
        } else {
            Option::None
        };
        match player_row_value(rows[0], title) {
            Option::None => Option::None,
            Option::Some(p) => match players_value(rows.drop_first(), titles.drop_first()) {
                Option::None => Option::None,
                Option::Some(rest) => Option::Some(seq![p] + rest),
            },
        }
    }
}

/// Decodes a whole line-up, all or nothing.
pub fn parse_players(rows: &Vec<Vec<String>>, titles: &Vec<Vec<Option<String>>>) -> (r: Option<
    Vec<Player>,
>)
    ensures
        match r {
            Option::Some(v) => players_value(rows.deep_view(), titles.deep_view())
                == Option::Some(v@.map_values(|p: Player| p@)),
            Option::None => players_value(rows.deep_view(), titles.deep_view()) is None,
        },
{
    let n = rows.len();
    if titles.len() != n {
        return None;
    }
    let ghost rv = rows.deep_view();
    let ghost tv = titles.deep_view();
    let mut acc: Vec<Player> = Vec::new();
    let mut i: usize = 0;
    proof {
        assert(rv.skip(0) =~= rv);
        assert(tv.skip(0) =~= tv);
        assert(acc@.map_values(|p: Player| p@) =~= Seq::<PlayerV>::empty());
    }
    while i < n
        invariant
            i <= n == rows@.len(),
            titles@.len() == n,
            rv == rows.deep_view(),
            tv == titles.deep_view(),
            rv.len() == n && tv.len() == n,
            (match players_value(rv.skip(i as int), tv.skip(i as int)) {
                Option::Some(rest) => players_value(rv, tv) == Option::Some(
                    acc@.map_values(|p: Player| p@) + rest,
                ),
                Option::None => players_value(rv, tv) is None,
            }),
        decreases n - i,
    {
        proof {
            assert(rv.skip(i as int)[0] == rv[i as int]);
            assert(tv.skip(i as int)[0] == tv[i as int]);
            assert(rv[i as int] =~~= rows@[i as int].deep_view());
            assert(tv[i as int] =~~= titles@[i as int].deep_view());
        }
        let row = &rows[i];
        let tgroup = &titles[i];
        let title: Option<String> = if tgroup.len() >= 1 {
            tgroup[0].clone()
        } else {
            None
        };
        proof {
            if tgroup@.len() >= 1 {
                assert(titles@[i as int].deep_view()[0] =~~= tgroup@[0].deep_view());
                match tgroup@[0] {
                    Option::Some(x) => {},
                    Option::None => {},
                }
            }
            assert(title.deep_view() =~~= (if tv[i as int].len() >= 1 {
                tv[i as int][0]
            } else {
                Option::<Seq<char>>::None
            }));
        }
        let p = match Player::parse_player(row, &title) {
            Some(p) => p,
            None => {
                return None;
            },
        };
        proof {
            assert(rv.skip(i as int).drop_first() =~= rv.skip(i + 1));
            assert(tv.skip(i as int).drop_first() =~= tv.skip(i + 1));
            let av = acc@.map_values(|q: Player| q@);
            let av2 = acc@.push(p).map_values(|q: Player| q@);
            assert(av2 =~= av.push(p@));
            if let Option::Some(rest) = players_value(rv.skip(i + 1), tv.skip(i + 1)) {
                assert(av + (seq![p@] + rest) =~= av2 + rest);
            }
        }
        acc.push(p);
        i = i + 1;
    }
    proof {
        assert(rv.skip(n as int) =~= Seq::<Seq<Seq<char>>>::empty());
        assert(tv.skip(n as int) =~= Seq::<Seq<Option<Seq<char>>>>::empty());
        let av = acc@.map_values(|p: Player| p@);
        assert(av + Seq::<PlayerV>::empty() =~= av);
    }
    Some(acc)
}

/// Sums a line-up's base points, reporting nothing on a sum beyond
/// the aggregate-score range.
pub fn base_points_total(players: &Vec<Player>) -> (r: Option<u16>)
    ensures
        r is Some <==> team_points(players@.map_values(|p: Player| p@)) <= u16::MAX,
        r is Some ==> r->0 == team_points(players@.map_values(|p: Player| p@)),
{
    let ghost pv = players@.map_values(|p: Player| p@);
    let big: u32 = u16::MAX as u32 + 1;
    let n = players.len();
    let mut acc: u32 = 0;
    let mut i: usize = 0;
    while i < n
        invariant
            big == u16::MAX as u32 + 1,
            i <= n == players@.len(),
            pv == players@.map_values(|p: Player| p@),
            acc <= big,
            acc < big ==> acc == team_points(pv.take(i as int)),
            acc == big ==> team_points(pv.take(i as int)) > u16::MAX,
        decreases n - i,
    {
        proof {
            assert(pv.take(i + 1).drop_last() =~= pv.take(i as int));
            assert(pv[i as int] == players@[i as int]@);
        }
        let base = match player_base_points(&players[i]) {
            Some(b) => b,
            None => {
                proof {
                    crate::game::lemma_team_points_prefix(pv, i + 1);
                }
                return None;
            },
        };
        if acc < big {
            acc = acc + base as u32;
            if acc > u16::MAX as u32 {
                acc = big;
            }
        }
        i = i + 1;
    }
    proof {
        assert(pv.take(n as int) =~= pv);
    }
    if acc <= u16::MAX as u32 {
        Some(acc as u16)
    } else {
        None
    }
}

/// Sums one rider's base points, reporting nothing beyond the
/// aggregate-score range.
pub fn player_base_points(p: &Player) -> (r: Option<u16>)
    ensures
        r is Some <==> base_points(p@.scores) <= u16::MAX,
        r is Some ==> r->0 == base_points(p@.scores),
{
    let big: u32 = u16::MAX as u32 + 1;
    let n = p.scores.len();
    let mut acc: u32 = 0;
    let mut i: usize = 0;
    while i < n
        invariant
            big == u16::MAX as u32 + 1,
            i <= n == p@.scores.len(),
            acc <= big,
            acc < big ==> acc == base_points(p@.scores.take(i as int)),
            acc == big ==> base_points(p@.scores.take(i as int)) > u16::MAX,
        decreases n - i,
    {
        proof {
            assert(p@.scores.take(i + 1).drop_last() =~= p@.scores.take(i as int));
        }
        let pts: u32 = match p.scores[i] {
            PlayerResult::Score(s) => s as u32,
            PlayerResult::ScoreWithStar(s) => s as u32,
            _ => 0,
        };
        if acc < big {
            acc = acc + pts;
            if acc > u16::MAX as u32 {
                acc = big;
            }
        }
        i = i + 1;
    }
    proof {
        assert(p@.scores.take(n as int) =~= p@.scores);
        if acc == big {
            crate::game::lemma_base_points_prefix(p@.scores, n as int);
        }
    }
    if acc <= u16::MAX as u32 {
        Some(acc as u16)
    } else {
        None
    }
}


/// Decoding of both line-ups off a match page: the two team names
/// and each side's line-up grid, which must both be present, with
/// each side's aggregate base points.
pub open spec fn teams_value(body: Seq<char>) -> Option<(TeamV, TeamV)> {
    let names = crate::html::selected_inner(body, ".mclabel__name > .name"@);
    let grid1 = crate::html::selected_inner(
        body,
        ".coveragetab__speedwaytables > div:nth-child(1) > table:nth-child(2) > tbody:nth-child(2)"@,
    );
    let grid2 = crate::html::selected_inner(
        body,
        ".coveragetab__speedwaytables > div:nth-child(2) > table:nth-child(2) > tbody:nth-child(2)"@,
    );
    if names.len() < 2 || grid1.len() < 1 || grid2.len() < 1 {
        Option::None
    } else {
        let rows1 = crate::html::selected_within_inner(
            body,
            ".coveragetab__speedwaytables > div:nth-child(1) > table:nth-child(2) > tbody:nth-child(2) tr"@,
            "td"@,
        );
        let titles1 = crate::html::selected_within_attr(
            body,
            ".coveragetab__speedwaytables > div:nth-child(1) > table:nth-child(2) > tbody:nth-child(2) tr"@,
            "td:nth-child(2) a"@,
            "title"@,
        );
        let rows2 = crate::html::selected_within_inner(
            body,
            ".coveragetab__speedwaytables > div:nth-child(2) > table:nth-child(2) > tbody:nth-child(2) tr"@,
            "td"@,
        );
        let titles2 = crate::html::selected_within_attr(
            body,
            ".coveragetab__speedwaytables > div:nth-child(2) > table:nth-child(2) > tbody:nth-child(2) tr"@,
            "td:nth-child(2) a"@,
            "title"@,
        );
        match (players_value(rows1, titles1), players_value(rows2, titles2)) {
            (Option::Some(ps1), Option::Some(ps2)) => {
                if team_points(ps1) <= u16::MAX && team_points(ps2) <= u16::MAX {
                    Option::Some(
                        (
                            TeamV {
                                name: names[0],
                                points: team_points(ps1) as u16,
                                players: ps1,
                            },
                            TeamV {
                                name: names[1],
                                points: team_points(ps2) as u16,
                                players: ps2,
                            },
                        ),
                    )
                } else {
                    Option::None
                }
            },
            _ => Option::None,
        }
    }
}

impl Team {
    /// Decodes both line-ups off a match page.
    pub fn parse_teams(body: &str) -> (r: Option<(Team, Team)>)
        ensures
            match r {
                Option::Some((t1, t2)) => teams_value(body@) == Option::Some((t1@, t2@)),
                Option::None => teams_value(body@) is None,
            },
    {
        let names = crate::html::select_inner(body, ".mclabel__name > .name");
        let grid1 = crate::html::select_inner(
            body,
            ".coveragetab__speedwaytables > div:nth-child(1) > table:nth-child(2) > tbody:nth-child(2)",
        );
        let grid2 = crate::html::select_inner(
            body,
            ".coveragetab__speedwaytables > div:nth-child(2) > table:nth-child(2) > tbody:nth-child(2)",
        );
        if names.len() < 2 || grid1.len() < 1 || grid2.len() < 1 {
            return None;
        }
        proof {
            assert(names.deep_view()[0] =~= names@[0]@);
            assert(names.deep_view()[1] =~= names@[1]@);
        }
        let rows1 = crate::html::select_within_inner(
            body,
            ".coveragetab__speedwaytables > div:nth-child(1) > table:nth-child(2) > tbody:nth-child(2) tr",
            "td",
        );
        let titles1 = crate::html::select_within_attr(
            body,
            ".coveragetab__speedwaytables > div:nth-child(1) > table:nth-child(2) > tbody:nth-child(2) tr",
            "td:nth-child(2) a",
            "title",
        );
        let rows2 = crate::html::select_within_inner(
            body,
            ".coveragetab__speedwaytables > div:nth-child(2) > table:nth-child(2) > tbody:nth-child(2) tr",
            "td",
        );
        let titles2 = crate::html::select_within_attr(
            body,
            ".coveragetab__speedwaytables > div:nth-child(2) > table:nth-child(2) > tbody:nth-child(2) tr",
            "td:nth-child(2) a",
            "title",
        );
        let ps1 = match parse_players(&rows1, &titles1) {
            Some(v) => v,
            None => {
                return None;
            },
        };
        let ps2 = match parse_players(&rows2, &titles2) {
            Some(v) => v,
            None => {
                return None;
            },
        };
        let pts1 = match base_points_total(&ps1) {
            Some(x) => x,
            None => {
                return None;
            },
        };
        let pts2 = match base_points_total(&ps2) {
            Some(x) => x,
            None => {
                return None;
            },
        };
        let t1 = Team { name: names[0].clone(), points: pts1, players: ps1 };
        let t2 = Team { name: names[1].clone(), points: pts2, players: ps2 };
        Some((t1, t2))
    }
}


/// Decoding of one competitor's entry off the heat coverage list:
/// the name cell's first two tokens, the score cell trimmed and cut
/// to two characters, and the marker colour off the icon's class.
pub open spec fn competitor_value(
    names: Seq<Seq<Seq<char>>>,
    scores: Seq<Seq<Seq<char>>>,
    helms: Seq<Seq<Option<Seq<char>>>>,
    g: int,
) -> Option<crate::game::PlayerRunScoreV> {
    if !(0 <= g < names.len() && g < scores.len() && g < helms.len()) {
        Option::None
    } else if names[g].len() < 1 || scores[g].len() < 1 || helms[g].len() < 1 {
        Option::None
    } else {
        match crate::game::name_value(names[g][0]) {
            Option::None => Option::None,
            Option::Some(nm) => {
                let sc_t = trimmed(scores[g][0]);
                let cut = if sc_t.len() <= 2 {
                    sc_t
                } else {
                    sc_t.take(2)
                };
                match code_value(trimmed(cut)) {
                    Option::None => Option::None,
                    Option::Some(code) => {
                        let helmet = match helms[g][0] {
                            Option::None => Option::<crate::game::Helmet>::None,
                            Option::Some(cl) => crate::game::helmet_of(cl),
                        };
                        Option::Some(
                            crate::game::PlayerRunScoreV { name: nm, score: code, helmet },
                        )
                    },
                }
            },
        }
    }
}

/// Decoding of the heat at index `k` of the coverage list: its time
/// cell and its four competitors; heats are listed from heat
/// fifteen down to heat one.
pub open spec fn run_at_value(
    times: Seq<Seq<char>>,
    names: Seq<Seq<Seq<char>>>,
    scores: Seq<Seq<Seq<char>>>,
    helms: Seq<Seq<Option<Seq<char>>>>,
    k: int,
) -> Option<crate::game::RunV> {
    if !(0 <= k < 15 && k < times.len()) {
        Option::None
    } else {
        match crate::game::run_time_value(times[k]) {
            Option::None => Option::None,
            Option::Some(t) => {
                match (
                    competitor_value(names, scores, helms, 4 * k),
                    competitor_value(names, scores, helms, 4 * k + 1),
                    competitor_value(names, scores, helms, 4 * k + 2),
                    competitor_value(names, scores, helms, 4 * k + 3),
                ) {
                    (
                        Option::Some(c0),
                        Option::Some(c1),
                        Option::Some(c2),
                        Option::Some(c3),
                    ) => Option::Some(
                        crate::game::RunV {
                            number: (15 - k) as u8,
                            time: t,
                            player_score: seq![c0, c1, c2, c3],
                        },
                    ),
                    _ => Option::None,
                }
            },
        }
    }
}

/// Decoding of the heats from index `k` on, all or nothing.
pub open spec fn runs_from_value(
    times: Seq<Seq<char>>,
    names: Seq<Seq<Seq<char>>>,
    scores: Seq<Seq<Seq<char>>>,
    helms: Seq<Seq<Option<Seq<char>>>>,
    k: int,
) -> Option<Seq<crate::game::RunV>>
    decreases 15 - k,
{
    if !(0 <= k < 15) {
        Option::Some(Seq::empty())
    } else {
        match run_at_value(times, names, scores, helms, k) {
            Option::None => Option::None,
            Option::Some(r) => match runs_from_value(times, names, scores, helms, k + 1) {
                Option::None => Option::None,
                Option::Some(rest) => Option::Some(seq![r] + rest),
            },
        }
    }
}

/// Decoding of all fifteen heats off a match page.
pub open spec fn runs_value(body: Seq<char>) -> Option<Seq<crate::game::RunV>> {
    runs_from_value(
        crate::html::selected_inner(body, ".coveragelist .coventry__time"@),
        crate::html::selected_within_inner(
            body,
            ".coveragelist .competitor"@,
            ".competitor__name"@,
        ),
        crate::html::selected_within_inner(
            body,
            ".coveragelist .competitor"@,
            ".competitor__score"@,
        ),
        crate::html::selected_within_attr(
            body,
            ".coveragelist .competitor"@,
            ".icon-helmet"@,
            "class"@,
        ),
        0,
    )
}

/// Decodes one competitor's entry, given the selected cells.
fn parse_competitor(
    names: &Vec<Vec<String>>,
    scores: &Vec<Vec<String>>,
    helms: &Vec<Vec<Option<String>>>,
    g: usize,
) -> (r: Option<crate::game::PlayerRunScore>)
    ensures
        match r {
            Option::Some(c) => competitor_value(
                names.deep_view(),
                scores.deep_view(),
                helms.deep_view(),
                g as int,
            ) == Option::Some(c@),
            Option::None => competitor_value(
                names.deep_view(),
                scores.deep_view(),
                helms.deep_view(),
                g as int,
            ) is None,
        },
{
    if !(g < names.len() && g < scores.len() && g < helms.len()) {
        return None;
    }
    proof {
        assert(names.deep_view()[g as int] =~~= names@[g as int].deep_view());
        assert(scores.deep_view()[g as int] =~~= scores@[g as int].deep_view());
        assert(helms.deep_view()[g as int] =~~= helms@[g as int].deep_view());
    }
    let ngroup = &names[g];
    let sgroup = &scores[g];
    let hgroup = &helms[g];
    if ngroup.len() < 1 || sgroup.len() < 1 || hgroup.len() < 1 {
        return None;
    }
    proof {
        assert(ngroup.deep_view()[0] =~= ngroup@[0]@);
        assert(sgroup.deep_view()[0] =~= sgroup@[0]@);
    }
    let nm = match crate::game::parse_name(ngroup[0].as_str()) {
        Some(x) => x,
        None => {
            return None;
        },
    };
    let sv = chars_vec(sgroup[0].as_str());
    let (a, b) = trim_range(&sv);
    let ghost sc_t = trimmed(sgroup@[0]@);
    proof {
        assert(sc_t =~= sv@.subrange(a as int, b as int));
    }
    let cut_end: usize = if b - a <= 2 {
        b
    } else {
        a + 2
    };
    let mut cutv: Vec<char> = Vec::new();
    let mut i: usize = a;
    while i < cut_end
        invariant
            a <= i <= cut_end <= sv@.len(),
            cutv@ =~= sv@.subrange(a as int, i as int),
        decreases cut_end - i,
    {
        cutv.push(sv[i]);
        i = i + 1;
    }
    proof {
        if sc_t.len() <= 2 {
            assert(cutv@ =~= sc_t);
        } else {
            assert(cutv@ =~= sc_t.take(2));
        }
    }
    let cut_s = string_from_chars(&cutv);
    let code = match PlayerResult::parse(cut_s.as_str()) {
        Some(x) => x,
        None => {
            return None;
        },
    };
    let helmet: Option<crate::game::Helmet> = match &hgroup[0] {
        None => {
            proof {
                assert(hgroup.deep_view()[0] is None);
            }
            None
        },
        Some(cl) => {
            proof {
                assert(hgroup.deep_view()[0] == Option::Some(cl@));
            }
            crate::game::Helmet::try_parsing(cl.as_str())
        },
    };
    let c = crate::game::PlayerRunScore { name: nm, score: code, helmet };
    Some(c)
}

/// Decodes all fifteen heats off a match page.
pub fn parse_runs(body: &str) -> (r: Option<Vec<crate::game::Run>>)
    ensures
        match r {
            Option::Some(v) => runs_value(body@) == Option::Some(
                v@.map_values(|x: crate::game::Run| x@),
            ),
            Option::None => runs_value(body@) is None,
        },
{
    let times = crate::html::select_inner(body, ".coveragelist .coventry__time");
    let names = crate::html::select_within_inner(
        body,
        ".coveragelist .competitor",
        ".competitor__name",
    );
    let scores = crate::html::select_within_inner(
        body,
        ".coveragelist .competitor",
        ".competitor__score",
    );
    let helms = crate::html::select_within_attr(
        body,
        ".coveragelist .competitor",
        ".icon-helmet",
        "class",
    );
    let ghost tv = times.deep_view();
    let ghost nv = names.deep_view();
    let ghost sv = scores.deep_view();
    let ghost hv = helms.deep_view();
    let mut acc: Vec<crate::game::Run> = Vec::new();
    let mut k: usize = 0;
    proof {
        assert(acc@.map_values(|x: crate::game::Run| x@) =~= Seq::<crate::game::RunV>::empty());
    }
    while k < 15
        invariant
            k <= 15,
            tv == times.deep_view() && nv == names.deep_view() && sv == scores.deep_view() && hv
                == helms.deep_view(),
            tv == crate::html::selected_inner(body@, ".coveragelist .coventry__time"@),
            nv == crate::html::selected_within_inner(
                body@,
                ".coveragelist .competitor"@,
                ".competitor__name"@,
            ),
            sv == crate::html::selected_within_inner(
                body@,
                ".coveragelist .competitor"@,
                ".competitor__score"@,
            ),
            hv == crate::html::selected_within_attr(
                body@,
                ".coveragelist .competitor"@,
                ".icon-helmet"@,
                "class"@,
            ),
            (match runs_from_value(tv, nv, sv, hv, k as int) {
                Option::Some(rest) => runs_from_value(tv, nv, sv, hv, 0) == Option::Some(
                    acc@.map_values(|x: crate::game::Run| x@) + rest,
                ),
                Option::None => runs_from_value(tv, nv, sv, hv, 0) is None,
            }),
        decreases 15 - k,
    {
        if k >= times.len() {
            return None;
        }
        proof {
            assert(times.deep_view()[k as int] =~= times@[k as int]@);
        }
        let t = match crate::game::parse_time(times[k].as_str()) {
            Some(x) => x,
            None => {
                return None;
            },
        };
        let c0 = match parse_competitor(&names, &scores, &helms, 4 * k) {
            Some(x) => x,
            None => {
                return None;
            },
        };
        let c1 = match parse_competitor(&names, &scores, &helms, 4 * k + 1) {
            Some(x) => x,
            None => {
                return None;
            },
        };
        let c2 = match parse_competitor(&names, &scores, &helms, 4 * k + 2) {
            Some(x) => x,
            None => {
                return None;
            },
        };
        let c3 = match parse_competitor(&names, &scores, &helms, 4 * k + 3) {
            Some(x) => x,
            None => {
                return None;
            },
        };
        let mut ps: Vec<crate::game::PlayerRunScore> = Vec::new();
        ps.push(c0);
        ps.push(c1);
        ps.push(c2);
        ps.push(c3);
        let run = crate::game::Run { number: (15 - k) as u8, time: t, player_score: ps };
        proof {
            let rv = run@;
            assert(rv.player_score =~= seq![c0@, c1@, c2@, c3@]);
            assert(run_at_value(tv, nv, sv, hv, k as int) == Option::Some(rv));
            let av = acc@.map_values(|x: crate::game::Run| x@);
            let av2 = acc@.push(run).map_values(|x: crate::game::Run| x@);
            assert(av2 =~= av.push(rv));
            if let Option::Some(rest) = runs_from_value(tv, nv, sv, hv, k + 1) {
                assert(av + (seq![rv] + rest) =~= av2 + rest);
            }
        }
        acc.push(run);
        k = k + 1;
    }
    proof {
        let av = acc@.map_values(|x: crate::game::Run| x@);
        assert(av + Seq::<crate::game::RunV>::empty() =~= av);
    }
    Some(acc)
}


/// The venue text of a match page, when the venue list item is
/// present.
pub open spec fn stadium_value(body: Seq<char>) -> Option<Seq<char>> {
    let found = crate::html::selected_inner(
        body,
        "ul.bdcd > li:nth-child(3) > span:nth-child(2) > a:nth-child(1)"@,
    );
    if found.len() < 1 {
        Option::None
    } else {
        Option::Some(found[0])
    }
}

/// The decoded date of a match page, when the date list item is
/// present and its text follows the date-line grammar.
pub open spec fn page_date_value(body: Seq<char>) -> Option<crate::date::GameDate> {
    let found = crate::html::selected_inner(
        body,
        "ul.bdcd > li:nth-child(2) > span:nth-child(2)"@,
    );
    if found.len() < 1 {
        Option::None
    } else {
        crate::date::date_value(found[0])
    }
}

/// Decoding of one whole match page.
pub open spec fn site_value(body: Seq<char>) -> Option<GameInfoV> {
    match (teams_value(body), runs_value(body)) {
        (Option::Some((t1, t2)), Option::Some(runs)) => {
            match (stadium_value(body), page_date_value(body)) {
                (Option::Some(stadium), Option::Some(date)) => Option::Some(
                    GameInfoV { team1: t1, team2: t2, stadium, date, runs },
                ),
                _ => Option::None,
            }
        },
        _ => Option::None,
    }
}

/// The first stage of page decoding that fails.
pub open spec fn site_error_kind(body: Seq<char>) -> ExtractErrorKind {
    if teams_value(body) is None {
        ExtractErrorKind::Teams
    } else if runs_value(body) is None {
        ExtractErrorKind::Runs
    } else if stadium_value(body) is None {
        ExtractErrorKind::Stadium
    } else {
        ExtractErrorKind::DateLine
    }
}

impl GameInfo {
    /// Turns one match page's markup into the canonical record.  On
    /// failure the error carries the source address and the stage
    /// that failed; the caller treats this as a per-page failure.
    pub fn parse_site(body: &str, site: &str) -> (r: Result<GameInfo, ExtractError>)
        ensures
            match r {
                Result::Ok(g) => site_value(body@) == Option::Some(g@),
                Result::Err(e) => site_value(body@) is None && e.url@ == site@ && e.kind
                    == site_error_kind(body@),
            },
    {
        let (t1, t2) = match Team::parse_teams(body) {
            Some(x) => x,
            None => {
                return Err(
                    ExtractError {
                        url: String::from_str(site),
                        kind: ExtractErrorKind::Teams,
                    },
                );
            },
        };
        let runs = match parse_runs(body) {
            Some(x) => x,
            None => {
                return Err(
                    ExtractError { url: String::from_str(site), kind: ExtractErrorKind::Runs },
                );
            },
        };
        let stadiums = crate::html::select_inner(
            body,
            "ul.bdcd > li:nth-child(3) > span:nth-child(2) > a:nth-child(1)",
        );
        if stadiums.len() < 1 {
            return Err(
                ExtractError { url: String::from_str(site), kind: ExtractErrorKind::Stadium },
            );
        }
        proof {
            assert(stadiums.deep_view()[0] =~= stadiums@[0]@);
        }
        let dates = crate::html::select_inner(
            body,
            "ul.bdcd > li:nth-child(2) > span:nth-child(2)",
        );
        if dates.len() < 1 {
            return Err(
                ExtractError { url: String::from_str(site), kind: ExtractErrorKind::DateLine },
            );
        }
        proof {
            assert(dates.deep_view()[0] =~= dates@[0]@);
        }
        let date = match crate::date::parse_date(dates[0].as_str()) {
            Some(d) => d,
            None => {
                return Err(
                    ExtractError {
                        url: String::from_str(site),
                        kind: ExtractErrorKind::DateLine,
                    },
                );
            },
        };
        let g = GameInfo { team1: t1, team2: t2, stadium: stadiums[0].clone(), date, runs };
        Ok(g)
    }
}

/// A discovered match-page reference.
#[derive(Debug, Clone, PartialEq, Eq)]
pub struct GameSite {
    pub url: String,
}

/// The address prefix of the scraped site.
pub open spec fn base_site() -> Seq<char> {
    "https://sportowefakty.wp.pl"@
}

/// The absolute match-page addresses found on a schedule page, all
/// or nothing: every schedule link must carry its address.
pub open spec fn schedule_sites(hrefs: Seq<Option<Seq<char>>>) -> Option<Seq<Seq<char>>>
    decreases hrefs.len(),
{
    if hrefs.len() == 0 {
        Option::Some(Seq::empty())
    } else {
        match hrefs[0] {
            Option::None => Option::None,
            Option::Some(h) => match schedule_sites(hrefs.drop_first()) {
                Option::None => Option::None,
                Option::Some(rest) => Option::Some(seq![base_site() + h] + rest),
            },
        }
    }
}

/// Decoding of a season schedule page.
pub open spec fn schedule_value(body: Seq<char>) -> Option<Seq<Seq<char>>> {
    schedule_sites(crate::html::selected_attr(body, ".cmatch__link"@, "href"@))
}

impl GameSite {
    /// Builds a match-page reference from a path relative to the
    /// scraped site.
    pub fn new(relative_url: &str) -> (r: GameSite)
        ensures
            r.url@ == base_site() + relative_url@,
    {
        let mut v: Vec<char> = Vec::new();
        crate::json::push_lit(&mut v, "https://sportowefakty.wp.pl");
        crate::json::push_lit(&mut v, relative_url);
        proof {
            assert(Seq::<char>::empty() + base_site() + relative_url@ =~= base_site()
                + relative_url@);
        }
        GameSite { url: string_from_chars(&v) }
    }

    pub fn url(&self) -> (r: &str)
        ensures
            r@ == self.url@,
    {
        self.url.as_str()
    }

    /// Reads the match-page links off a season schedule page.
    pub fn parse_match_schedule(body: &str) -> (r: Option<Vec<GameSite>>)
        ensures
            match r {
                Option::Some(v) => schedule_value(body@) == Option::Some(
                    v@.map_values(|g: GameSite| g.url@),
                ),
                Option::None => schedule_value(body@) is None,
            },
    {
        let hrefs = crate::html::select_attr(body, ".cmatch__link", "href");
        let ghost hv = hrefs.deep_view();
        let n = hrefs.len();
        let mut acc: Vec<GameSite> = Vec::new();
        let mut i: usize = 0;
        proof {
            assert(hv.skip(0) =~= hv);
            assert(acc@.map_values(|g: GameSite| g.url@) =~= Seq::<Seq<char>>::empty());
        }
        while i < n
            invariant
                i <= n == hrefs@.len(),
                hv == hrefs.deep_view(),
                hv == crate::html::selected_attr(body@, ".cmatch__link"@, "href"@),
                (match schedule_sites(hv.skip(i as int)) {
                    Option::Some(rest) => schedule_sites(hv) == Option::Some(
                        acc@.map_values(|g: GameSite| g.url@) + rest,
                    ),
                    Option::None => schedule_sites(hv) is None,
                }),
            decreases n - i,
        {
            proof {
                assert(hv.skip(i as int)[0] == hv[i as int]);
                assert(hv[i as int] =~~= hrefs@[i as int].deep_view());
            }
            let h = match &hrefs[i] {
                Some(h) => h,
                None => {
                    return None;
                },
            };
            let site = GameSite::new(h.as_str());
            proof {
                assert(hv.skip(i as int).drop_first() =~= hv.skip(i + 1));
                let av = acc@.map_values(|g: GameSite| g.url@);
                let av2 = acc@.push(site).map_values(|g: GameSite| g.url@);
                assert(av2 =~= av.push(site.url@));
                if let Option::Some(rest) = schedule_sites(hv.skip(i + 1)) {
                    assert(av + (seq![site.url@] + rest) =~= av2 + rest);
                }
            }
            acc.push(site);
            i = i + 1;
        }
        proof {
            assert(hv.skip(n as int) =~= Seq::<Option<Seq<char>>>::empty());
            let av = acc@.map_values(|g: GameSite| g.url@);
            assert(av + Seq::<Seq<char>>::empty() =~= av);
        }
        Some(acc)
    }
}

proof fn lemma_runs_from_shape(
    times: Seq<Seq<char>>,
    names: Seq<Seq<Seq<char>>>,
    scores: Seq<Seq<Seq<char>>>,
    helms: Seq<Seq<Option<Seq<char>>>>,
    k: int,
    rs: Seq<crate::game::RunV>,
)
    requires
        0 <= k <= 15,
        runs_from_value(times, names, scores, helms, k) == Option::Some(rs),
    ensures
        rs.len() == 15 - k,
        forall|j: int| 0 <= j < rs.len() ==> (#[trigger] rs[j].number) == 15 - (k + j),
    decreases 15 - k,
{
    if k < 15 {
        let rest = runs_from_value(times, names, scores, helms, k + 1);
        lemma_runs_from_shape(times, names, scores, helms, k + 1, rest->0);
        assert(rs =~= seq![run_at_value(times, names, scores, helms, k)->0] + rest->0);
    }
}

/// Some heat of the record sits at position `p`.
pub open spec fn has_position(rs: Seq<crate::game::RunV>, p: int) -> bool {
    exists|j: int| 0 <= j < rs.len() && (#[trigger] rs[j].number) == p
}

/// Every extracted record's heats carry the positions one through
/// fifteen exactly once each, in descending order.
pub proof fn lemma_run_positions_cover(body: Seq<char>, rs: Seq<crate::game::RunV>)
    requires
        runs_value(body) == Option::Some(rs),
    ensures
        rs.len() == 15,
        forall|j: int| 0 <= j < 15 ==> (#[trigger] rs[j].number) == 15 - j,
        forall|p: int| 1 <= p <= 15 ==> #[trigger] has_position(rs, p),
        forall|j1: int, j2: int|
            0 <= j1 < 15 && 0 <= j2 < 15 && #[trigger] rs[j1].number == #[trigger] rs[j2].number
                ==> j1 == j2,
{
    lemma_runs_from_shape(
        crate::html::selected_inner(body, ".coveragelist .coventry__time"@),
        crate::html::selected_within_inner(
            body,
            ".coveragelist .competitor"@,
            ".competitor__name"@,
        ),
        crate::html::selected_within_inner(
            body,
            ".coveragelist .competitor"@,
            ".competitor__score"@,
        ),
        crate::html::selected_within_attr(
            body,
            ".coveragelist .competitor"@,
            ".icon-helmet"@,
            "class"@,
        ),
        0,
        rs,
    );
    assert forall|p: int| 1 <= p <= 15 implies #[trigger] has_position(rs, p) by {
        assert(rs[15 - p].number == p);
    }
}

} // verus!
