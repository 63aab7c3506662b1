//! A model of the relational store the loader writes: append-only
//! reference tables for teams, players and venues, resolved by
//! natural key, and the per-match tables filled inside one
//! transaction.  Surrogate ids are row indexes.

use vstd::prelude::*;

verus! {

use vstd::string::{StrSliceExecFns, StringExecFns};
use crate::date::GameDate;
use crate::game::{GameInfo, GameInfoV, PlayerV};
use crate::result_code::PlayerResult;
use crate::text::{chars_vec, seq_eq_nocase, string_from_chars, trim_range, trimmed, eq_nocase_lit};

/// One match row: both sides' ids and scores, the venue and the
/// date.
#[derive(Debug, Clone, Copy, PartialEq, Eq, Structural)]
pub struct GameRow {
    pub team1: usize,
    pub score1: u16,
    pub score2: u16,
    pub team2: usize,
    pub stadium: usize,
    pub date: GameDate,
}

/// One per-round score row of one rider in one match.
#[derive(Debug, Clone, Copy, PartialEq, Eq, Structural)]
pub struct PlayerScoreRow {
    pub game: usize,
    pub player: usize,
    pub round: usize,
    pub score: PlayerResult,
}

/// One heat row of one match.
#[derive(Debug, Clone, Copy, PartialEq, Eq)]
pub struct RunRow {
    pub game: usize,
    pub position: u8,
    pub time: Option<(u16, u8)>,
}

/// One per-heat score row of one rider.
#[derive(Debug, Clone, Copy, PartialEq, Eq, Structural)]
pub struct RunScoreRow {
    pub run: usize,
    pub player: usize,
    pub score: PlayerResult,
}

/// Mathematical image of a [`Store`].
pub ghost struct StoreV {
    pub teams: Seq<Seq<char>>,
    pub players: Seq<(Seq<char>, Seq<char>)>,
    pub stadiums: Seq<Seq<char>>,
    pub games: Seq<GameRow>,
    pub player_scores: Seq<PlayerScoreRow>,
    pub runs: Seq<RunRow>,
    pub run_scores: Seq<RunScoreRow>,
}

/// The relational store: three append-only reference tables keyed
/// by natural key, and the four per-match tables.
#[derive(Debug, Clone, PartialEq, Eq)]
pub struct Store {
    pub teams: Vec<String>,
    pub players: Vec<(String, String)>,
    pub stadiums: Vec<String>,
    pub games: Vec<GameRow>,
    pub player_scores: Vec<PlayerScoreRow>,
    pub runs: Vec<RunRow>,
    pub run_scores: Vec<RunScoreRow>,
}

impl View for Store {
    type V = StoreV;

    open spec fn view(&self) -> StoreV {
        StoreV {
            teams: self.teams@.map_values(|t: String| t@),
            players: self.players@.map_values(|p: (String, String)| (p.0@, p.1@)),
            stadiums: self.stadiums@.map_values(|t: String| t@),
            games: self.games@,
            player_scores: self.player_scores@,
            runs: self.runs@,
            run_scores: self.run_scores@,
        }
    }
}

/// First row holding a name.
pub open spec fn find_name(tab: Seq<Seq<char>>, key: Seq<char>) -> Option<int>
    decreases tab.len(),
{
    if tab.len() == 0 {
        Option::None
    } else if tab[0] == key {
        Option::Some(0int)
    } else {
        match find_name(tab.drop_first(), key) {
            Option::None => Option::None,
            Option::Some(k) => Option::Some(k + 1),
        }
    }
}

/// First row holding a name pair.
pub open spec fn find_pair(
    tab: Seq<(Seq<char>, Seq<char>)>,
    key: (Seq<char>, Seq<char>),
) -> Option<int>
    decreases tab.len(),
{
    if tab.len() == 0 {
        Option::None
    } else if tab[0].0 == key.0 && tab[0].1 == key.1 {
        Option::Some(0int)
    } else {
        match find_pair(tab.drop_first(), key) {
            Option::None => Option::None,
            Option::Some(k) => Option::Some(k + 1),
        }
    }
}

/// The table after resolving a name: unchanged when present,
/// appended when missing.
pub open spec fn resolve_name_spec(tab: Seq<Seq<char>>, key: Seq<char>) -> Seq<Seq<char>> {
    if find_name(tab, key) is Some {
        tab
    } else {
        tab.push(key)
    }
}

/// The id a resolved name gets: its first row, or the fresh row at
/// the end.
pub open spec fn name_id(tab: Seq<Seq<char>>, key: Seq<char>) -> int {
    match find_name(tab, key) {
        Option::Some(k) => k,
        Option::None => tab.len() as int,
    }
}

/// The table after resolving a name pair.
pub open spec fn resolve_pair_spec(
    tab: Seq<(Seq<char>, Seq<char>)>,
    key: (Seq<char>, Seq<char>),
) -> Seq<(Seq<char>, Seq<char>)> {
    if find_pair(tab, key) is Some {
        tab
    } else {
        tab.push(key)
    }
}

/// The id a resolved name pair gets.
pub open spec fn pair_id(tab: Seq<(Seq<char>, Seq<char>)>, key: (Seq<char>, Seq<char>)) -> int {
    match find_pair(tab, key) {
        Option::Some(k) => k,
        Option::None => tab.len() as int,
    }
}

/// Resolving a key makes it findable, at the id the resolution
/// reported.
pub proof fn lemma_find_after_resolve_name(tab: Seq<Seq<char>>, key: Seq<char>)
    ensures
        find_name(resolve_name_spec(tab, key), key) == Option::Some(name_id(tab, key)),
    decreases tab.len(),
{
    match find_name(tab, key) {
        Option::Some(k) => {},
        Option::None => {
            lemma_find_name_push(tab, key, key);
        },
    }
}

/// Appending a row moves no earlier row: a present key keeps its
/// id, and the fresh row is found at the end.
pub proof fn lemma_find_name_push(tab: Seq<Seq<char>>, x: Seq<char>, key: Seq<char>)
    ensures
        find_name(tab.push(x), key) == (match find_name(tab, key) {
            Option::Some(k) => Option::Some(k),
            Option::None => if x == key {
                Option::Some(tab.len() as int)
            } else {
                Option::<int>::None
            },
        }),
    decreases tab.len(),
{
    if tab.len() == 0 {
        assert(tab.push(x).drop_first() =~= Seq::<Seq<char>>::empty());
        assert(tab.push(x)[0] == x);
        assert(find_name(Seq::<Seq<char>>::empty(), key) is None);
        if x == key {
            assert(find_name(tab.push(x), key) == Option::Some(0int));
        } else {
            assert(find_name(tab.push(x), key) is None);
        }
    } else {
        let t = tab.drop_first();
        assert(tab.push(x)[0] == tab[0]);
        assert(tab.push(x).drop_first() =~= t.push(x));
        lemma_find_name_push(t, x, key);
        if tab[0] == key {
            assert(find_name(tab.push(x), key) == Option::Some(0int));
            assert(find_name(tab, key) == Option::Some(0int));
        } else {
            assert(find_name(tab.push(x), key) == (match find_name(t.push(x), key) {
                Option::None => Option::<int>::None,
                Option::Some(k) => Option::Some(k + 1),
            }));
        }
    }
}

/// A found key sits in range and its row holds the key.
pub proof fn lemma_find_name_props(tab: Seq<Seq<char>>, key: Seq<char>)
    ensures
        match find_name(tab, key) {
            Option::Some(k) => 0 <= k < tab.len() && tab[k] == key,
            Option::None => true,
        },
    decreases tab.len(),
{
    if tab.len() > 0 && tab[0] != key {
        lemma_find_name_props(tab.drop_first(), key);
        if let Option::Some(k) = find_name(tab.drop_first(), key) {
            assert(tab.drop_first()[k] == tab[k + 1]);
        }
    }
}

pub proof fn lemma_find_after_resolve_pair(
    tab: Seq<(Seq<char>, Seq<char>)>,
    key: (Seq<char>, Seq<char>),
)
    ensures
        find_pair(resolve_pair_spec(tab, key), key) == Option::Some(pair_id(tab, key)),
    decreases tab.len(),
{
    match find_pair(tab, key) {
        Option::Some(k) => {},
        Option::None => {
            lemma_find_pair_push(tab, key, key);
        },
    }
}

pub proof fn lemma_find_pair_push(
    tab: Seq<(Seq<char>, Seq<char>)>,
    x: (Seq<char>, Seq<char>),
    key: (Seq<char>, Seq<char>),
)
    ensures
        find_pair(tab.push(x), key) == (match find_pair(tab, key) {
            Option::Some(k) => Option::Some(k),
            Option::None => if x.0 == key.0 && x.1 == key.1 {
                Option::Some(tab.len() as int)
            } else {
                Option::<int>::None
            },
        }),
    decreases tab.len(),
{
    if tab.len() == 0 {
        assert(tab.push(x).drop_first() =~= Seq::<(Seq<char>, Seq<char>)>::empty());
        assert(tab.push(x)[0] == x);
        assert(find_pair(Seq::<(Seq<char>, Seq<char>)>::empty(), key) is None);
    } else {
        let t = tab.drop_first();
        assert(tab.push(x)[0] == tab[0]);
        assert(tab.push(x).drop_first() =~= t.push(x));
        lemma_find_pair_push(t, x, key);
        if tab[0].0 == key.0 && tab[0].1 == key.1 {
            assert(find_pair(tab.push(x), key) == Option::Some(0int));
            assert(find_pair(tab, key) == Option::Some(0int));
        } else {
            assert(find_pair(tab.push(x), key) == (match find_pair(t.push(x), key) {
                Option::None => Option::<int>::None,
                Option::Some(k) => Option::Some(k + 1),
            }));
        }
    }
}

/// Resolving the same name twice stores at most one row for it and
/// returns the same id both times: a lost creation race, replayed
/// in sequence, is recovered with no duplicate row.
pub proof fn lemma_resolve_name_idempotent(tab: Seq<Seq<char>>, key: Seq<char>)
    ensures
        resolve_name_spec(resolve_name_spec(tab, key), key) == resolve_name_spec(tab, key),
        name_id(resolve_name_spec(tab, key), key) == name_id(tab, key),
        resolve_name_spec(tab, key).len() <= tab.len() + 1,
{
    lemma_find_after_resolve_name(tab, key);
}

/// Executable string equality.
fn str_eq(a: &str, b: &str) -> (r: bool)
    ensures
        r == (a@ == b@),
{
    let n = a.unicode_len();
    if b.unicode_len() != n {
        return false;
    }
    let mut i: usize = 0;
    while i < n
        invariant
            i <= n == a@.len(),
            b@.len() == n,
            forall|k: int| 0 <= k < i ==> a@[k] == b@[k],
        decreases n - i,
    {
        if a.get_char(i) != b.get_char(i) {
            return false;
        }
        i = i + 1;
    }
    proof {
        assert(a@ =~= b@);
    }
    true
}

impl Store {
    /// An empty store.
    pub fn new() -> (r: Store)
        ensures
            r@.teams.len() == 0,
            r@.players.len() == 0,
            r@.stadiums.len() == 0,
            r@.games.len() == 0,
            r@.player_scores.len() == 0,
            r@.runs.len() == 0,
            r@.run_scores.len() == 0,
    {
        let r = Store {
            teams: Vec::new(),
            players: Vec::new(),
            stadiums: Vec::new(),
            games: Vec::new(),
            player_scores: Vec::new(),
            runs: Vec::new(),
            run_scores: Vec::new(),
        };
        proof {
            assert(r@.teams =~= Seq::<Seq<char>>::empty());
            assert(r@.players =~= Seq::<(Seq<char>, Seq<char>)>::empty());
            assert(r@.stadiums =~= Seq::<Seq<char>>::empty());
        }
        r
    }

    /// Resolves a team by its trimmed name: selects the first row
    /// with that name, creating it when missing, and returns its
    /// id; only the team table changes, and only by at most one
    /// appended row.
    pub fn resolve_team(&mut self, name: &str) -> (id: usize)
        ensures
            final(self)@.teams == resolve_name_spec(old(self)@.teams, trimmed(name@)),
            id == name_id(old(self)@.teams, trimmed(name@)),
            id < final(self)@.teams.len() && final(self)@.teams[id as int] == trimmed(name@),
            final(self)@.players == old(self)@.players,
            final(self)@.stadiums == old(self)@.stadiums,
            final(self)@.games == old(self)@.games,
            final(self)@.player_scores == old(self)@.player_scores,
            final(self)@.runs == old(self)@.runs,
            final(self)@.run_scores == old(self)@.run_scores,
    {
        let v = chars_vec(name);
        let (a, b) = trim_range(&v);
        let mut tv: Vec<char> = Vec::new();
        let mut i: usize = a;
        while i < b
            invariant
                a <= i <= b <= v@.len(),
                tv@ =~= v@.subrange(a as int, i as int),
            decreases b - i,
        {
            tv.push(v[i]);
            i = i + 1;
        }
        let key = string_from_chars(&tv);
        proof {
            assert(key@ == trimmed(name@));
        }
        let id = resolve_in_names(&mut self.teams, &key);
        proof {
            lemma_find_after_resolve_name(old(self)@.teams, trimmed(name@));
            lemma_find_name_props(resolve_name_spec(old(self)@.teams, trimmed(name@)), trimmed(name@));
            assert(final(self)@.players =~= old(self)@.players);
        }
        id
    }

    /// Resolves a venue by its description.
    pub fn resolve_stadium(&mut self, description: &str) -> (id: usize)
        ensures
            final(self)@.stadiums == resolve_name_spec(old(self)@.stadiums, description@),
            id == name_id(old(self)@.stadiums, description@),
            final(self)@.teams == old(self)@.teams,
            final(self)@.players == old(self)@.players,
            final(self)@.games == old(self)@.games,
            final(self)@.player_scores == old(self)@.player_scores,
            final(self)@.runs == old(self)@.runs,
            final(self)@.run_scores == old(self)@.run_scores,
    {
        let key = String::from_str(description);
        let id = resolve_in_names(&mut self.stadiums, &key);
        proof {
            assert(final(self)@.players =~= old(self)@.players);
        }
        id
    }

    /// Resolves a rider by the name pair.
    pub fn resolve_player(&mut self, name: &str, surname: &str) -> (id: usize)
        ensures
            final(self)@.players == resolve_pair_spec(old(self)@.players, (name@, surname@)),
            id == pair_id(old(self)@.players, (name@, surname@)),
            final(self)@.teams == old(self)@.teams,
            final(self)@.stadiums == old(self)@.stadiums,
            final(self)@.games == old(self)@.games,
            final(self)@.player_scores == old(self)@.player_scores,
            final(self)@.runs == old(self)@.runs,
            final(self)@.run_scores == old(self)@.run_scores,
    {
        let ghost key = (name@, surname@);
        let ghost tab = self.players@.map_values(|p: (String, String)| (p.0@, p.1@));
        let n = self.players.len();
        let mut i: usize = 0;
        proof {
            assert(tab.skip(0) =~= tab);
        }
        while i < n
            invariant
                i <= n == self.players@.len(),
                key == (name@, surname@),
                tab == self.players@.map_values(|p: (String, String)| (p.0@, p.1@)),
                find_pair(tab, key) == (match find_pair(tab.skip(i as int), key) {
                    Option::Some(k) => Option::Some(k + i),
                    Option::None => Option::<int>::None,
                }),
                forall|k: int|
                    0 <= k < i ==> !((#[trigger] tab[k]).0 == key.0 && tab[k].1 == key.1),
            decreases n - i,
        {
            let pair = &self.players[i];
            let c1 = str_eq(pair.0.as_str(), name);
            let c2 = str_eq(pair.1.as_str(), surname);
            proof {
                assert(tab[i as int] == (self.players@[i as int].0@, self.players@[i as int].1@));
                assert(tab.skip(i as int)[0] == tab[i as int]);
                assert(tab.skip(i as int).drop_first() =~= tab.skip(i + 1));
            }
            if c1 && c2 {
                proof {
                    assert(tab[i as int].0 == name@ && tab[i as int].1 == surname@);
                    assert(find_pair(tab.skip(i as int), key) == Option::Some(0int));
                }
                return i;
            }
            proof {
                assert(!(tab[i as int].0 == key.0 && tab[i as int].1 == key.1));
                assert(find_pair(tab.skip(i as int), key) == (match find_pair(
                    tab.skip(i + 1),
                    key,
                ) {
                    Option::Some(k) => Option::Some(k + 1),
                    Option::None => Option::<int>::None,
                }));
            }
            i = i + 1;
        }
        proof {
            assert(tab.skip(n as int) =~= Seq::<(Seq<char>, Seq<char>)>::empty());
            assert(find_pair(tab, key) is None);
        }
        self.players.push((String::from_str(name), String::from_str(surname)));
        proof {
            assert(self.players@.map_values(|p: (String, String)| (p.0@, p.1@)) =~= tab.push(key));
        }
        n
    }
}

/// Find-or-create inside one name table.
fn resolve_in_names(tab: &mut Vec<String>, key: &String) -> (id: usize)
    ensures
        final(tab)@.map_values(|t: String| t@) == resolve_name_spec(
            old(tab)@.map_values(|t: String| t@),
            key@,
        ),
        id == name_id(old(tab)@.map_values(|t: String| t@), key@),
{
    let ghost tv = tab@.map_values(|t: String| t@);
    let n = tab.len();
    let mut i: usize = 0;
    proof {
        assert(tv.skip(0) =~= tv);
    }
    while i < n
        invariant
            i <= n == tab@.len(),
            tv == tab@.map_values(|t: String| t@),
            find_name(tv, key@) == (match find_name(tv.skip(i as int), key@) {
                Option::Some(k) => Option::Some(k + i),
                Option::None => Option::<int>::None,
            }),
        decreases n - i,
    {
        proof {
            assert(tv.skip(i as int)[0] == tv[i as int]);
            assert(tv[i as int] == tab@[i as int]@);
            assert(tv.skip(i as int).drop_first() =~= tv.skip(i + 1));
        }
        if str_eq(tab[i].as_str(), key.as_str()) {
            proof {
                assert(find_name(tv.skip(i as int), key@) == Option::Some(0int));
            }
            return i;
        }
        i = i + 1;
    }
    proof {
        assert(tv.skip(n as int) =~= Seq::<Seq<char>>::empty());
        assert(find_name(tv, key@) is None);
    }
    let ghost old_tab = tab@;
    tab.push(key.clone());
    proof {
        assert(tab@.map_values(|t: String| t@) =~= tv.push(key@));
    }
    n
}


/// The sentinel line-up entry standing for no rider.
pub open spec fn sentinel(p: PlayerV) -> bool {
    seq_eq_nocase(p.name, "Brak"@) && seq_eq_nocase(p.surname, "zawodnika"@)
}

/// The rider table after resolving a whole line-up, in order.
pub open spec fn resolve_players_spec(
    tab: Seq<(Seq<char>, Seq<char>)>,
    ps: Seq<PlayerV>,
) -> Seq<(Seq<char>, Seq<char>)>
    decreases ps.len(),
{
    if ps.len() == 0 {
        tab
    } else {
        resolve_players_spec(resolve_pair_spec(tab, (ps[0].name, ps[0].surname)), ps.drop_first())
    }
}

/// The store after the entity-resolution step of one record: teams,
/// venue and riders resolved, match tables untouched.
pub open spec fn resolve_spec(st: StoreV, g: GameInfoV) -> StoreV {
    StoreV {
        teams: resolve_name_spec(resolve_name_spec(st.teams, trimmed(g.team1.name)), trimmed(g.team2.name)),
        players: resolve_players_spec(resolve_players_spec(st.players, g.team1.players), g.team2.players),
        stadiums: resolve_name_spec(st.stadiums, g.stadium),
        games: st.games,
        player_scores: st.player_scores,
        runs: st.runs,
        run_scores: st.run_scores,
    }
}

/// The match row of one record against a store whose reference
/// entities are resolved.
pub open spec fn game_row_of(st: StoreV, g: GameInfoV) -> GameRow {
    GameRow {
        team1: name_id(st.teams, trimmed(g.team1.name)) as usize,
        score1: g.team1.points,
        score2: g.team2.points,
        team2: name_id(st.teams, trimmed(g.team2.name)) as usize,
        stadium: name_id(st.stadiums, g.stadium) as usize,
        date: g.date,
    }
}

/// One rider's per-round score rows.
pub open spec fn score_rows_for(gid: int, pid: int, scores: Seq<PlayerResult>, round: int) -> Seq<
    PlayerScoreRow,
>
    decreases scores.len(),
{
    if scores.len() == 0 {
        Seq::empty()
    } else {
        seq![
            PlayerScoreRow {
                game: gid as usize,
                player: pid as usize,
                round: round as usize,
                score: scores[0],
            },
        ] + score_rows_for(gid, pid, scores.drop_first(), round + 1)
    }
}

/// The per-round score rows of a line-up, skipping the sentinel
/// entry.
pub open spec fn player_rows_for(
    ptab: Seq<(Seq<char>, Seq<char>)>,
    gid: int,
    ps: Seq<PlayerV>,
) -> Seq<PlayerScoreRow>
    decreases ps.len(),
{
    if ps.len() == 0 {
        Seq::empty()
    } else {
        let head = if sentinel(ps[0]) {
            Seq::<PlayerScoreRow>::empty()
        } else {
            score_rows_for(gid, pair_id(ptab, (ps[0].name, ps[0].surname)), ps[0].scores, 0)
        };
        head + player_rows_for(ptab, gid, ps.drop_first())
    }
}

/// The heat rows of one record.
pub open spec fn run_rows_for(gid: int, rid0: int, runs: Seq<crate::game::RunV>) -> Seq<RunRow>
    decreases runs.len(),
{
    if runs.len() == 0 {
        Seq::empty()
    } else {
        seq![RunRow { game: gid as usize, position: runs[0].number, time: runs[0].time }]
            + run_rows_for(gid, rid0 + 1, runs.drop_first())
    }
}

/// The split key of a heat participant, when the name splits.
pub open spec fn participant_key(name: Seq<char>) -> Option<(Seq<char>, Seq<char>)> {
    if crate::game::name_splittable(name) {
        Option::Some(crate::game::name_parts(name))
    } else {
        Option::None
    }
}

/// One heat's per-participant score rows: a participant gets a row
/// exactly when the name splits into a key the rider table holds.
pub open spec fn prs_rows_for(
    ptab: Seq<(Seq<char>, Seq<char>)>,
    rid: int,
    cs: Seq<crate::game::PlayerRunScoreV>,
) -> Seq<RunScoreRow>
    decreases cs.len(),
{
    if cs.len() == 0 {
        Seq::empty()
    } else {
        let head = match participant_key(cs[0].name) {
            Option::None => Seq::<RunScoreRow>::empty(),
            Option::Some(key) => match find_pair(ptab, key) {
                Option::None => Seq::<RunScoreRow>::empty(),
                Option::Some(pid) => seq![
                    RunScoreRow { run: rid as usize, player: pid as usize, score: cs[0].score },
                ],
            },
        };
        head + prs_rows_for(ptab, rid, cs.drop_first())
    }
}

/// The per-participant score rows of all heats.
pub open spec fn runs_scores_for(
    ptab: Seq<(Seq<char>, Seq<char>)>,
    rid0: int,
    runs: Seq<crate::game::RunV>,
) -> Seq<RunScoreRow>
    decreases runs.len(),
{
    if runs.len() == 0 {
        Seq::empty()
    } else {
        prs_rows_for(ptab, rid0, runs[0].player_score) + runs_scores_for(
            ptab,
            rid0 + 1,
            runs.drop_first(),
        )
    }
}

/// The store after the transactional load of one record against a
/// resolved store.
pub open spec fn load_spec(st: StoreV, g: GameInfoV) -> StoreV {
    StoreV {
        teams: st.teams,
        players: st.players,
        stadiums: st.stadiums,
        games: st.games.push(game_row_of(st, g)),
        player_scores: st.player_scores + player_rows_for(
            st.players,
            st.games.len() as int,
            g.team1.players + g.team2.players,
        ),
        runs: st.runs + run_rows_for(st.games.len() as int, st.runs.len() as int, g.runs),
        run_scores: st.run_scores + runs_scores_for(st.players, st.runs.len() as int, g.runs),
    }
}

/// The store after ingesting one record: resolution, which commits
/// on its own, then the transactional load.
pub open spec fn ingest_spec(st: StoreV, g: GameInfoV) -> StoreV {
    load_spec(resolve_spec(st, g), g)
}


/// Looks a name up without creating it.
fn find_name_exec(tab: &Vec<String>, key: &str) -> (r: Option<usize>)
    ensures
        match r {
            Option::Some(k) => find_name(tab@.map_values(|t: String| t@), key@) == Option::Some(
                k as int,
            ),
            Option::None => find_name(tab@.map_values(|t: String| t@), key@) is None,
        },
{
    let ghost tv = tab@.map_values(|t: String| t@);
    let n = tab.len();
    let mut i: usize = 0;
    proof {
        assert(tv.skip(0) =~= tv);
    }
    while i < n
        invariant
            i <= n == tab@.len(),
            tv == tab@.map_values(|t: String| t@),
            find_name(tv, key@) == (match find_name(tv.skip(i as int), key@) {
                Option::Some(k) => Option::Some(k + i),
                Option::None => Option::<int>::None,
            }),
        decreases n - i,
    {
        proof {
            assert(tv.skip(i as int)[0] == tv[i as int]);
            assert(tv[i as int] == tab@[i as int]@);
            assert(tv.skip(i as int).drop_first() =~= tv.skip(i + 1));
        }
        if str_eq(tab[i].as_str(), key) {
            proof {
                assert(find_name(tv.skip(i as int), key@) == Option::Some(0int));
            }
            return Some(i);
        }
        i = i + 1;
    }
    proof {
        assert(tv.skip(n as int) =~= Seq::<Seq<char>>::empty());
    }
    None
}

/// Looks a rider key up without creating it.
fn find_pair_exec(tab: &Vec<(String, String)>, name: &str, surname: &str) -> (r: Option<usize>)
    ensures
        match r {
            Option::Some(k) => find_pair(
                tab@.map_values(|p: (String, String)| (p.0@, p.1@)),
                (name@, surname@),
            ) == Option::Some(k as int),
            Option::None => find_pair(
                tab@.map_values(|p: (String, String)| (p.0@, p.1@)),
                (name@, surname@),
            ) is None,
        },
{
    let ghost tv = tab@.map_values(|p: (String, String)| (p.0@, p.1@));
    let ghost key = (name@, surname@);
    let n = tab.len();
    let mut i: usize = 0;
    proof {
        assert(tv.skip(0) =~= tv);
    }
    while i < n
        invariant
            i <= n == tab@.len(),
            key == (name@, surname@),
            tv == tab@.map_values(|p: (String, String)| (p.0@, p.1@)),
            find_pair(tv, key) == (match find_pair(tv.skip(i as int), key) {
                Option::Some(k) => Option::Some(k + i),
                Option::None => Option::<int>::None,
            }),
        decreases n - i,
    {
        proof {
            assert(tv.skip(i as int)[0] == tv[i as int]);
            assert(tv[i as int] == (tab@[i as int].0@, tab@[i as int].1@));
            assert(tv.skip(i as int).drop_first() =~= tv.skip(i + 1));
        }
        let pair = &tab[i];
        let c1 = str_eq(pair.0.as_str(), name);
        let c2 = str_eq(pair.1.as_str(), surname);
        if c1 && c2 {
            proof {
                assert(find_pair(tv.skip(i as int), key) == Option::Some(0int));
            }
            return Some(i);
        }
        i = i + 1;
    }
    proof {
        assert(tv.skip(n as int) =~= Seq::<(Seq<char>, Seq<char>)>::empty());
    }
    None
}

/// Splits a participant name at the first space of its trimmed
/// form, when there is one.
fn split_key(name: &str) -> (r: Option<(String, String)>)
    ensures
        match r {
            Option::Some(k) => participant_key(name@) == Option::Some((k.0@, k.1@)),
            Option::None => participant_key(name@) is None,
        },
{
    let v = chars_vec(name);
    let (a, b) = trim_range(&v);
    let ghost t = trimmed(name@);
    proof {
        assert(t =~= v@.subrange(a as int, b as int));
    }
    let mut j: usize = a;
    while j < b && v[j] != ' '
        invariant
            a <= j <= b <= v@.len(),
            forall|k: int| a <= k < j ==> v@[k] != ' ',
        decreases b - j,
    {
        j = j + 1;
    }
    proof {
        assert(forall|k: int| 0 <= k < j - a ==> t[k] != ' ');
        if j < b {
            assert(t[j - a] == v@[j as int]);
        }
        crate::text::lemma_prefix_to_run(t, ' ', j - a);
    }
    if j == b {
        proof {
            assert(!crate::game::name_splittable(name@));
        }
        return None;
    }
    let mut first: Vec<char> = Vec::new();
    let mut i: usize = a;
    while i < j
        invariant
            a <= i <= j <= v@.len(),
            first@ =~= v@.subrange(a as int, i as int),
        decreases j - i,
    {
        first.push(v[i]);
        i = i + 1;
    }
    let mut rest: Vec<char> = Vec::new();
    let mut i2: usize = j + 1;
    while i2 < b
        invariant
            j + 1 <= i2 <= b <= v@.len(),
            rest@ =~= v@.subrange((j + 1) as int, i2 as int),
        decreases b - i2,
    {
        rest.push(v[i2]);
        i2 = i2 + 1;
    }
    proof {
        assert(t.take(j - a) =~= v@.subrange(a as int, j as int));
        assert(t.skip(j - a + 1) =~= v@.subrange((j + 1) as int, b as int));
    }
    Some((string_from_chars(&first), string_from_chars(&rest)))
}

impl Store {
    /// Resolves all reference entities of one record: both teams,
    /// the venue, and every rider of both line-ups, each committed
    /// on its own; the match tables do not change.
    pub fn resolve_entities(&mut self, g: &GameInfo)
        ensures
            final(self)@ == resolve_spec(old(self)@, g@),
    {
        self.resolve_team(g.team1.name.as_str());
        self.resolve_team(g.team2.name.as_str());
        self.resolve_stadium(g.stadium.as_str());
        let ghost mid = self@.players;
        self.resolve_line_up(&g.team1.players);
        proof {
            assert(self@.players == resolve_players_spec(
                mid,
                g.team1.players@.map_values(|p: crate::game::Player| p@),
            ));
        }
        self.resolve_line_up(&g.team2.players);
        proof {
            assert(final(self)@ =~~= resolve_spec(old(self)@, g@));
        }
    }

    /// Resolves every rider of one line-up, in order.
    fn resolve_line_up(&mut self, ps: &Vec<crate::game::Player>)
        ensures
            final(self)@.players == resolve_players_spec(
                old(self)@.players,
                ps@.map_values(|p: crate::game::Player| p@),
            ),
            final(self)@.teams == old(self)@.teams,
            final(self)@.stadiums == old(self)@.stadiums,
            final(self)@.games == old(self)@.games,
            final(self)@.player_scores == old(self)@.player_scores,
            final(self)@.runs == old(self)@.runs,
            final(self)@.run_scores == old(self)@.run_scores,
    {
        let ghost pv = ps@.map_values(|p: crate::game::Player| p@);
        let n = ps.len();
        let mut i: usize = 0;
        proof {
            assert(pv.skip(0) =~= pv);
        }
        while i < n
            invariant
                i <= n == ps@.len(),
                pv == ps@.map_values(|p: crate::game::Player| p@),
                resolve_players_spec(old(self)@.players, pv) == resolve_players_spec(
                    self@.players,
                    pv.skip(i as int),
                ),
                self@.teams == old(self)@.teams,
                self@.stadiums == old(self)@.stadiums,
                self@.games == old(self)@.games,
                self@.player_scores == old(self)@.player_scores,
                self@.runs == old(self)@.runs,
                self@.run_scores == old(self)@.run_scores,
            decreases n - i,
        {
            proof {
                assert(pv.skip(i as int)[0] == pv[i as int]);
                assert(pv[i as int] == ps@[i as int]@);
                assert(pv.skip(i as int).drop_first() =~= pv.skip(i + 1));
            }
            let p = &ps[i];
            self.resolve_player(p.name.as_str(), p.surname.as_str());
            i = i + 1;
        }
        proof {
            assert(pv.skip(n as int) =~= Seq::<PlayerV>::empty());
        }
    }
}


/// Trims a string into an owned copy.
fn trim_owned(name: &str) -> (r: String)
    ensures
        r@ == trimmed(name@),
{
    let v = chars_vec(name);
    let (a, b) = trim_range(&v);
    let mut tv: Vec<char> = Vec::new();
    let mut i: usize = a;
    while i < b
        invariant
            a <= i <= b <= v@.len(),
            tv@ =~= v@.subrange(a as int, i as int),
        decreases b - i,
    {
        tv.push(v[i]);
        i = i + 1;
    }
    string_from_chars(&tv)
}

proof fn lemma_player_rows_concat(
    ptab: Seq<(Seq<char>, Seq<char>)>,
    gid: int,
    a: Seq<PlayerV>,
    b: Seq<PlayerV>,
)
    ensures
        player_rows_for(ptab, gid, a + b) =~= player_rows_for(ptab, gid, a) + player_rows_for(
            ptab,
            gid,
            b,
        ),
    decreases a.len(),
{
    if a.len() == 0 {
        assert(a + b =~= b);
        assert(player_rows_for(ptab, gid, a) =~= Seq::<PlayerScoreRow>::empty());
    } else {
        assert((a + b)[0] == a[0]);
        assert((a + b).drop_first() =~= a.drop_first() + b);
        lemma_player_rows_concat(ptab, gid, a.drop_first(), b);
    }
}

/// Collects one line-up's per-round score rows.
fn collect_player_rows(
    ptab: &Vec<(String, String)>,
    gid: usize,
    ps: &Vec<crate::game::Player>,
    out: &mut Vec<PlayerScoreRow>,
)
    requires
        forall|i: int|
            0 <= i < ps@.len() ==> find_pair(
                ptab@.map_values(|q: (String, String)| (q.0@, q.1@)),
                ((#[trigger] ps@[i]@).name, ps@[i]@.surname),
            ) is Some,
    ensures
        final(out)@ == old(out)@ + player_rows_for(
            ptab@.map_values(|q: (String, String)| (q.0@, q.1@)),
            gid as int,
            ps@.map_values(|p: crate::game::Player| p@),
        ),
{
    let ghost tv = ptab@.map_values(|q: (String, String)| (q.0@, q.1@));
    let ghost pv = ps@.map_values(|p: crate::game::Player| p@);
    let n = ps.len();
    let mut i: usize = 0;
    proof {
        assert(pv.skip(0) =~= pv);
        assert(old(out)@ + Seq::<PlayerScoreRow>::empty() =~= old(out)@);
    }
    while i < n
        invariant
            i <= n == ps@.len(),
            tv == ptab@.map_values(|q: (String, String)| (q.0@, q.1@)),
            pv == ps@.map_values(|p: crate::game::Player| p@),
            forall|k: int|
                0 <= k < ps@.len() ==> find_pair(tv, ((#[trigger] ps@[k]@).name, ps@[k]@.surname))
                    is Some,
            out@ + player_rows_for(tv, gid as int, pv.skip(i as int)) =~= old(out)@
                + player_rows_for(tv, gid as int, pv),
        decreases n - i,
    {
        proof {
            assert(pv.skip(i as int)[0] == pv[i as int]);
            assert(pv[i as int] == ps@[i as int]@);
            assert(pv.skip(i as int).drop_first() =~= pv.skip(i + 1));
        }
        let p = &ps[i];
        let is_sent = eq_nocase_lit(&chars_vec(p.name.as_str()), "Brak") && eq_nocase_lit(
            &chars_vec(p.surname.as_str()),
            "zawodnika",
        );
        if !is_sent {
            let pid = match find_pair_exec(ptab, p.name.as_str(), p.surname.as_str()) {
                Some(k) => k,
                None => {
                    proof {
                        assert(false);
                    }
                    0
                },
            };
            let ghost before_scores = out@;
            let m = p.scores.len();
            let mut r: usize = 0;
            proof {
                assert(p@.scores.skip(0) =~= p@.scores);
            }
            while r < m
                invariant
                    r <= m == p@.scores.len(),
                    out@ + score_rows_for(gid as int, pid as int, p@.scores.skip(r as int), r as int)
                        =~= before_scores + score_rows_for(
                        gid as int,
                        pid as int,
                        p@.scores,
                        0,
                    ),
                decreases m - r,
            {
                proof {
                    assert(p@.scores.skip(r as int)[0] == p@.scores[r as int]);
                    assert(p@.scores.skip(r as int).drop_first() =~= p@.scores.skip(r + 1));
                }
                out.push(
                    PlayerScoreRow { game: gid, player: pid, round: r, score: p.scores[r] },
                );
                r = r + 1;
            }
            proof {
                assert(p@.scores.skip(m as int) =~= Seq::<PlayerResult>::empty());
                assert(out@ =~= before_scores + score_rows_for(
                    gid as int,
                    pid as int,
                    p@.scores,
                    0,
                ));
                assert(pair_id(tv, (pv[i as int].name, pv[i as int].surname)) == pid as int);
            }
        }
        proof {
            assert(!is_sent <==> !sentinel(pv[i as int]));
        }
        i = i + 1;
    }
    proof {
        assert(pv.skip(n as int) =~= Seq::<PlayerV>::empty());
        assert(out@ =~= out@ + player_rows_for(tv, gid as int, pv.skip(n as int)));
    }
}


/// Collects the heat rows of one record.
fn collect_run_rows(gid: usize, rid0: usize, runs: &Vec<crate::game::Run>, out: &mut Vec<RunRow>)
    ensures
        final(out)@ == old(out)@ + run_rows_for(
            gid as int,
            rid0 as int,
            runs@.map_values(|x: crate::game::Run| x@),
        ),
{
    let ghost rv = runs@.map_values(|x: crate::game::Run| x@);
    let n = runs.len();
    let mut i: usize = 0;
    proof {
        assert(rv.skip(0) =~= rv);
        assert(old(out)@ + Seq::<RunRow>::empty() =~= old(out)@);
    }
    while i < n
        invariant
            i <= n == runs@.len(),
            rv == runs@.map_values(|x: crate::game::Run| x@),
            out@ + run_rows_for(gid as int, rid0 + i, rv.skip(i as int)) =~= old(out)@
                + run_rows_for(gid as int, rid0 as int, rv),
        decreases n - i,
    {
        proof {
            assert(rv.skip(i as int)[0] == rv[i as int]);
            assert(rv[i as int] == runs@[i as int]@);
            assert(rv.skip(i as int).drop_first() =~= rv.skip(i + 1));
        }
        let run = &runs[i];
        out.push(RunRow { game: gid, position: run.number, time: run.time });
        i = i + 1;
    }
    proof {
        assert(rv.skip(n as int) =~= Seq::<crate::game::RunV>::empty());
        assert(out@ =~= out@ + run_rows_for(gid as int, rid0 + n, rv.skip(n as int)));
    }
}

/// Collects the per-participant score rows of all heats.
fn collect_run_scores(
    ptab: &Vec<(String, String)>,
    rid0: usize,
    runs: &Vec<crate::game::Run>,
    out: &mut Vec<RunScoreRow>,
)
    requires
        rid0 + runs@.len() <= usize::MAX,
    ensures
        final(out)@ == old(out)@ + runs_scores_for(
            ptab@.map_values(|q: (String, String)| (q.0@, q.1@)),
            rid0 as int,
            runs@.map_values(|x: crate::game::Run| x@),
        ),
{
    let ghost tv = ptab@.map_values(|q: (String, String)| (q.0@, q.1@));
    let ghost rv = runs@.map_values(|x: crate::game::Run| x@);
    let n = runs.len();
    let mut i: usize = 0;
    proof {
        assert(rv.skip(0) =~= rv);
        assert(old(out)@ + Seq::<RunScoreRow>::empty() =~= old(out)@);
    }
    while i < n
        invariant
            i <= n == runs@.len(),
            rid0 + n <= usize::MAX,
            tv == ptab@.map_values(|q: (String, String)| (q.0@, q.1@)),
            rv == runs@.map_values(|x: crate::game::Run| x@),
            out@ + runs_scores_for(tv, rid0 + i, rv.skip(i as int)) =~= old(out)@
                + runs_scores_for(tv, rid0 as int, rv),
        decreases n - i,
    {
        proof {
            assert(rv.skip(i as int)[0] == rv[i as int]);
            assert(rv[i as int] == runs@[i as int]@);
            assert(rv.skip(i as int).drop_first() =~= rv.skip(i + 1));
        }
        let run = &runs[i];
        let rid = rid0 + i;
        let ghost cs = rv[i as int].player_score;
        let ghost before = out@;
        let m = run.player_score.len();
        let mut c: usize = 0;
        proof {
            assert(cs.skip(0) =~= cs);
            assert(before + Seq::<RunScoreRow>::empty() =~= before);
        }
        while c < m
            invariant
                c <= m == run.player_score@.len(),
                tv == ptab@.map_values(|q: (String, String)| (q.0@, q.1@)),
                cs == run.player_score@.map_values(|x: crate::game::PlayerRunScore| x@),
                m == cs.len(),
                out@ + prs_rows_for(tv, rid as int, cs.skip(c as int)) =~= before + prs_rows_for(
                    tv,
                    rid as int,
                    cs,
                ),
            decreases m - c,
        {
            proof {
                assert(cs.skip(c as int)[0] == cs[c as int]);
                assert(cs[c as int] == run.player_score@[c as int]@);
                assert(cs.skip(c as int).drop_first() =~= cs.skip(c + 1));
            }
            let entry = &run.player_score[c];
            match split_key(entry.name.as_str()) {
                None => {},
                Some((first, last)) => {
                    match find_pair_exec(ptab, first.as_str(), last.as_str()) {
                        None => {},
                        Some(pid) => {
                            out.push(RunScoreRow { run: rid, player: pid, score: entry.score });
                        },
                    }
                },
            }
            c = c + 1;
        }
        proof {
            assert(cs.skip(m as int) =~= Seq::<crate::game::PlayerRunScoreV>::empty());
            assert(out@ =~= before + prs_rows_for(tv, rid as int, cs));
            assert(rv[i as int].player_score == cs);
        }
        i = i + 1;
    }
    proof {
        assert(rv.skip(n as int) =~= Seq::<crate::game::RunV>::empty());
        assert(out@ =~= out@ + runs_scores_for(tv, rid0 + n, rv.skip(n as int)));
    }
}

/// The number of row inserts the transactional load of one record
/// makes against a resolved store.
pub open spec fn total_inserts(st: StoreV, g: GameInfoV) -> int {
    1 + player_rows_for(
        st.players,
        st.games.len() as int,
        g.team1.players + g.team2.players,
    ).len() as int + g.runs.len() as int + runs_scores_for(
        st.players,
        st.runs.len() as int,
        g.runs,
    ).len() as int
}

impl Store {
    /// The transactional load of one record against a store whose
    /// reference entities are resolved.  `fail_at` injects a
    /// failure: when it names an insert below the record's total,
    /// the transaction aborts, and the store is exactly as before —
    /// no match, heat or score row of the record persists.
    pub fn load_match(&mut self, g: &GameInfo, fail_at: Option<usize>) -> (ok: bool)
        requires
            find_name(old(self)@.teams, trimmed(g@.team1.name)) is Some,
            find_name(old(self)@.teams, trimmed(g@.team2.name)) is Some,
            find_name(old(self)@.stadiums, g@.stadium) is Some,
            forall|i: int|
                0 <= i < g@.team1.players.len() ==> find_pair(
                    old(self)@.players,
                    ((#[trigger] g@.team1.players[i]).name, g@.team1.players[i].surname),
                ) is Some,
            forall|i: int|
                0 <= i < g@.team2.players.len() ==> find_pair(
                    old(self)@.players,
                    ((#[trigger] g@.team2.players[i]).name, g@.team2.players[i].surname),
                ) is Some,
            old(self)@.runs.len() + g@.runs.len() <= usize::MAX,
        ensures
            ok == (match fail_at {
                Option::None => true,
                Option::Some(k) => k >= total_inserts(old(self)@, g@),
            }),
            !ok ==> final(self)@ == old(self)@,
            ok ==> final(self)@ == load_spec(old(self)@, g@),
    {
        let t1 = trim_owned(g.team1.name.as_str());
        let t2 = trim_owned(g.team2.name.as_str());
        let id1 = match find_name_exec(&self.teams, t1.as_str()) {
            Some(k) => k,
            None => {
                proof {
                    assert(false);
                }
                0
            },
        };
        let id2 = match find_name_exec(&self.teams, t2.as_str()) {
            Some(k) => k,
            None => {
                proof {
                    assert(false);
                }
                0
            },
        };
        let sid = match find_name_exec(&self.stadiums, g.stadium.as_str()) {
            Some(k) => k,
            None => {
                proof {
                    assert(false);
                }
                0
            },
        };
        let gid = self.games.len();
        let row = GameRow {
            team1: id1,
            score1: g.team1.points,
            score2: g.team2.points,
            team2: id2,
            stadium: sid,
            date: g.date,
        };
        proof {
            assert(row == game_row_of(self@, g@));
        }
        let mut prows: Vec<PlayerScoreRow> = Vec::new();
        proof {
            assert forall|i: int| 0 <= i < g.team1.players@.len() implies find_pair(
                self.players@.map_values(|q: (String, String)| (q.0@, q.1@)),
                ((#[trigger] g.team1.players@[i]@).name, g.team1.players@[i]@.surname),
            ) is Some by {
                assert(g.team1.players@[i]@ == g@.team1.players[i]);
            }
            assert forall|i: int| 0 <= i < g.team2.players@.len() implies find_pair(
                self.players@.map_values(|q: (String, String)| (q.0@, q.1@)),
                ((#[trigger] g.team2.players@[i]@).name, g.team2.players@[i]@.surname),
            ) is Some by {
                assert(g.team2.players@[i]@ == g@.team2.players[i]);
            }
        }
        collect_player_rows(&self.players, gid, &g.team1.players, &mut prows);
        collect_player_rows(&self.players, gid, &g.team2.players, &mut prows);
        proof {
            lemma_player_rows_concat(
                self@.players,
                gid as int,
                g@.team1.players,
                g@.team2.players,
            );
            assert(prows@ =~= player_rows_for(
                self@.players,
                gid as int,
                g@.team1.players + g@.team2.players,
            ));
        }
        let rid0 = self.runs.len();
        let mut rrows: Vec<RunRow> = Vec::new();
        collect_run_rows(gid, rid0, &g.runs, &mut rrows);
        let mut srows: Vec<RunScoreRow> = Vec::new();
        collect_run_scores(&self.players, rid0, &g.runs, &mut srows);
        proof {
            lemma_run_rows_len(gid as int, rid0 as int, g@.runs);
        }
        let ok: bool = match fail_at {
            None => true,
            Some(k) => {
                if k < 1 {
                    false
                } else if k - 1 < prows.len() {
                    false
                } else if k - 1 - prows.len() < rrows.len() {
                    false
                } else if k - 1 - prows.len() - rrows.len() < srows.len() {
                    false
                } else {
                    true
                }
            },
        };
        if !ok {
            return false;
        }
        self.games.push(row);
        let ghost base_ps = self.player_scores@;
        let np = prows.len();
        let mut i: usize = 0;
        while i < np
            invariant
                i <= np == prows@.len(),
                self.player_scores@ =~= base_ps + prows@.take(i as int),
                self.teams == old(self).teams,
                self.players == old(self).players,
                self.stadiums == old(self).stadiums,
                self.games@ == old(self).games@.push(row),
                self.runs == old(self).runs,
                self.run_scores == old(self).run_scores,
                row == game_row_of(old(self)@, g@),
                base_ps == old(self).player_scores@,
            decreases np - i,
        {
            proof {
                assert(prows@.take(i + 1).drop_last() =~= prows@.take(i as int));
            }
            self.player_scores.push(prows[i]);
            i = i + 1;
        }
        let ghost final_ps = self.player_scores;
        let ghost base_r = self.runs@;
        let nr = rrows.len();
        let mut i2: usize = 0;
        while i2 < nr
            invariant
                i2 <= nr == rrows@.len(),
                self.runs@ =~= base_r + rrows@.take(i2 as int),
                self.teams == old(self).teams,
                self.players == old(self).players,
                self.stadiums == old(self).stadiums,
                self.games@ == old(self).games@.push(row),
                self.player_scores == final_ps,
                self.run_scores == old(self).run_scores,
                row == game_row_of(old(self)@, g@),
                base_r == old(self).runs@,
            decreases nr - i2,
        {
            proof {
                assert(rrows@.take(i2 + 1).drop_last() =~= rrows@.take(i2 as int));
            }
            self.runs.push(rrows[i2]);
            i2 = i2 + 1;
        }
        let ghost final_r = self.runs;
        let ghost base_s = self.run_scores@;
        let ns = srows.len();
        let mut i3: usize = 0;
        while i3 < ns
            invariant
                i3 <= ns == srows@.len(),
                self.run_scores@ =~= base_s + srows@.take(i3 as int),
                self.teams == old(self).teams,
                self.players == old(self).players,
                self.stadiums == old(self).stadiums,
                self.games@ == old(self).games@.push(row),
                self.player_scores == final_ps,
                self.runs == final_r,
                row == game_row_of(old(self)@, g@),
                base_s == old(self).run_scores@,
            decreases ns - i3,
        {
            proof {
                assert(srows@.take(i3 + 1).drop_last() =~= srows@.take(i3 as int));
            }
            self.run_scores.push(srows[i3]);
            i3 = i3 + 1;
        }
        proof {
            assert(prows@.take(np as int) =~= prows@);
            assert(rrows@.take(nr as int) =~= rrows@);
            assert(srows@.take(ns as int) =~= srows@);
            assert(self@.teams =~= old(self)@.teams);
            assert(self@.players =~= old(self)@.players);
            assert(self@.stadiums =~= old(self)@.stadiums);
            assert(self@.games =~= old(self)@.games.push(game_row_of(old(self)@, g@)));
            assert(self@.player_scores =~= old(self)@.player_scores + player_rows_for(
                old(self)@.players,
                old(self)@.games.len() as int,
                g@.team1.players + g@.team2.players,
            ));
            assert(self@.runs =~= old(self)@.runs + run_rows_for(
                old(self)@.games.len() as int,
                old(self)@.runs.len() as int,
                g@.runs,
            ));
            assert(self@.run_scores =~= old(self)@.run_scores + runs_scores_for(
                old(self)@.players,
                old(self)@.runs.len() as int,
                g@.runs,
            ));
            assert(final(self)@ =~~= load_spec(old(self)@, g@));
        }
        true
    }
}

proof fn lemma_run_rows_len(gid: int, rid0: int, runs: Seq<crate::game::RunV>)
    ensures
        run_rows_for(gid, rid0, runs).len() == runs.len(),
    decreases runs.len(),
{
    if runs.len() > 0 {
        lemma_run_rows_len(gid, rid0 + 1, runs.drop_first());
    }
}


proof fn lemma_find_name_preserved(tab: Seq<Seq<char>>, other: Seq<char>, key: Seq<char>)
    requires
        find_name(tab, key) is Some,
    ensures
        find_name(resolve_name_spec(tab, other), key) == find_name(tab, key),
{
    if find_name(tab, other) is None {
        lemma_find_name_push(tab, other, key);
    }
}

proof fn lemma_find_pair_preserved(
    tab: Seq<(Seq<char>, Seq<char>)>,
    other: (Seq<char>, Seq<char>),
    key: (Seq<char>, Seq<char>),
)
    requires
        find_pair(tab, key) is Some,
    ensures
        find_pair(resolve_pair_spec(tab, other), key) == find_pair(tab, key),
{
    if find_pair(tab, other) is None {
        lemma_find_pair_push(tab, other, key);
    }
}

proof fn lemma_find_pair_preserved_by_line(
    tab: Seq<(Seq<char>, Seq<char>)>,
    ps: Seq<PlayerV>,
    key: (Seq<char>, Seq<char>),
)
    requires
        find_pair(tab, key) is Some,
    ensures
        find_pair(resolve_players_spec(tab, ps), key) == find_pair(tab, key),
    decreases ps.len(),
{
    if ps.len() > 0 {
        lemma_find_pair_preserved(tab, (ps[0].name, ps[0].surname), key);
        lemma_find_pair_preserved_by_line(
            resolve_pair_spec(tab, (ps[0].name, ps[0].surname)),
            ps.drop_first(),
            key,
        );
    }
}

/// After a line-up is resolved, every one of its riders is stored.
proof fn lemma_line_present(tab: Seq<(Seq<char>, Seq<char>)>, ps: Seq<PlayerV>)
    ensures
        forall|i: int|
            0 <= i < ps.len() ==> find_pair(
                resolve_players_spec(tab, ps),
                ((#[trigger] ps[i]).name, ps[i].surname),
            ) is Some,
    decreases ps.len(),
{
    if ps.len() > 0 {
        let k0 = (ps[0].name, ps[0].surname);
        let tab1 = resolve_pair_spec(tab, k0);
        lemma_find_after_resolve_pair(tab, k0);
        lemma_find_pair_preserved_by_line(tab1, ps.drop_first(), k0);
        lemma_line_present(tab1, ps.drop_first());
        assert forall|i: int| 0 <= i < ps.len() implies find_pair(
            resolve_players_spec(tab, ps),
            ((#[trigger] ps[i]).name, ps[i].surname),
        ) is Some by {
            if i > 0 {
                assert(ps.drop_first()[i - 1] == ps[i]);
            }
        }
    }
}

/// A line-up whose riders are all stored resolves to the unchanged
/// table.
proof fn lemma_resolve_line_noop(tab: Seq<(Seq<char>, Seq<char>)>, ps: Seq<PlayerV>)
    requires
        forall|i: int|
            0 <= i < ps.len() ==> find_pair(tab, ((#[trigger] ps[i]).name, ps[i].surname))
                is Some,
    ensures
        resolve_players_spec(tab, ps) == tab,
    decreases ps.len(),
{
    if ps.len() > 0 {
        assert(find_pair(tab, (ps[0].name, ps[0].surname)) is Some);
        assert(resolve_pair_spec(tab, (ps[0].name, ps[0].surname)) == tab);
        assert(forall|i: int|
            0 <= i < ps.drop_first().len() ==> (#[trigger] ps.drop_first()[i]) == ps[i + 1]);
        lemma_resolve_line_noop(tab, ps.drop_first());
    }
}

impl Store {
    /// Ingests one record: resolves its reference entities, each
    /// committed on its own, then loads the match inside one
    /// transaction.
    pub fn ingest(&mut self, g: &GameInfo) -> (ok: bool)
        requires
            old(self)@.runs.len() + g@.runs.len() <= usize::MAX,
        ensures
            ok,
            final(self)@ == ingest_spec(old(self)@, g@),
    {
        self.resolve_entities(g);
        proof {
            let st = old(self)@;
            let gv = g@;
            let n1 = trimmed(gv.team1.name);
            let n2 = trimmed(gv.team2.name);
            lemma_find_after_resolve_name(st.teams, n1);
            lemma_find_name_preserved(resolve_name_spec(st.teams, n1), n2, n1);
            lemma_find_after_resolve_name(resolve_name_spec(st.teams, n1), n2);
            lemma_find_after_resolve_name(st.stadiums, gv.stadium);
            let ptab1 = resolve_players_spec(st.players, gv.team1.players);
            let ptab2 = resolve_players_spec(ptab1, gv.team2.players);
            lemma_line_present(st.players, gv.team1.players);
            assert forall|i: int| 0 <= i < gv.team1.players.len() implies find_pair(
                ptab2,
                ((#[trigger] gv.team1.players[i]).name, gv.team1.players[i].surname),
            ) is Some by {
                lemma_find_pair_preserved_by_line(
                    ptab1,
                    gv.team2.players,
                    (gv.team1.players[i].name, gv.team1.players[i].surname),
                );
            }
            lemma_line_present(ptab1, gv.team2.players);
        }
        let ok = self.load_match(g, None);
        ok
    }
}

/// Ingesting the identical record a second time reuses every
/// reference row — no team, rider or venue is duplicated — while a
/// second match row is stored, there being no match-level
/// idempotency key.
pub proof fn lemma_reingest_reuses_references(st: StoreV, g: GameInfoV)
    ensures
        ingest_spec(ingest_spec(st, g), g).teams == ingest_spec(st, g).teams,
        ingest_spec(ingest_spec(st, g), g).players == ingest_spec(st, g).players,
        ingest_spec(ingest_spec(st, g), g).stadiums == ingest_spec(st, g).stadiums,
        ingest_spec(ingest_spec(st, g), g).games.len() == ingest_spec(st, g).games.len() + 1,
{
    let st1 = ingest_spec(st, g);
    let n1 = trimmed(g.team1.name);
    let n2 = trimmed(g.team2.name);
    let t1tab = resolve_name_spec(st.teams, n1);
    let ttab = resolve_name_spec(t1tab, n2);
    assert(st1.teams == ttab);
    lemma_find_after_resolve_name(st.teams, n1);
    lemma_find_name_preserved(t1tab, n2, n1);
    lemma_find_after_resolve_name(t1tab, n2);
    assert(find_name(ttab, n1) is Some);
    assert(find_name(ttab, n2) is Some);
    assert(resolve_name_spec(ttab, n1) == ttab);
    assert(resolve_name_spec(resolve_name_spec(ttab, n1), n2) == ttab);
    lemma_find_after_resolve_name(st.stadiums, g.stadium);
    assert(resolve_name_spec(st1.stadiums, g.stadium) == st1.stadiums);
    let ptab1 = resolve_players_spec(st.players, g.team1.players);
    let ptab = resolve_players_spec(ptab1, g.team2.players);
    assert(st1.players == ptab);
    lemma_line_present(st.players, g.team1.players);
    assert forall|i: int| 0 <= i < g.team1.players.len() implies find_pair(
        ptab,
        ((#[trigger] g.team1.players[i]).name, g.team1.players[i].surname),
    ) is Some by {
        lemma_find_pair_preserved_by_line(
            ptab1,
            g.team2.players,
            (g.team1.players[i].name, g.team1.players[i].surname),
        );
    }
    lemma_line_present(ptab1, g.team2.players);
    lemma_resolve_line_noop(ptab, g.team1.players);
    lemma_resolve_line_noop(resolve_players_spec(ptab, g.team1.players), g.team2.players);
}


/// Where the find-or-create protocol stands for one key.
#[derive(Debug, Clone, Copy, PartialEq, Eq, Structural)]
pub enum ResolvePhase {
    Selecting,
    Inserting,
    Reselecting,
}

/// What one database call of the protocol came back with.
#[derive(Debug, Clone, Copy, PartialEq, Eq, Structural)]
pub enum DbOutcome {
    Row(i64),
    NoRow,
    UniqueViolation,
    OtherError,
}

/// What the protocol does next.
#[derive(Debug, Clone, Copy, PartialEq, Eq, Structural)]
pub enum ResolveAction {
    Insert,
    Reselect,
    Done(i64),
    GiveUp,
}

/// The find-or-create protocol: select by natural key; insert on a
/// miss; when the insert loses a creation race to a concurrent
/// resolver — a uniqueness violation — select again and take the
/// now-existing row; any other error gives up on the record.
pub open spec fn resolve_transition(phase: ResolvePhase, outcome: DbOutcome) -> (
    ResolveAction,
    ResolvePhase,
) {
    match (phase, outcome) {
        (ResolvePhase::Selecting, DbOutcome::Row(id)) => (
            ResolveAction::Done(id),
            ResolvePhase::Selecting,
        ),
        (ResolvePhase::Selecting, DbOutcome::NoRow) => (
            ResolveAction::Insert,
            ResolvePhase::Inserting,
        ),
        (ResolvePhase::Inserting, DbOutcome::Row(id)) => (
            ResolveAction::Done(id),
            ResolvePhase::Inserting,
        ),
        (ResolvePhase::Inserting, DbOutcome::UniqueViolation) => (
            ResolveAction::Reselect,
            ResolvePhase::Reselecting,
        ),
        (ResolvePhase::Reselecting, DbOutcome::Row(id)) => (
            ResolveAction::Done(id),
            ResolvePhase::Reselecting,
        ),
        (p, _) => (ResolveAction::GiveUp, p),
    }
}

/// Executable form of [`resolve_transition`], for the loop that
/// drives the real store.
pub fn next_resolve_action(phase: ResolvePhase, outcome: DbOutcome) -> (r: (
    ResolveAction,
    ResolvePhase,
))
    ensures
        r == resolve_transition(phase, outcome),
{
    match (phase, outcome) {
        (ResolvePhase::Selecting, DbOutcome::Row(id)) => (
            ResolveAction::Done(id),
            ResolvePhase::Selecting,
        ),
        (ResolvePhase::Selecting, DbOutcome::NoRow) => (
            ResolveAction::Insert,
            ResolvePhase::Inserting,
        ),
        (ResolvePhase::Inserting, DbOutcome::Row(id)) => (
            ResolveAction::Done(id),
            ResolvePhase::Inserting,
        ),
        (ResolvePhase::Inserting, DbOutcome::UniqueViolation) => (
            ResolveAction::Reselect,
            ResolvePhase::Reselecting,
        ),
        (ResolvePhase::Reselecting, DbOutcome::Row(id)) => (
            ResolveAction::Done(id),
            ResolvePhase::Reselecting,
        ),
        (p, _) => (ResolveAction::GiveUp, p),
    }
}


/// The number of heat participants of a record.
pub open spec fn participants_total(runs: Seq<crate::game::RunV>) -> int
    decreases runs.len(),
{
    if runs.len() == 0 {
        0
    } else {
        runs[0].player_score.len() + participants_total(runs.drop_first())
    }
}

/// The number of score cells of a line-up, the sentinel entry left
/// out.
pub open spec fn score_cells_total(ps: Seq<PlayerV>) -> int
    decreases ps.len(),
{
    if ps.len() == 0 {
        0
    } else {
        (if sentinel(ps[0]) {
            0int
        } else {
            ps[0].scores.len() as int
        }) + score_cells_total(ps.drop_first())
    }
}

proof fn lemma_score_rows_len(gid: int, pid: int, scores: Seq<PlayerResult>, round: int)
    ensures
        score_rows_for(gid, pid, scores, round).len() == scores.len(),
    decreases scores.len(),
{
    if scores.len() > 0 {
        lemma_score_rows_len(gid, pid, scores.drop_first(), round + 1);
    }
}

proof fn lemma_player_rows_len(ptab: Seq<(Seq<char>, Seq<char>)>, gid: int, ps: Seq<PlayerV>)
    ensures
        player_rows_for(ptab, gid, ps).len() == score_cells_total(ps),
    decreases ps.len(),
{
    if ps.len() > 0 {
        if !sentinel(ps[0]) {
            lemma_score_rows_len(
                gid,
                pair_id(ptab, (ps[0].name, ps[0].surname)),
                ps[0].scores,
                0,
            );
        }
        lemma_player_rows_len(ptab, gid, ps.drop_first());
    }
}

proof fn lemma_prs_rows_full(
    ptab: Seq<(Seq<char>, Seq<char>)>,
    rid: int,
    cs: Seq<crate::game::PlayerRunScoreV>,
)
    requires
        forall|i: int|
            0 <= i < cs.len() ==> (participant_key((#[trigger] cs[i]).name) is Some && find_pair(
                ptab,
                participant_key(cs[i].name)->0,
            ) is Some),
    ensures
        prs_rows_for(ptab, rid, cs).len() == cs.len(),
    decreases cs.len(),
{
    if cs.len() > 0 {
        assert(forall|i: int|
            0 <= i < cs.drop_first().len() ==> (#[trigger] cs.drop_first()[i]) == cs[i + 1]);
        lemma_prs_rows_full(ptab, rid, cs.drop_first());
    }
}

proof fn lemma_runs_scores_full(
    ptab: Seq<(Seq<char>, Seq<char>)>,
    rid0: int,
    runs: Seq<crate::game::RunV>,
)
    requires
        forall|k: int, i: int|
            0 <= k < runs.len() && 0 <= i < (#[trigger] runs[k]).player_score.len() ==> (
            participant_key((#[trigger] runs[k].player_score[i]).name) is Some && find_pair(
                ptab,
                participant_key(runs[k].player_score[i].name)->0,
            ) is Some),
    ensures
        runs_scores_for(ptab, rid0, runs).len() == participants_total(runs),
    decreases runs.len(),
{
    if runs.len() > 0 {
        assert forall|i: int| 0 <= i < runs[0].player_score.len() implies (participant_key(
            (#[trigger] runs[0].player_score[i]).name,
        ) is Some && find_pair(ptab, participant_key(runs[0].player_score[i].name)->0)
            is Some) by {
            assert(runs[0].player_score[i] == runs[0].player_score[i]);
        }
        lemma_prs_rows_full(ptab, rid0, runs[0].player_score);
        assert(forall|k: int|
            0 <= k < runs.drop_first().len() ==> (#[trigger] runs.drop_first()[k]) == runs[k
                + 1]);
        lemma_runs_scores_full(ptab, rid0 + 1, runs.drop_first());
    }
}

/// Loading one record against a resolved store stores exactly one
/// match row, one heat row per heat, one score row per score cell
/// of the line-ups, and — when every participant's name splits into
/// a stored rider key — one score row per heat participant; the
/// reference tables do not change.
pub proof fn lemma_load_counts(st: StoreV, g: GameInfoV)
    requires
        forall|k: int, i: int|
            0 <= k < g.runs.len() && 0 <= i < (#[trigger] g.runs[k]).player_score.len() ==> (
            participant_key((#[trigger] g.runs[k].player_score[i]).name) is Some && find_pair(
                st.players,
                participant_key(g.runs[k].player_score[i].name)->0,
            ) is Some),
    ensures
        load_spec(st, g).teams == st.teams,
        load_spec(st, g).players == st.players,
        load_spec(st, g).stadiums == st.stadiums,
        load_spec(st, g).games.len() == st.games.len() + 1,
        load_spec(st, g).runs.len() == st.runs.len() + g.runs.len(),
        load_spec(st, g).player_scores.len() == st.player_scores.len() + score_cells_total(
            g.team1.players + g.team2.players,
        ),
        load_spec(st, g).run_scores.len() == st.run_scores.len() + participants_total(g.runs),
{
    lemma_run_rows_len(st.games.len() as int, st.runs.len() as int, g.runs);
    lemma_player_rows_len(
        st.players,
        st.games.len() as int,
        g.team1.players + g.team2.players,
    );
    lemma_runs_scores_full(st.players, st.runs.len() as int, g.runs);
}


proof fn lemma_resolve_players_bound(tab: Seq<(Seq<char>, Seq<char>)>, ps: Seq<PlayerV>)
    ensures
        resolve_players_spec(tab, ps).len() <= tab.len() + ps.len(),
    decreases ps.len(),
{
    if ps.len() > 0 {
        lemma_resolve_players_bound(
            resolve_pair_spec(tab, (ps[0].name, ps[0].surname)),
            ps.drop_first(),
        );
    }
}

/// Resolving one record's reference entities stores at most one row
/// per team, venue and rider, and exactly two team rows and one
/// venue row when the store was empty and the team names differ;
/// the match tables do not change.
pub proof fn lemma_resolve_counts(st: StoreV, g: GameInfoV)
    ensures
        resolve_spec(st, g).teams.len() <= st.teams.len() + 2,
        resolve_spec(st, g).stadiums.len() <= st.stadiums.len() + 1,
        resolve_spec(st, g).players.len() <= st.players.len() + g.team1.players.len()
            + g.team2.players.len(),
        st.teams.len() == 0 && trimmed(g.team1.name) != trimmed(g.team2.name) ==> resolve_spec(
            st,
            g,
        ).teams.len() == 2,
        st.stadiums.len() == 0 ==> resolve_spec(st, g).stadiums.len() == 1,
{
    let n1 = trimmed(g.team1.name);
    let n2 = trimmed(g.team2.name);
    lemma_resolve_players_bound(st.players, g.team1.players);
    lemma_resolve_players_bound(
        resolve_players_spec(st.players, g.team1.players),
        g.team2.players,
    );
    if st.teams.len() == 0 && n1 != n2 {
        let t1 = resolve_name_spec(st.teams, n1);
        assert(find_name(st.teams, n1) is None);
        assert(t1 =~= st.teams.push(n1));
        assert(t1.len() == 1);
        assert(t1[0] == n1);
        assert(t1.drop_first() =~= Seq::<Seq<char>>::empty());
        assert(find_name(t1.drop_first(), n2) is None);
        assert(t1[0] != n2);
        assert(find_name(t1, n2) is None);
    }
}

} // verus!
