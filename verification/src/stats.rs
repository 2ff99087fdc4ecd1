//! Aggregate statistics over the match set: win rates, season
//! appearances, goal averages and the largest winning margin, each
//! parameterized by a team and/or a list of seasons. All of them are
//! pure scans of the record list.

use vstd::prelude::*;
use crate::count::{
    appearance_count, appearance_pred, count_where, games_in_season, lemma_count_le_len,
    lemma_count_pos, lemma_count_push, lemma_sum_prefix_le, lemma_sum_push,
    lemma_wins_le_appearances, goals_fn, plays_in, season_pred, season_goals, sum_where,
    win_count, win_pred, wins_game,
};
use crate::game::{ErrorKind, Game, MyError, Outcome};
use crate::rate::{GoalAvg, Rate};

verus! {

/// Whether a list of seasons holds the given one.
pub fn contains_season(seasons: &Vec<usize>, season: usize) -> (b: bool)
    ensures
        b == seasons@.contains(season),
{
    let n = seasons.len();
    let mut i: usize = 0;
    while i < n
        invariant
            0 <= i <= n,
            n == seasons@.len(),
            forall|k: int| 0 <= k < i ==> #[trigger] seasons@[k] != season,
        decreases n - i,
    {
        if seasons[i] == season {
            return true;
        }
        i = i + 1;
    }
    false
}

/// Whether a list of team names holds the given one, by exact match.
pub fn contains_team(teams: &Vec<String>, team: &String) -> (b: bool)
    ensures
        b == (exists|k: int| 0 <= k < teams@.len() && #[trigger] teams@[k]@ == team@),
{
    let n = teams.len();
    let mut i: usize = 0;
    while i < n
        invariant
            0 <= i <= n,
            n == teams@.len(),
            forall|k: int| 0 <= k < i ==> #[trigger] teams@[k]@ != team@,
        decreases n - i,
    {
        if teams[i] == *team {
            return true;
        }
        i = i + 1;
    }
    false
}

/// The share of games `team` won among the games it played across the
/// given seasons, as the exact pair of counts. A game counts once
/// however often its season is listed. Fails when the team made no
/// appearance in those seasons, rather than dividing by zero.
pub fn team_win_rate(games: &Vec<Game>, team: &String, seasons: &Vec<usize>) -> (r: Result<
    Rate,
    MyError,
>)
    ensures
        r is Ok <==> appearance_count(games@, team@, seasons@) > 0,
        r matches Ok(rate) ==> ({
            &&& rate.count == win_count(games@, team@, seasons@)
            &&& rate.total == appearance_count(games@, team@, seasons@)
            &&& rate.count <= rate.total
            &&& 0 < rate.total
        }),
        r matches Err(e) ==> e.kind == ErrorKind::NoMatchingGames,
{
    let n = games.len();
    let mut wins: usize = 0;
    let mut apps: usize = 0;
    let mut i: usize = 0;
    while i < n
        invariant
            0 <= i <= n,
            n == games@.len(),
            wins == count_where(games@.subrange(0, i as int), win_pred(team@, seasons@)),
            apps == count_where(games@.subrange(0, i as int), appearance_pred(team@, seasons@)),
        decreases n - i,
    {
        proof {
            let wp = win_pred(team@, seasons@);
            let ap = appearance_pred(team@, seasons@);
            let pre = games@.subrange(0, i as int);
            let g = games@[i as int];
            assert(games@.subrange(0, i + 1) =~= pre.push(g));
            lemma_count_push(pre, wp, g);
            lemma_count_push(pre, ap, g);
            lemma_count_le_len(pre, wp);
            lemma_count_le_len(pre, ap);
            assert(wp(g) == (seasons@.contains(g.season) && wins_game(g, team@)));
            assert(ap(g) == (seasons@.contains(g.season) && plays_in(g, team@)));
        }
        let g = &games[i];
        if contains_season(seasons, g.season) {
            let at_home = g.home == *team;
            let at_away = g.away == *team;
            if at_home || at_away {
                apps = apps + 1;
                let won_home = at_home && g.result == Outcome::HomeWin;
                let won_away = at_away && g.result == Outcome::AwayWin;
                if won_home || won_away {
                    wins = wins + 1;
                }
            }
        }
        i = i + 1;
    }
    proof {
        assert(games@.subrange(0, n as int) =~= games@);
        lemma_wins_le_appearances(games@, team@, seasons@);
    }
    if apps == 0 {
        Err(MyError { kind: ErrorKind::NoMatchingGames })
    } else {
        Ok(Rate { count: wins, total: apps })
    }
}

/// `team` played at least one game of `season`.
pub open spec fn team_appears_in_season(games: Seq<Game>, team: Seq<char>, season: usize) -> bool {
    exists|i: int|
        0 <= i < games.len() && (#[trigger] games[i]).season == season && plays_in(
            games[i],
            team,
        )
}

/// The seasons of the queried list in which `team` played at least one
/// game, each listed once, in the order first queried.
pub open spec fn seasons_played(games: Seq<Game>, team: Seq<char>, seasons: Seq<usize>) -> Seq<
    usize,
>
    decreases seasons.len(),
{
    if seasons.len() == 0 {
        Seq::empty()
    } else {
        let rest = seasons_played(games, team, seasons.drop_last());
        let s = seasons.last();
        if team_appears_in_season(games, team, s) && !rest.contains(s) {
            rest.push(s)
        } else {
            rest
        }
    }
}

/// What `seasons_played` yields: distinct seasons, each of them queried
/// and played in, and every queried season that was played in.
proof fn lemma_seasons_played_props(games: Seq<Game>, team: Seq<char>, seasons: Seq<usize>)
    ensures
        seasons_played(games, team, seasons).no_duplicates(),
        forall|k: int|
            0 <= k < seasons_played(games, team, seasons).len() ==> seasons.contains(
                #[trigger] seasons_played(games, team, seasons)[k],
            ) && team_appears_in_season(games, team, seasons_played(games, team, seasons)[k]),
        forall|s: usize|
            seasons.contains(s) && team_appears_in_season(games, team, s)
                ==> #[trigger] seasons_played(games, team, seasons).contains(s),
    decreases seasons.len(),
{
    if seasons.len() > 0 {
        lemma_seasons_played_props(games, team, seasons.drop_last());
        let rest = seasons_played(games, team, seasons.drop_last());
        let out = seasons_played(games, team, seasons);
        assert forall|k: int|
            0 <= k < out.len() implies seasons.contains(#[trigger] out[k])
            && team_appears_in_season(games, team, out[k]) by {
            if k < rest.len() {
                let j = choose|j: int|
                    0 <= j < seasons.drop_last().len() && seasons.drop_last()[j] == rest[k];
                assert(seasons[j] == rest[k]);
            } else {
                assert(seasons[seasons.len() - 1] == out[k]);
            }
        }
        assert forall|s: usize|
            seasons.contains(s) && team_appears_in_season(games, team, s) implies #[trigger] out.contains(
            s,
        ) by {
            let j = choose|j: int| 0 <= j < seasons.len() && seasons[j] == s;
            if j < seasons.len() - 1 {
                assert(seasons.drop_last()[j] == s);
                assert(rest.contains(s));
                let m = choose|m: int| 0 <= m < rest.len() && rest[m] == s;
                assert(out[m] == s);
            } else {
                if rest.contains(s) {
                    let m = choose|m: int| 0 <= m < rest.len() && rest[m] == s;
                    assert(out[m] == s);
                } else {
                    assert(out[out.len() - 1] == s);
                }
            }
        }
    }
}

/// The distinct seasons within the queried list in which `team` played
/// at least one game, with their count. The count of seasons returned
/// never exceeds the number of distinct seasons queried.
pub fn team_seasons(games: &Vec<Game>, team: &String, seasons: &Vec<usize>) -> (r: (
    Vec<usize>,
    usize,
))
    ensures
        r.0@ == seasons_played(games@, team@, seasons@),
        r.1 == r.0@.len(),
        r.0@.no_duplicates(),
        forall|k: int|
            0 <= k < r.0@.len() ==> seasons@.contains(#[trigger] r.0@[k])
                && team_appears_in_season(games@, team@, r.0@[k]),
        forall|s: usize|
            seasons@.contains(s) && team_appears_in_season(games@, team@, s) ==> r.0@.contains(s),
        r.0@.len() <= seasons@.to_set().len(),
{
    let n = seasons.len();
    let mut list: Vec<usize> = Vec::new();
    let mut i: usize = 0;
    while i < n
        invariant
            0 <= i <= n,
            n == seasons@.len(),
            list@ == seasons_played(games@, team@, seasons@.subrange(0, i as int)),
        decreases n - i,
    {
        proof {
            assert(seasons@.subrange(0, i + 1).drop_last() =~= seasons@.subrange(0, i as int));
            assert(seasons@.subrange(0, i + 1).last() == seasons@[i as int]);
        }
        let s = seasons[i];
        if appears_any(games, team, s) && !contains_usize(&list, s) {
            list.push(s);
        }
        i = i + 1;
    }
    proof {
        assert(seasons@.subrange(0, n as int) =~= seasons@);
        lemma_seasons_played_props(games@, team@, seasons@);
        list@.unique_seq_to_set();
        assert(list@.to_set().subset_of(seasons@.to_set())) by {
            assert forall|s: usize| list@.to_set().contains(s) implies seasons@.to_set().contains(
                s,
            ) by {
                let m = choose|m: int| 0 <= m < list@.len() && list@[m] == s;
                assert(seasons@.contains(s));
            }
        }
        vstd::seq_lib::seq_to_set_is_finite(seasons@);
        vstd::set_lib::lemma_len_subset(list@.to_set(), seasons@.to_set());
    }
    let count = list.len();
    (list, count)
}

/// Whether `team` took part in any game of `season`.
fn appears_any(games: &Vec<Game>, team: &String, season: usize) -> (b: bool)
    ensures
        b == team_appears_in_season(games@, team@, season),
{
    let n = games.len();
    let mut i: usize = 0;
    while i < n
        invariant
            0 <= i <= n,
            n == games@.len(),
            forall|k: int|
                0 <= k < i ==> !((#[trigger] games@[k]).season == season && plays_in(
                    games@[k],
                    team@,
                )),
        decreases n - i,
    {
        let g = &games[i];
        if g.season == season && (g.home == *team || g.away == *team) {
            return true;
        }
        i = i + 1;
    }
    false
}

/// Whether a list of seasons holds the given one (over an already built
/// result list).
pub(crate) fn contains_usize(v: &Vec<usize>, x: usize) -> (b: bool)
    ensures
        b == v@.contains(x),
{
    let n = v.len();
    let mut i: usize = 0;
    while i < n
        invariant
            0 <= i <= n,
            n == v@.len(),
            forall|k: int| 0 <= k < i ==> #[trigger] v@[k] != x,
        decreases n - i,
    {
        if v[i] == x {
            return true;
        }
        i = i + 1;
    }
    false
}

/// The average number of goals per game in `season`, as the exact pair
/// of counts. Fails when the season has no games, rather than dividing
/// by zero; a goal total beyond the machine word is reported as
/// malformed data.
pub fn goal_avg(games: &Vec<Game>, season: usize) -> (r: Result<GoalAvg, MyError>)
    ensures
        r is Ok <==> (games_in_season(games@, season as int) > 0 && season_goals(
            games@,
            season as int,
        ) <= usize::MAX),
        r matches Ok(a) ==> ({
            &&& a.games == games_in_season(games@, season as int)
            &&& a.goals == season_goals(games@, season as int)
            &&& 0 < a.games
        }),
        r matches Err(e) ==> (e.kind == ErrorKind::NoMatchingGames <==> games_in_season(
            games@,
            season as int,
        ) == 0),
        r matches Err(e) ==> (e.kind == ErrorKind::NoMatchingGames || e.kind
            == ErrorKind::MalformedInput),
{
    let n = games.len();
    let mut goals: usize = 0;
    let mut count: usize = 0;
    let mut i: usize = 0;
    while i < n
        invariant
            0 <= i <= n,
            n == games@.len(),
            count == count_where(games@.subrange(0, i as int), season_pred(season as int)),
            goals == sum_where(games@.subrange(0, i as int), season_pred(season as int), goals_fn()),
        decreases n - i,
    {
        proof {
            let sp = season_pred(season as int);
            let pre = games@.subrange(0, i as int);
            let g = games@[i as int];
            assert(games@.subrange(0, i + 1) =~= pre.push(g));
            lemma_count_push(pre, sp, g);
            lemma_sum_push(pre, sp, goals_fn(), g);
            lemma_count_le_len(pre, sp);
            assert(sp(g) == (g.season == season));
            assert(goals_fn()(g) == (g.home_goals + g.away_goals) as nat);
        }
        let g = &games[i];
        if g.season == season {
            count = count + 1;
            let both = match g.home_goals.checked_add(g.away_goals) {
                Some(v) => v,
                None => {
                    proof {
                        overflow_means_err(games@, season, i as int);
                    }
                    return Err(MyError { kind: ErrorKind::MalformedInput });
                },
            };
            goals = match goals.checked_add(both) {
                Some(v) => v,
                None => {
                    proof {
                        overflow_means_err(games@, season, i as int);
                    }
                    return Err(MyError { kind: ErrorKind::MalformedInput });
                },
            };
        }
        i = i + 1;
    }
    proof {
        assert(games@.subrange(0, n as int) =~= games@);
    }
    if count == 0 {
        Err(MyError { kind: ErrorKind::NoMatchingGames })
    } else {
        Ok(GoalAvg { goals, games: count })
    }
}

/// When the running goal total of a season overflows at game `i`, the
/// season has games and its full total cannot be held either.
proof fn overflow_means_err(games: Seq<Game>, season: usize, i: int)
    requires
        0 <= i < games.len(),
        games[i].season == season,
        sum_where(games.subrange(0, i), season_pred(season as int), goals_fn()) + games[i].home_goals
            + games[i].away_goals > usize::MAX,
    ensures
        games_in_season(games, season as int) > 0,
        season_goals(games, season as int) > usize::MAX,
{
    let sp = season_pred(season as int);
    assert(sp(games[i]));
    lemma_count_pos(games, sp);
    assert(games.subrange(0, i + 1) =~= games.subrange(0, i).push(games[i]));
    lemma_sum_push(games.subrange(0, i), sp, goals_fn(), games[i]);
    lemma_sum_prefix_le(games, sp, goals_fn(), i + 1);
}

/// The game with the greatest winning margin for `team` across the
/// given seasons: among the games `team` won, the one whose goal
/// difference in `team`'s favour is greatest, the earliest such game on
/// a tie. Fails when `team` won no game in those seasons.
pub fn greatest_interval(games: &Vec<Game>, team: &String, seasons: &Vec<usize>) -> (r: Result<
    Game,
    MyError,
>)
    ensures
        r is Ok <==> win_count(games@, team@, seasons@) > 0,
        r matches Ok(g) ==> is_greatest_win(games@, team@, seasons@, g),
        r matches Err(e) ==> e.kind == ErrorKind::NoMatchingGames,
{
    let n = games.len();
    let mut best: usize = 0;
    let mut found = false;
    let mut best_margin: i128 = 0;
    let mut i: usize = 0;
    while i < n
        invariant
            0 <= i <= n,
            n == games@.len(),
            !found ==> forall|k: int|
                0 <= k < i ==> !(seasons@.contains((#[trigger] games@[k]).season) && wins_game(
                    games@[k],
                    team@,
                )),
            found ==> ({
                &&& 0 <= best < i
                &&& seasons@.contains(games@[best as int].season)
                &&& wins_game(games@[best as int], team@)
                &&& best_margin == win_margin(games@[best as int], team@)
                &&& forall|j: int|
                    0 <= j < i && seasons@.contains((#[trigger] games@[j]).season) && wins_game(
                        games@[j],
                        team@,
                    ) ==> win_margin(games@[j], team@) <= best_margin && (win_margin(
                        games@[j],
                        team@,
                    ) == best_margin ==> best <= j)
            }),
        decreases n - i,
    {
        let g = &games[i];
        if contains_season(seasons, g.season) {
            let won_home = g.home == *team && g.result == Outcome::HomeWin;
            let won_away = g.away == *team && g.result == Outcome::AwayWin;
            if won_home || won_away {
                let m: i128 = if won_home {
                    g.home_goals as i128 - g.away_goals as i128
                } else {
                    g.away_goals as i128 - g.home_goals as i128
                };
                proof {
                    assert(m == win_margin(games@[i as int], team@));
                }
                if !found {
                    found = true;
                    best = i;
                    best_margin = m;
                } else if m > best_margin {
                    best = i;
                    best_margin = m;
                }
            }
        }
        i = i + 1;
    }
    if found {
        let g = games[best].clone();
        proof {
            let wp = win_pred(team@, seasons@);
            assert(wp(games@[best as int]));
            lemma_count_pos(games@, wp);
            assert(is_greatest_win(games@, team@, seasons@, g)) by {
                assert(greatest_win_at(games@, team@, seasons@, g, best as int));
            }
        }
        Ok(g)
    } else {
        proof {
            let wp = win_pred(team@, seasons@);
            lemma_count_pos(games@, wp);
            assert forall|k: int| 0 <= k < games@.len() implies !wp(games@[k]) by {
                assert(!(seasons@.contains(games@[k].season) && wins_game(games@[k], team@)));
            }
        }
        Err(MyError { kind: ErrorKind::NoMatchingGames })
    }
}

/// `g` is the game at position `i`: a game `team` won in one of the
/// given seasons, with no earlier win of a greater margin and no win at
/// all of a strictly greater margin.
pub open spec fn greatest_win_at(
    games: Seq<Game>,
    team: Seq<char>,
    seasons: Seq<usize>,
    g: Game,
    i: int,
) -> bool {
    &&& 0 <= i < games.len()
    &&& seasons.contains(games[i].season)
    &&& wins_game(games[i], team)
    &&& g == games[i]
    &&& forall|j: int|
        0 <= j < games.len() && seasons.contains((#[trigger] games[j]).season) && wins_game(
            games[j],
            team,
        ) ==> win_margin(games[j], team) <= win_margin(games[i], team) && (win_margin(
            games[j],
            team,
        ) == win_margin(games[i], team) ==> i <= j)
}

/// `g` is the win with the greatest margin for `team` in the given
/// seasons, the earliest such game on a tie.
pub open spec fn is_greatest_win(
    games: Seq<Game>,
    team: Seq<char>,
    seasons: Seq<usize>,
    g: Game,
) -> bool {
    exists|i: int| greatest_win_at(games, team, seasons, g, i)
}

/// The goal difference in `team`'s favour in a game it won: the
/// winner's goals less the loser's, by the recorded outcome.
pub open spec fn win_margin(g: Game, team: Seq<char>) -> int {
    if g.home@ == team && g.result == Outcome::HomeWin {
        g.home_goals - g.away_goals
    } else {
        g.away_goals - g.home_goals
    }
}

} // verus!
