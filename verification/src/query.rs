//! The report driver's computations: the season-range and team
//! inventories, the seasons singled out by the trend tables (lowest
//! home-win rate, highest goal average), and the validated single-team
//! query behind the interactive session.

use vstd::prelude::*;
use crate::count::{
    appearance_count, games_in_season, lemma_count_le_len, outcome_count, outcome_pred,
    season_goals, season_pred,
    win_count,
};
use crate::game::{ErrorKind, Game, MyError, Outcome};
use crate::parse::{is_count_str, parse_count, str_to_nat};
use crate::rate::{avg_eq, avg_gt, avg_is_gt, rate_eq, rate_gt, rate_is_gt, GoalAvg, Rate};
use crate::stats::{
    contains_season, contains_team, greatest_interval, is_greatest_win, seasons_played,
    team_seasons, team_win_rate,
};
use crate::wins::home_pct;

verus! {

/// The inclusive run of seasons from `start` to `end`.
pub open spec fn range_seq(start: usize, end: usize) -> Seq<usize> {
    Seq::new((end - start + 1) as nat, |i: int| (start + i) as usize)
}

/// Builds the inclusive list of seasons from `start` to `end`; an
/// inverted pair yields the empty list.
pub fn season_range(start: usize, end: usize) -> (r: Vec<usize>)
    ensures
        start <= end ==> r@ == range_seq(start, end),
        start > end ==> r@.len() == 0,
{
    let mut v: Vec<usize> = Vec::new();
    if start > end {
        return v;
    }
    let mut s = start;
    while s < end
        invariant
            start <= s <= end,
            v@.len() == s - start,
            forall|k: int| 0 <= k < v@.len() ==> #[trigger] v@[k] == start + k,
        decreases end - s,
    {
        v.push(s);
        s = s + 1;
    }
    v.push(end);
    proof {
        assert(v@ =~= range_seq(start, end));
    }
    v
}

/// The distinct home-team names of the record list, in the order first
/// seen. The league inventory is drawn from home names alone: over a
/// full season range every competing side hosts at least one game.
pub open spec fn distinct_homes(games: Seq<Game>) -> Seq<Seq<char>>
    decreases games.len(),
{
    if games.len() == 0 {
        Seq::empty()
    } else {
        let rest = distinct_homes(games.drop_last());
        if rest.contains(games.last().home@) {
            rest
        } else {
            rest.push(games.last().home@)
        }
    }
}

/// What `distinct_homes` yields: names without repeats, each the home
/// name of some game, and the home name of every game.
proof fn lemma_distinct_homes_props(games: Seq<Game>)
    ensures
        distinct_homes(games).no_duplicates(),
        forall|k: int|
            #![trigger distinct_homes(games)[k]]
            0 <= k < distinct_homes(games).len() ==> exists|i: int|
                0 <= i < games.len() && (#[trigger] games[i]).home@ == distinct_homes(games)[k],
        forall|i: int|
            0 <= i < games.len() ==> distinct_homes(games).contains(
                (#[trigger] games[i]).home@,
            ),
    decreases games.len(),
{
    if games.len() > 0 {
        lemma_distinct_homes_props(games.drop_last());
        let rest = distinct_homes(games.drop_last());
        let out = distinct_homes(games);
        assert forall|k: int| #![trigger out[k]] 0 <= k < out.len() implies exists|i: int|
            0 <= i < games.len() && (#[trigger] games[i]).home@ == out[k] by {
            if k < rest.len() {
                let i = choose|i: int|
                    0 <= i < games.drop_last().len() && (#[trigger] games.drop_last()[i]).home@
                        == rest[k];
                assert(games[i].home@ == out[k]);
            } else {
                assert(games[games.len() - 1].home@ == out[k]);
            }
        }
        assert forall|i: int|
            0 <= i < games.len() implies out.contains((#[trigger] games[i]).home@) by {
            if i < games.len() - 1 {
                assert(games.drop_last()[i] == games[i]);
                assert(rest.contains(games[i].home@));
                let m = choose|m: int| 0 <= m < rest.len() && rest[m] == games[i].home@;
                assert(out[m] == games[i].home@);
            } else {
                if rest.contains(games[i].home@) {
                    let m = choose|m: int| 0 <= m < rest.len() && rest[m] == games[i].home@;
                    assert(out[m] == games[i].home@);
                } else {
                    assert(out[out.len() - 1] == games[i].home@);
                }
            }
        }
    }
}

/// The team inventory: every home-team name of the record list, each
/// once, in the order first seen.
pub fn all_team_names(games: &Vec<Game>) -> (r: Vec<String>)
    ensures
        r@.len() == distinct_homes(games@).len(),
        forall|k: int| 0 <= k < r@.len() ==> #[trigger] r@[k]@ == distinct_homes(games@)[k],
        forall|i: int|
            0 <= i < games@.len() ==> distinct_homes(games@).contains(
                (#[trigger] games@[i]).home@,
            ),
{
    let n = games.len();
    let mut list: Vec<String> = Vec::new();
    let mut i: usize = 0;
    while i < n
        invariant
            0 <= i <= n,
            n == games@.len(),
            list@.len() == distinct_homes(games@.subrange(0, i as int)).len(),
            forall|k: int|
                0 <= k < list@.len() ==> #[trigger] list@[k]@ == distinct_homes(
                    games@.subrange(0, i as int),
                )[k],
        decreases n - i,
    {
        let ghost pre = games@.subrange(0, i as int);
        let ghost rest = distinct_homes(pre);
        proof {
            assert(games@.subrange(0, i + 1).drop_last() =~= pre);
            assert(games@.subrange(0, i + 1).last() == games@[i as int]);
        }
        let present = contains_team(&list, &games[i].home);
        proof {
            if present {
                let k = choose|k: int|
                    0 <= k < list@.len() && #[trigger] list@[k]@ == games@[i as int].home@;
                assert(rest[k] == games@[i as int].home@);
                assert(rest.contains(games@[i as int].home@));
            } else {
                if rest.contains(games@[i as int].home@) {
                    let k = choose|k: int| 0 <= k < rest.len() && rest[k] == games@[i as int].home@;
                    assert(list@[k]@ == games@[i as int].home@);
                }
            }
        }
        if !present {
            list.push(games[i].home.clone());
        }
        i = i + 1;
    }
    proof {
        assert(games@.subrange(0, n as int) =~= games@);
        lemma_distinct_homes_props(games@);
    }
    list
}

/// The home-win rate of one season, as its exact pair of counts.
pub open spec fn home_rate_of(games: Seq<Game>, season: usize) -> Rate {
    Rate {
        count: outcome_count(games, Outcome::HomeWin, season as int) as usize,
        total: games_in_season(games, season as int) as usize,
    }
}

/// The goal average of one season, as its exact pair of counts.
pub open spec fn goal_avg_of(games: Seq<Game>, season: usize) -> GoalAvg {
    GoalAvg {
        goals: season_goals(games, season as int) as usize,
        games: games_in_season(games, season as int) as usize,
    }
}

/// `s`, at position `i` of the queried list, is a season with games
/// whose home-win rate no other queried season with games undercuts,
/// and the earliest such season on an exact tie.
pub open spec fn lowest_home_rate_at(
    games: Seq<Game>,
    seasons: Seq<usize>,
    s: usize,
    rate: Rate,
    i: int,
) -> bool {
    &&& 0 <= i < seasons.len()
    &&& seasons[i] == s
    &&& games_in_season(games, s as int) > 0
    &&& rate == home_rate_of(games, s)
    &&& forall|j: int|
        0 <= j < seasons.len() && games_in_season(games, (#[trigger] seasons[j]) as int) > 0
            ==> !rate_gt(rate, home_rate_of(games, seasons[j])) && (rate_eq(
            rate,
            home_rate_of(games, seasons[j]),
        ) ==> i <= j)
}

/// `s` is the queried season with the lowest home-win rate.
pub open spec fn is_lowest_home_rate(
    games: Seq<Game>,
    seasons: Seq<usize>,
    s: usize,
    rate: Rate,
) -> bool {
    exists|i: int| lowest_home_rate_at(games, seasons, s, rate, i)
}

/// The queried season with the lowest home-win rate, the earliest on an
/// exact tie; seasons with no games are passed over. Fails when no
/// queried season has a game.
pub fn lowest_home_rate_season(games: &Vec<Game>, seasons: &Vec<usize>) -> (r: Result<
    (usize, Rate),
    MyError,
>)
    ensures
        r is Ok <==> (exists|j: int|
            0 <= j < seasons@.len() && games_in_season(games@, (#[trigger] seasons@[j]) as int)
                > 0),
        r matches Ok(p) ==> is_lowest_home_rate(games@, seasons@, p.0, p.1),
        r matches Err(e) ==> e.kind == ErrorKind::NoMatchingGames,
{
    let n = seasons.len();
    let glen = games.len();
    let mut best_season: usize = 0;
    let mut best_rate = Rate { count: 0, total: 1 };
    let mut best_i: usize = 0;
    let mut found = false;
    let mut i: usize = 0;
    while i < n
        invariant
            0 <= i <= n,
            n == seasons@.len(),
            games@.len() == glen,
            !found ==> forall|j: int|
                0 <= j < i ==> games_in_season(games@, (#[trigger] seasons@[j]) as int) == 0,
            found ==> ({
                &&& best_i < i
                &&& seasons@[best_i as int] == best_season
                &&& games_in_season(games@, best_season as int) > 0
                &&& best_rate == home_rate_of(games@, best_season)
                &&& best_rate.total > 0
                &&& forall|j: int|
                    0 <= j < i && games_in_season(games@, (#[trigger] seasons@[j]) as int) > 0
                        ==> !rate_gt(best_rate, home_rate_of(games@, seasons@[j])) && (rate_eq(
                        best_rate,
                        home_rate_of(games@, seasons@[j]),
                    ) ==> best_i <= j)
            }),
        decreases n - i,
    {
        let s = seasons[i];
        match home_pct(games, s) {
            Ok(rate) => {
                proof {
                    lemma_count_le_len(games@, outcome_pred(Outcome::HomeWin, s as int));
                    lemma_count_le_len(games@, season_pred(s as int));
                    assert(rate == home_rate_of(games@, s));
                }
                if !found {
                    found = true;
                    best_season = s;
                    best_rate = rate;
                    best_i = i;
                } else if rate_is_gt(&best_rate, &rate) {
                    proof {
                        assert forall|j: int|
                            0 <= j < i && games_in_season(games@, (#[trigger] seasons@[j]) as int)
                                > 0 implies !rate_gt(rate, home_rate_of(games@, seasons@[j]))
                            && (rate_eq(rate, home_rate_of(games@, seasons@[j])) ==> i as int
                            <= j) by {
                            lemma_count_le_len(games@, season_pred(seasons@[j] as int));
                            crate::rate::lemma_rate_order_trans(
                                best_rate,
                                rate,
                                home_rate_of(games@, seasons@[j]),
                            );
                        }
                    }
                    best_season = s;
                    best_rate = rate;
                    best_i = i;
                }
            },
            Err(_) => {},
        }
        i = i + 1;
    }
    if found {
        proof {
            assert(is_lowest_home_rate(games@, seasons@, best_season, best_rate)) by {
                assert(lowest_home_rate_at(
                    games@,
                    seasons@,
                    best_season,
                    best_rate,
                    best_i as int,
                ));
            }
        }
        Ok((best_season, best_rate))
    } else {
        Err(MyError { kind: ErrorKind::NoMatchingGames })
    }
}

/// `s`, at position `i` of the queried list, is a season with games
/// whose goal average no other queried season with games exceeds, and
/// the earliest such season on an exact tie.
pub open spec fn highest_goal_avg_at(
    games: Seq<Game>,
    seasons: Seq<usize>,
    s: usize,
    avg: GoalAvg,
    i: int,
) -> bool {
    &&& 0 <= i < seasons.len()
    &&& seasons[i] == s
    &&& games_in_season(games, s as int) > 0
    &&& season_goals(games, s as int) <= usize::MAX
    &&& avg == goal_avg_of(games, s)
    &&& forall|j: int|
        0 <= j < seasons.len() && games_in_season(games, (#[trigger] seasons[j]) as int) > 0
            ==> !avg_gt(goal_avg_of(games, seasons[j]), avg) && (avg_eq(
            goal_avg_of(games, seasons[j]),
            avg,
        ) ==> i <= j)
}

/// `s` is the queried season with the highest goal average.
pub open spec fn is_highest_goal_avg(
    games: Seq<Game>,
    seasons: Seq<usize>,
    s: usize,
    avg: GoalAvg,
) -> bool {
    exists|i: int| highest_goal_avg_at(games, seasons, s, avg, i)
}

/// The queried season with the highest goal average, the earliest on an
/// exact tie; seasons with no games are passed over. Fails when no
/// queried season has a game, and reports malformed data when a
/// season's goal total cannot be held in the machine word.
pub fn highest_goal_avg_season(games: &Vec<Game>, seasons: &Vec<usize>) -> (r: Result<
    (usize, GoalAvg),
    MyError,
>)
    ensures
        r matches Ok(p) ==> is_highest_goal_avg(games@, seasons@, p.0, p.1),
        r matches Ok(p) ==> forall|j: int|
            0 <= j < seasons@.len() && games_in_season(games@, (#[trigger] seasons@[j]) as int)
                > 0 ==> season_goals(games@, seasons@[j] as int) <= usize::MAX,
        r matches Err(e) ==> (e.kind == ErrorKind::NoMatchingGames || e.kind
            == ErrorKind::MalformedInput),
        r matches Err(e) ==> (e.kind == ErrorKind::NoMatchingGames <==> (forall|j: int|
            0 <= j < seasons@.len() ==> games_in_season(games@, (#[trigger] seasons@[j]) as int)
                == 0)),
        r matches Err(e) ==> (e.kind == ErrorKind::MalformedInput ==> (exists|j: int|
            0 <= j < seasons@.len() && games_in_season(games@, (#[trigger] seasons@[j]) as int)
                > 0 && season_goals(games@, seasons@[j] as int) > usize::MAX)),
{
    let n = seasons.len();
    let glen = games.len();
    let mut best_season: usize = 0;
    let mut best_avg = GoalAvg { goals: 0, games: 1 };
    let mut best_i: usize = 0;
    let mut found = false;
    let mut i: usize = 0;
    while i < n
        invariant
            0 <= i <= n,
            n == seasons@.len(),
            games@.len() == glen,
            forall|j: int|
                0 <= j < i && games_in_season(games@, (#[trigger] seasons@[j]) as int) > 0
                    ==> season_goals(games@, seasons@[j] as int) <= usize::MAX,
            !found ==> forall|j: int|
                0 <= j < i ==> games_in_season(games@, (#[trigger] seasons@[j]) as int) == 0,
            found ==> ({
                &&& best_i < i
                &&& seasons@[best_i as int] == best_season
                &&& games_in_season(games@, best_season as int) > 0
                &&& season_goals(games@, best_season as int) <= usize::MAX
                &&& best_avg == goal_avg_of(games@, best_season)
                &&& best_avg.games > 0
                &&& forall|j: int|
                    0 <= j < i && games_in_season(games@, (#[trigger] seasons@[j]) as int) > 0
                        ==> !avg_gt(goal_avg_of(games@, seasons@[j]), best_avg) && (avg_eq(
                        goal_avg_of(games@, seasons@[j]),
                        best_avg,
                    ) ==> best_i <= j)
            }),
        decreases n - i,
    {
        let s = seasons[i];
        match crate::stats::goal_avg(games, s) {
            Ok(avg) => {
                proof {
                    lemma_count_le_len(games@, season_pred(s as int));
                    assert(avg == goal_avg_of(games@, s));
                }
                if !found {
                    found = true;
                    best_season = s;
                    best_avg = avg;
                    best_i = i;
                } else if avg_is_gt(&avg, &best_avg) {
                    proof {
                        assert forall|j: int|
                            0 <= j < i && games_in_season(games@, (#[trigger] seasons@[j]) as int)
                                > 0 implies !avg_gt(goal_avg_of(games@, seasons@[j]), avg)
                            && (avg_eq(goal_avg_of(games@, seasons@[j]), avg) ==> i as int
                            <= j) by {
                            lemma_count_le_len(games@, season_pred(seasons@[j] as int));
                            crate::rate::lemma_avg_order_trans(
                                avg,
                                best_avg,
                                goal_avg_of(games@, seasons@[j]),
                            );
                            crate::rate::lemma_avg_order_trans(
                                goal_avg_of(games@, seasons@[j]),
                                avg,
                                best_avg,
                            );
                        }
                    }
                    best_season = s;
                    best_avg = avg;
                    best_i = i;
                }
            },
            Err(e) => {
                if e.kind != ErrorKind::NoMatchingGames {
                    return Err(MyError { kind: ErrorKind::MalformedInput });
                }
            },
        }
        i = i + 1;
    }
    if found {
        proof {
            assert(is_highest_goal_avg(games@, seasons@, best_season, best_avg)) by {
                assert(highest_goal_avg_at(
                    games@,
                    seasons@,
                    best_season,
                    best_avg,
                    best_i as int,
                ));
            }
        }
        Ok((best_season, best_avg))
    } else {
        Err(MyError { kind: ErrorKind::NoMatchingGames })
    }
}

/// The queried team name is one of the known team names.
pub open spec fn team_known(all_teams: Seq<String>, team: Seq<char>) -> bool {
    exists|k: int| 0 <= k < all_teams.len() && #[trigger] all_teams[k]@ == team
}

/// Both season inputs are numerals, not inverted, and both are known
/// seasons.
pub open spec fn season_inputs_valid(
    all_seasons: Seq<usize>,
    start_text: Seq<char>,
    end_text: Seq<char>,
) -> bool {
    &&& is_count_str(start_text)
    &&& is_count_str(end_text)
    &&& str_to_nat(start_text) <= str_to_nat(end_text)
    &&& all_seasons.contains((str_to_nat(start_text) as usize))
    &&& all_seasons.contains((str_to_nat(end_text) as usize))
}

/// The inclusive season run the two inputs select.
pub open spec fn chosen_range(start_text: Seq<char>, end_text: Seq<char>) -> Seq<usize> {
    range_seq(str_to_nat(start_text) as usize, str_to_nat(end_text) as usize)
}

/// What the interactive single-team query reports: the seasons the team
/// played in the selection, its win rate there, and its biggest win
/// (absent when it won no game in the selection).
#[derive(Debug)]
pub struct QueryReport {
    pub team: String,
    pub seasons: Vec<usize>,
    pub season_count: usize,
    pub rate: Rate,
    pub biggest: Option<Game>,
}

/// Validates a single-team query and computes its report. The team must
/// be a known name, both season bounds numeric, in order and within the
/// known seasons, and the team must have played in the selection; each
/// check that fails names its error, in that order.
pub fn run_query(
    games: &Vec<Game>,
    all_teams: &Vec<String>,
    all_seasons: &Vec<usize>,
    team: &String,
    start_text: &str,
    end_text: &str,
) -> (r: Result<QueryReport, MyError>)
    ensures
        r is Ok <==> (team_known(all_teams@, team@) && season_inputs_valid(
            all_seasons@,
            start_text@,
            end_text@,
        ) && appearance_count(games@, team@, chosen_range(start_text@, end_text@)) > 0),
        r matches Err(e) ==> (e.kind == ErrorKind::UnknownTeam <==> !team_known(
            all_teams@,
            team@,
        )),
        r matches Err(e) ==> (e.kind == ErrorKind::InvalidSeasonRange <==> (team_known(
            all_teams@,
            team@,
        ) && !season_inputs_valid(all_seasons@, start_text@, end_text@))),
        r matches Err(e) ==> (e.kind == ErrorKind::NoMatchingGames <==> (team_known(
            all_teams@,
            team@,
        ) && season_inputs_valid(all_seasons@, start_text@, end_text@) && appearance_count(
            games@,
            team@,
            chosen_range(start_text@, end_text@),
        ) == 0)),
        r matches Ok(rep) ==> ({
            &&& rep.team@ == team@
            &&& rep.seasons@ == seasons_played(
                games@,
                team@,
                chosen_range(start_text@, end_text@),
            )
            &&& rep.season_count == rep.seasons@.len()
            &&& rep.rate.count == win_count(games@, team@, chosen_range(start_text@, end_text@))
            &&& rep.rate.total == appearance_count(
                games@,
                team@,
                chosen_range(start_text@, end_text@),
            )
            &&& (rep.biggest is Some <==> win_count(
                games@,
                team@,
                chosen_range(start_text@, end_text@),
            ) > 0)
            &&& (rep.biggest matches Some(g) ==> is_greatest_win(
                games@,
                team@,
                chosen_range(start_text@, end_text@),
                g,
            ))
        }),
{
    if !contains_team(all_teams, team) {
        return Err(MyError { kind: ErrorKind::UnknownTeam });
    }
    let start = match parse_count(start_text) {
        Some(v) => v,
        None => {
            return Err(MyError { kind: ErrorKind::InvalidSeasonRange });
        },
    };
    let end = match parse_count(end_text) {
        Some(v) => v,
        None => {
            return Err(MyError { kind: ErrorKind::InvalidSeasonRange });
        },
    };
    if start > end {
        return Err(MyError { kind: ErrorKind::InvalidSeasonRange });
    }
    if !contains_season(all_seasons, start) || !contains_season(all_seasons, end) {
        return Err(MyError { kind: ErrorKind::InvalidSeasonRange });
    }
    let chosen = season_range(start, end);
    proof {
        assert(chosen@ == chosen_range(start_text@, end_text@));
    }
    let rate = match team_win_rate(games, team, &chosen) {
        Ok(rate) => rate,
        Err(e) => {
            return Err(e);
        },
    };
    let (season_list, season_count) = team_seasons(games, team, &chosen);
    let biggest = match greatest_interval(games, team, &chosen) {
        Ok(g) => Some(g),
        Err(_) => None,
    };
    Ok(QueryReport { team: team.clone(), seasons: season_list, season_count, rate, biggest })
}

} // verus!
