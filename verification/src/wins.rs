//! Result rates of a single season: how often the home side won, the
//! away side won, or the game was drawn, as exact fractions of the
//! season's games.

use vstd::prelude::*;
use crate::count::{
    count_where, games_in_season, lemma_count_le_len, lemma_count_push, outcome_count,
    outcome_pred, season_pred,
};
use crate::game::{ErrorKind, Game, MyError, Outcome};
use crate::rate::Rate;

verus! {

/// What every result-rate function promises: defined exactly for a
/// season with at least one game, and then an exact fraction of that
/// season's games.
pub open spec fn result_rate_spec(
    r: Result<Rate, MyError>,
    games: Seq<Game>,
    outcome: Outcome,
    season: int,
) -> bool {
    &&& r is Ok <==> games_in_season(games, season) > 0
    &&& (r matches Ok(rate) ==> ({
        &&& rate.count == outcome_count(games, outcome, season)
        &&& rate.total == games_in_season(games, season)
        &&& rate.count <= rate.total
        &&& 0 < rate.total
    }))
    &&& (r matches Err(e) ==> e.kind == ErrorKind::NoMatchingGames)
}

/// The fraction of the games of `season` that ended with `outcome`.
/// Fails when the season has no games, rather than dividing by zero.
pub fn result_rate(games: &Vec<Game>, outcome: Outcome, season: usize) -> (r: Result<
    Rate,
    MyError,
>)
    ensures
        result_rate_spec(r, games@, outcome, season as int),
{
    let n = games.len();
    let mut hit: usize = 0;
    let mut total: usize = 0;
    let mut i: usize = 0;
    while i < n
        invariant
            0 <= i <= n,
            n == games@.len(),
            hit == count_where(games@.subrange(0, i as int), outcome_pred(outcome, season as int)),
            total == count_where(games@.subrange(0, i as int), season_pred(season as int)),
        decreases n - i,
    {
        proof {
            let op = outcome_pred(outcome, season as int);
            let sp = season_pred(season as int);
            let pre = games@.subrange(0, i as int);
            let g = games@[i as int];
            assert(games@.subrange(0, i + 1) =~= pre.push(g));
            lemma_count_push(pre, op, g);
            lemma_count_push(pre, sp, g);
            lemma_count_le_len(pre, op);
            lemma_count_le_len(pre, sp);
            assert(op(g) == (g.season == season && g.result == outcome));
            assert(sp(g) == (g.season == season));
        }
        let g = &games[i];
        if g.season == season {
            total = total + 1;
            if g.result == outcome {
                hit = hit + 1;
            }
        }
        i = i + 1;
    }
    proof {
        assert(games@.subrange(0, n as int) =~= games@);
        lemma_count_le_len(games@, outcome_pred(outcome, season as int));
    }
    if total == 0 {
        Err(MyError { kind: ErrorKind::NoMatchingGames })
    } else {
        proof {
            crate::count::lemma_outcome_partition(games@, season as int);
        }
        Ok(Rate { count: hit, total })
    }
}

/// The fraction of the games of `season` the home side won.
pub fn home_pct(games: &Vec<Game>, season: usize) -> (r: Result<Rate, MyError>)
    ensures
        result_rate_spec(r, games@, Outcome::HomeWin, season as int),
{
    result_rate(games, Outcome::HomeWin, season)
}

/// The fraction of the games of `season` that were drawn.
pub fn draw_pct(games: &Vec<Game>, season: usize) -> (r: Result<Rate, MyError>)
    ensures
        result_rate_spec(r, games@, Outcome::Draw, season as int),
{
    result_rate(games, Outcome::Draw, season)
}

/// The fraction of the games of `season` the away side won.
pub fn away_pct(games: &Vec<Game>, season: usize) -> (r: Result<Rate, MyError>)
    ensures
        result_rate_spec(r, games@, Outcome::AwayWin, season as int),
{
    result_rate(games, Outcome::AwayWin, season)
}

} // verus!
