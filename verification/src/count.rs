//! Counting and summing over a sequence of games: the mathematical model
//! behind every aggregate statistic, together with the lemmas the
//! statistics' loops rest on.

use vstd::prelude::*;
use crate::game::{Game, Outcome};

verus! {

/// How many games of `s` satisfy `p`.
pub open spec fn count_where(s: Seq<Game>, p: spec_fn(Game) -> bool) -> nat
    decreases s.len(),
{
    if s.len() == 0 {
        0
    } else {
        count_where(s.drop_last(), p) + (if p(s.last()) {
            1nat
        } else {
            0nat
        })
    }
}

/// The sum of `f` over the games of `s` that satisfy `p`.
pub open spec fn sum_where(s: Seq<Game>, p: spec_fn(Game) -> bool, f: spec_fn(Game) -> nat) -> nat
    decreases s.len(),
{
    if s.len() == 0 {
        0
    } else {
        sum_where(s.drop_last(), p, f) + (if p(s.last()) {
            f(s.last())
        } else {
            0nat
        })
    }
}

/// Appending one game adds its contribution to a count.
pub proof fn lemma_count_push(s: Seq<Game>, p: spec_fn(Game) -> bool, g: Game)
    ensures
        count_where(s.push(g), p) == count_where(s, p) + (if p(g) {
            1nat
        } else {
            0nat
        }),
{
    assert(s.push(g).drop_last() =~= s);
    assert(s.push(g).last() == g);
}

/// Appending one game adds its contribution to a sum.
pub proof fn lemma_sum_push(s: Seq<Game>, p: spec_fn(Game) -> bool, f: spec_fn(Game) -> nat, g: Game)
    ensures
        sum_where(s.push(g), p, f) == sum_where(s, p, f) + (if p(g) {
            f(g)
        } else {
            0nat
        }),
{
    assert(s.push(g).drop_last() =~= s);
    assert(s.push(g).last() == g);
}

/// A count never exceeds the number of games.
pub proof fn lemma_count_le_len(s: Seq<Game>, p: spec_fn(Game) -> bool)
    ensures
        count_where(s, p) <= s.len(),
    decreases s.len(),
{
    if s.len() > 0 {
        lemma_count_le_len(s.drop_last(), p);
    }
}

/// A sum over a prefix never exceeds the sum over the whole sequence.
pub proof fn lemma_sum_prefix_le(s: Seq<Game>, p: spec_fn(Game) -> bool, f: spec_fn(Game) -> nat, k: int)
    requires
        0 <= k <= s.len(),
    ensures
        sum_where(s.subrange(0, k), p, f) <= sum_where(s, p, f),
    decreases s.len(),
{
    if k == s.len() {
        assert(s.subrange(0, k) =~= s);
    } else {
        lemma_sum_prefix_le(s.drop_last(), p, f, k);
        assert(s.drop_last().subrange(0, k) =~= s.subrange(0, k));
    }
}

/// A count is positive exactly when some game satisfies the predicate.
pub proof fn lemma_count_pos(s: Seq<Game>, p: spec_fn(Game) -> bool)
    ensures
        count_where(s, p) > 0 <==> exists|i: int| 0 <= i < s.len() && p(#[trigger] s[i]),
    decreases s.len(),
{
    if s.len() > 0 {
        lemma_count_pos(s.drop_last(), p);
        if p(s.last()) {
            assert(p(s[s.len() - 1]));
        } else if count_where(s.drop_last(), p) > 0 {
            let i = choose|i: int| 0 <= i < s.drop_last().len() && p(#[trigger] s.drop_last()[i]);
            assert(p(s[i]));
        } else {
            assert(forall|i: int| 0 <= i < s.len() - 1 ==> s.drop_last()[i] == #[trigger] s[i]);
        }
    }
}

/// Games of `season`.
pub open spec fn season_pred(season: int) -> spec_fn(Game) -> bool {
    |g: Game| g.season == season
}

/// Games of `season` that ended with `outcome`.
pub open spec fn outcome_pred(outcome: Outcome, season: int) -> spec_fn(Game) -> bool {
    |g: Game| g.season == season && g.result == outcome
}

/// `team` took part in `g`, at home or away.
pub open spec fn plays_in(g: Game, team: Seq<char>) -> bool {
    g.home@ == team || g.away@ == team
}

/// `team` won `g`, going by the recorded outcome.
pub open spec fn wins_game(g: Game, team: Seq<char>) -> bool {
    (g.home@ == team && g.result == Outcome::HomeWin) || (g.away@ == team && g.result
        == Outcome::AwayWin)
}

/// Games in one of `seasons` in which `team` took part.
pub open spec fn appearance_pred(team: Seq<char>, seasons: Seq<usize>) -> spec_fn(Game) -> bool {
    |g: Game| seasons.contains(g.season) && plays_in(g, team)
}

/// Games in one of `seasons` that `team` won.
pub open spec fn win_pred(team: Seq<char>, seasons: Seq<usize>) -> spec_fn(Game) -> bool {
    |g: Game| seasons.contains(g.season) && wins_game(g, team)
}

/// The goals both sides scored in one game.
pub open spec fn game_goals(g: Game) -> nat {
    (g.home_goals + g.away_goals) as nat
}

/// The goal weight used when summing a season's goals.
pub open spec fn goals_fn() -> spec_fn(Game) -> nat {
    |g: Game| game_goals(g)
}

/// How many games of `s` belong to `season`.
pub open spec fn games_in_season(s: Seq<Game>, season: int) -> nat {
    count_where(s, season_pred(season))
}

/// How many games of `s` in `season` ended with `outcome`.
pub open spec fn outcome_count(s: Seq<Game>, outcome: Outcome, season: int) -> nat {
    count_where(s, outcome_pred(outcome, season))
}

/// How many appearances `team` makes in `s` across `seasons`.
pub open spec fn appearance_count(s: Seq<Game>, team: Seq<char>, seasons: Seq<usize>) -> nat {
    count_where(s, appearance_pred(team, seasons))
}

/// How many of those appearances `team` won.
pub open spec fn win_count(s: Seq<Game>, team: Seq<char>, seasons: Seq<usize>) -> nat {
    count_where(s, win_pred(team, seasons))
}

/// The goals scored over all games of `season` in `s`.
pub open spec fn season_goals(s: Seq<Game>, season: int) -> nat {
    sum_where(s, season_pred(season), goals_fn())
}

/// Every game of a season ends home win, away win or draw, and in
/// exactly one of the three: the three outcome counts of a season
/// partition its games, so the three result rates sum to exactly 100%.
pub proof fn lemma_outcome_partition(s: Seq<Game>, season: int)
    ensures
        outcome_count(s, Outcome::HomeWin, season) + outcome_count(s, Outcome::AwayWin, season)
            + outcome_count(s, Outcome::Draw, season) == games_in_season(s, season),
    decreases s.len(),
{
    if s.len() > 0 {
        lemma_outcome_partition(s.drop_last(), season);
    }
}

/// A team wins a game only when it takes part in it, so over any season
/// selection its wins never outnumber its appearances: the win rate lies
/// between 0% and 100%.
pub proof fn lemma_wins_le_appearances(s: Seq<Game>, team: Seq<char>, seasons: Seq<usize>)
    ensures
        win_count(s, team, seasons) <= appearance_count(s, team, seasons),
    decreases s.len(),
{
    if s.len() > 0 {
        lemma_wins_le_appearances(s.drop_last(), team, seasons);
    }
}

} // verus!
