//! Leaderboards: the top `n` teams by win rate or by seasons appeared,
//! ranked descending by the statistic with ties resolved by the team's
//! position in the queried team list (earlier position first).

use vstd::prelude::*;
use crate::count::{appearance_count, win_count};
use crate::game::{ErrorKind, Game, MyError};
use crate::rate::{rate_eq, rate_gt, rate_is_eq, rate_is_gt, Rate};
use crate::stats::{seasons_played, team_seasons, team_win_rate};

verus! {

/// The win rate used for ranking: a team with no appearance in the
/// queried seasons ranks as zero.
pub open spec fn normalized_rate(games: Seq<Game>, team: Seq<char>, seasons: Seq<usize>) -> Rate {
    if appearance_count(games, team, seasons) == 0 {
        Rate { count: 0, total: 1 }
    } else {
        Rate {
            count: win_count(games, team, seasons) as usize,
            total: appearance_count(games, team, seasons) as usize,
        }
    }
}

/// The seasons-appeared statistic used for ranking.
pub open spec fn appearance_value(games: Seq<Game>, team: Seq<char>, seasons: Seq<usize>) -> int {
    seasons_played(games, team, seasons).len() as int
}

/// The ranking order on rates: strictly greater ratio first, the
/// earlier list position first on an exactly equal ratio.
pub open spec fn key_gt(a: Rate, ai: int, b: Rate, bi: int) -> bool {
    rate_gt(a, b) || (rate_eq(a, b) && ai < bi)
}

/// The ranking order on integer statistics: greater value first, the
/// earlier list position first on a tie.
pub open spec fn int_key_gt(a: int, ai: int, b: int, bi: int) -> bool {
    a > b || (a == b && ai < bi)
}

/// Decides the ranking order on rates.
fn key_is_gt(a: &Rate, ai: usize, b: &Rate, bi: usize) -> (r: bool)
    ensures
        r == key_gt(*a, ai as int, *b, bi as int),
{
    if rate_is_gt(a, b) {
        true
    } else {
        rate_is_eq(a, b) && ai < bi
    }
}

/// The ranking order is transitive on rates with positive denominators.
proof fn lemma_key_gt_trans(a: Rate, ai: int, b: Rate, bi: int, c: Rate, ci: int)
    requires
        0 < a.total,
        0 < b.total,
        0 < c.total,
        key_gt(a, ai, b, bi),
        key_gt(b, bi, c, ci),
    ensures
        key_gt(a, ai, c, ci),
{
    let ac = a.count as int;
    let at = a.total as int;
    let bc = b.count as int;
    let bt = b.total as int;
    let cc = c.count as int;
    let ct = c.total as int;
    if rate_gt(a, b) && rate_gt(b, c) {
        assert(ac * ct > cc * at) by (nonlinear_arith)
            requires
                ac * bt > bc * at,
                bc * ct > cc * bt,
                0 < at,
                0 < bt,
                0 < ct,
        ;
    } else if rate_gt(a, b) && rate_eq(b, c) {
        assert(ac * ct > cc * at) by (nonlinear_arith)
            requires
                ac * bt > bc * at,
                bc * ct == cc * bt,
                0 < at,
                0 < bt,
                0 < ct,
        ;
    } else if rate_eq(a, b) && rate_gt(b, c) {
        assert(ac * ct > cc * at) by (nonlinear_arith)
            requires
                ac * bt == bc * at,
                bc * ct > cc * bt,
                0 < at,
                0 < bt,
                0 < ct,
        ;
    } else {
        assert(ac * ct == cc * at) by (nonlinear_arith)
            requires
                ac * bt == bc * at,
                bc * ct == cc * bt,
                0 < at,
                0 < bt,
                0 < ct,
        ;
    }
}

/// `top` lists, in ranking order, the teams at the positions `idx` of
/// `teams` with their win rates, and every team left out ranks at or
/// below every listed one.
pub open spec fn ranked_by_rate(
    games: Seq<Game>,
    teams: Seq<String>,
    seasons: Seq<usize>,
    top: Seq<(String, Rate)>,
    idx: Seq<usize>,
) -> bool {
    &&& idx.len() == top.len()
    &&& (forall|k: int| 0 <= k < idx.len() ==> (#[trigger] idx[k]) < teams.len())
    &&& idx.no_duplicates()
    &&& (forall|k: int|
        0 <= k < top.len() ==> (#[trigger] top[k]).0@ == teams[idx[k] as int]@ && top[k].1
            == normalized_rate(games, teams[idx[k] as int]@, seasons))
    &&& (forall|k: int, l: int|
        #![trigger top[k], top[l]]
        0 <= k < l < top.len() ==> key_gt(top[k].1, idx[k] as int, top[l].1, idx[l] as int))
    &&& (forall|k: int, j: int|
        #![trigger top[k], teams[j]]
        0 <= k < top.len() && 0 <= j < teams.len() && !idx.contains(j as usize) ==> key_gt(
            top[k].1,
            idx[k] as int,
            normalized_rate(games, teams[j]@, seasons),
            j,
        ))
}

/// Some choice of positions ranks `top` by win rate.
pub open spec fn some_ranking_by_rate(
    games: Seq<Game>,
    teams: Seq<String>,
    seasons: Seq<usize>,
    top: Seq<(String, Rate)>,
) -> bool {
    exists|idx: Seq<usize>| ranked_by_rate(games, teams, seasons, top, idx)
}

/// Some choice of positions ranks `top` by seasons appeared.
pub open spec fn some_ranking_by_appearances(
    games: Seq<Game>,
    teams: Seq<String>,
    seasons: Seq<usize>,
    top: Seq<(String, usize)>,
) -> bool {
    exists|idx: Seq<usize>| ranked_by_appearances(games, teams, seasons, top, idx)
}

/// The win rate of every listed team, aligned with the team list.
fn team_rates(games: &Vec<Game>, teams: &Vec<String>, seasons: &Vec<usize>) -> (vals: Vec<Rate>)
    ensures
        vals@.len() == teams@.len(),
        forall|k: int|
            0 <= k < teams@.len() ==> (#[trigger] vals@[k]) == normalized_rate(
                games@,
                teams@[k]@,
                seasons@,
            ) && vals@[k].total > 0,
{
    let t = teams.len();
    let mut vals: Vec<Rate> = Vec::new();
    let mut k: usize = 0;
    while k < t
        invariant
            0 <= k <= t,
            t == teams@.len(),
            vals@.len() == k,
            forall|m: int|
                0 <= m < k ==> (#[trigger] vals@[m]) == normalized_rate(
                    games@,
                    teams@[m]@,
                    seasons@,
                ) && vals@[m].total > 0,
        decreases t - k,
    {
        proof {
            crate::count::lemma_count_le_len(games@, crate::count::win_pred(teams@[k as int]@, seasons@));
            crate::count::lemma_count_le_len(
                games@,
                crate::count::appearance_pred(teams@[k as int]@, seasons@),
            );
        }
        let r = match team_win_rate(games, &teams[k], seasons) {
            Ok(rate) => rate,
            Err(_) => Rate { count: 0, total: 1 },
        };
        vals.push(r);
        k = k + 1;
    }
    vals
}

/// The top `n` teams by win rate across the given seasons, descending,
/// ties resolved by position in `teams`. Fails when `n` is zero or
/// exceeds the number of teams listed.
pub fn top_percent(games: &Vec<Game>, teams: &Vec<String>, n: usize, seasons: &Vec<usize>) -> (r:
    Result<Vec<(String, Rate)>, MyError>)
    ensures
        r is Ok <==> 1 <= n <= teams@.len(),
        r matches Err(e) ==> e.kind == ErrorKind::InvalidRank,
        r matches Ok(top) ==> top@.len() == n,
        r matches Ok(top) ==> some_ranking_by_rate(games@, teams@, seasons@, top@),
{
    let t = teams.len();
    if n == 0 || n > t {
        return Err(MyError { kind: ErrorKind::InvalidRank });
    }
    let vals = team_rates(games, teams, seasons);
    let mut top: Vec<(String, Rate)> = Vec::new();
    let mut chosen: Vec<usize> = Vec::new();
    let mut k: usize = 0;
    while k < n
        invariant
            0 <= k <= n,
            1 <= n <= t,
            t == teams@.len(),
            vals@.len() == t,
            forall|m: int|
                0 <= m < t ==> (#[trigger] vals@[m]) == normalized_rate(
                    games@,
                    teams@[m]@,
                    seasons@,
                ) && vals@[m].total > 0,
            top@.len() == k,
            chosen@.len() == k,
            ranked_by_rate(games@, teams@, seasons@, top@, chosen@),
        decreases n - k,
    {
        let mut best: usize = 0;
        let mut have: bool = false;
        let mut j: usize = 0;
        while j < t
            invariant
                0 <= j <= t,
                t == teams@.len(),
                vals@.len() == t,
                forall|m: int|
                    0 <= m < t ==> (#[trigger] vals@[m]) == normalized_rate(
                        games@,
                        teams@[m]@,
                        seasons@,
                    ) && vals@[m].total > 0,
                have ==> ({
                    &&& best < j
                    &&& !chosen@.contains(best)
                    &&& forall|m: int|
                        0 <= m < j && !chosen@.contains(m as usize) && m != best ==> key_gt(
                            vals@[best as int],
                            best as int,
                            #[trigger] vals@[m],
                            m,
                        )
                }),
                !have ==> forall|m: int| 0 <= m < j ==> chosen@.contains(#[trigger] (m as usize)),
            decreases t - j,
        {
            if !crate::stats::contains_usize(&chosen, j) {
                if !have {
                    have = true;
                    best = j;
                } else if key_is_gt(&vals[j], j, &vals[best], best) {
                    proof {
                        assert forall|m: int|
                            0 <= m < j && !chosen@.contains(m as usize) && m != j implies key_gt(
                            vals@[j as int],
                            j as int,
                            #[trigger] vals@[m],
                            m,
                        ) by {
                            if m != best {
                                lemma_key_gt_trans(
                                    vals@[j as int],
                                    j as int,
                                    vals@[best as int],
                                    best as int,
                                    vals@[m],
                                    m,
                                );
                            }
                        }
                    }
                    best = j;
                }
            }
            j = j + 1;
        }
        proof {
            if !have {
                assert forall|m: int| 0 <= m < t implies chosen@.contains(
                    #[trigger] (m as usize),
                ) by {
                    assert(chosen@.contains((m as usize)));
                }
                lemma_covers_range_len(chosen@, t as int);
            }
        }
        let ghost old_top = top@;
        let ghost old_chosen = chosen@;
        let entry = (teams[best].clone(), vals[best]);
        proof {
            assert(entry.0@ == teams@[best as int]@);
            assert(entry.1 == vals@[best as int]);
        }
        top.push(entry);
        chosen.push(best);
        proof {
            let nt = top@;
            let nc = chosen@;
            let ki = k as int;
            assert(nt =~= old_top.push(entry));
            assert(nc =~= old_chosen.push(best));
            assert forall|k2: int| 0 <= k2 < nc.len() implies (#[trigger] nc[k2])
                < teams@.len() by {
                if k2 < ki {
                    assert(nc[k2] == old_chosen[k2]);
                } else {
                    assert(nc[k2] == best);
                }
            }
            assert forall|i2: int, j2: int|
                0 <= i2 < nc.len() && 0 <= j2 < nc.len() && i2 != j2 implies nc[i2] != nc[j2] by {
                if i2 < ki && j2 < ki {
                    assert(nc[i2] == old_chosen[i2] && nc[j2] == old_chosen[j2]);
                } else if i2 < ki {
                    assert(nc[i2] == old_chosen[i2] && nc[j2] == best);
                    assert(!old_chosen.contains(best));
                } else {
                    assert(nc[i2] == best && nc[j2] == old_chosen[j2]);
                    assert(!old_chosen.contains(best));
                }
            }
            assert forall|k2: int|
                0 <= k2 < nt.len() implies (#[trigger] nt[k2]).0@ == teams@[nc[k2] as int]@
                && nt[k2].1 == normalized_rate(games@, teams@[nc[k2] as int]@, seasons@) by {
                if k2 < ki {
                    assert(nt[k2] == old_top[k2] && nc[k2] == old_chosen[k2]);
                    assert((old_top[k2]).0@ == teams@[old_chosen[k2] as int]@);
                } else {
                    assert(nt[k2] == entry && nc[k2] == best);
                    assert(vals@[best as int] == normalized_rate(
                        games@,
                        teams@[best as int]@,
                        seasons@,
                    ));
                }
            }
            assert forall|k2: int, l2: int|
                #![trigger nt[k2], nt[l2]]
                0 <= k2 < l2 < nt.len() implies key_gt(
                nt[k2].1,
                nc[k2] as int,
                nt[l2].1,
                nc[l2] as int,
            ) by {
                if l2 < ki {
                    assert(nt[k2] == old_top[k2] && nt[l2] == old_top[l2]);
                    assert(nc[k2] == old_chosen[k2] && nc[l2] == old_chosen[l2]);
                    assert(key_gt(
                        (old_top[k2]).1,
                        old_chosen[k2] as int,
                        (old_top[l2]).1,
                        old_chosen[l2] as int,
                    ));
                } else {
                    assert(l2 == ki);
                    assert(nt[l2] == entry && nc[l2] == best);
                    assert(nt[k2] == old_top[k2] && nc[k2] == old_chosen[k2]);
                    assert(0 <= best < teams@.len() && !old_chosen.contains(
                        ((best as int) as usize),
                    ));
                    assert(key_gt(
                        (old_top[k2]).1,
                        old_chosen[k2] as int,
                        normalized_rate(games@, teams@[best as int]@, seasons@),
                        best as int,
                    ));
                    assert(vals@[best as int] == normalized_rate(
                        games@,
                        teams@[best as int]@,
                        seasons@,
                    ));
                }
            }
            assert forall|k2: int, j2: int|
                #![trigger nt[k2], teams@[j2]]
                0 <= k2 < nt.len() && 0 <= j2 < teams@.len() && !nc.contains(j2 as usize)
                implies key_gt(
                nt[k2].1,
                nc[k2] as int,
                normalized_rate(games@, teams@[j2]@, seasons@),
                j2,
            ) by {
                assert(nc[ki] == best);
                assert(j2 as usize != best) by {
                    if j2 as usize == best {
                        assert(nc[ki] == j2 as usize);
                        assert(nc.contains(j2 as usize));
                    }
                }
                assert(!old_chosen.contains(j2 as usize)) by {
                    if old_chosen.contains(j2 as usize) {
                        let w = choose|w: int|
                            0 <= w < old_chosen.len() && old_chosen[w] == j2 as usize;
                        assert(nc[w] == j2 as usize);
                        assert(nc.contains(j2 as usize));
                    }
                }
                if k2 < ki {
                    assert(nt[k2] == old_top[k2] && nc[k2] == old_chosen[k2]);
                    assert(key_gt(
                        (old_top[k2]).1,
                        old_chosen[k2] as int,
                        normalized_rate(games@, teams@[j2]@, seasons@),
                        j2,
                    ));
                } else {
                    assert(nt[k2] == entry && nc[k2] == best);
                    assert(vals@[j2] == normalized_rate(games@, teams@[j2]@, seasons@));
                    assert(j2 != best as int);
                    assert(key_gt(vals@[best as int], best as int, vals@[j2], j2));
                }
            }
        }
        k = k + 1;
    }
    proof {
        assert(some_ranking_by_rate(games@, teams@, seasons@, top@)) by {
            assert(ranked_by_rate(games@, teams@, seasons@, top@, chosen@));
        }
    }
    Ok(top)
}

/// `top` lists, in ranking order, the teams at the positions `idx` of
/// `teams` with their season-appearance counts, and every team left out
/// ranks at or below every listed one.
pub open spec fn ranked_by_appearances(
    games: Seq<Game>,
    teams: Seq<String>,
    seasons: Seq<usize>,
    top: Seq<(String, usize)>,
    idx: Seq<usize>,
) -> bool {
    &&& idx.len() == top.len()
    &&& (forall|k: int| 0 <= k < idx.len() ==> (#[trigger] idx[k]) < teams.len())
    &&& idx.no_duplicates()
    &&& (forall|k: int|
        0 <= k < top.len() ==> (#[trigger] top[k]).0@ == teams[idx[k] as int]@ && top[k].1 as int
            == appearance_value(games, teams[idx[k] as int]@, seasons))
    &&& (forall|k: int, l: int|
        #![trigger top[k], top[l]]
        0 <= k < l < top.len() ==> int_key_gt(
            top[k].1 as int,
            idx[k] as int,
            top[l].1 as int,
            idx[l] as int,
        ))
    &&& (forall|k: int, j: int|
        #![trigger top[k], teams[j]]
        0 <= k < top.len() && 0 <= j < teams.len() && !idx.contains(j as usize) ==> int_key_gt(
            top[k].1 as int,
            idx[k] as int,
            appearance_value(games, teams[j]@, seasons),
            j,
        ))
}

/// The seasons-appeared count of every listed team, aligned with the
/// team list.
fn team_appearance_counts(games: &Vec<Game>, teams: &Vec<String>, seasons: &Vec<usize>) -> (vals:
    Vec<usize>)
    ensures
        vals@.len() == teams@.len(),
        forall|k: int|
            0 <= k < teams@.len() ==> (#[trigger] vals@[k]) as int == appearance_value(
                games@,
                teams@[k]@,
                seasons@,
            ),
{
    let t = teams.len();
    let mut vals: Vec<usize> = Vec::new();
    let mut k: usize = 0;
    while k < t
        invariant
            0 <= k <= t,
            t == teams@.len(),
            vals@.len() == k,
            forall|m: int|
                0 <= m < k ==> (#[trigger] vals@[m]) as int == appearance_value(
                    games@,
                    teams@[m]@,
                    seasons@,
                ),
        decreases t - k,
    {
        let (_, cnt) = team_seasons(games, &teams[k], seasons);
        vals.push(cnt);
        k = k + 1;
    }
    vals
}

/// The top `n` teams by seasons appeared across the given seasons,
/// descending, ties resolved by position in `teams`. Fails when `n` is
/// zero or exceeds the number of teams listed.
#[verifier::rlimit(60)]
pub fn top_appearances(
    games: &Vec<Game>,
    teams: &Vec<String>,
    seasons: &Vec<usize>,
    n: usize,
) -> (r: Result<Vec<(String, usize)>, MyError>)
    ensures
        r is Ok <==> 1 <= n <= teams@.len(),
        r matches Err(e) ==> e.kind == ErrorKind::InvalidRank,
        r matches Ok(top) ==> top@.len() == n,
        r matches Ok(top) ==> some_ranking_by_appearances(games@, teams@, seasons@, top@),
{
    let t = teams.len();
    if n == 0 || n > t {
        return Err(MyError { kind: ErrorKind::InvalidRank });
    }
    let vals = team_appearance_counts(games, teams, seasons);
    let mut top: Vec<(String, usize)> = Vec::new();
    let mut chosen: Vec<usize> = Vec::new();
    let mut k: usize = 0;
    while k < n
        invariant
            0 <= k <= n,
            1 <= n <= t,
            t == teams@.len(),
            vals@.len() == t,
            forall|m: int|
                0 <= m < t ==> (#[trigger] vals@[m]) as int == appearance_value(
                    games@,
                    teams@[m]@,
                    seasons@,
                ),
            top@.len() == k,
            chosen@.len() == k,
            ranked_by_appearances(games@, teams@, seasons@, top@, chosen@),
        decreases n - k,
    {
        let mut best: usize = 0;
        let mut have: bool = false;
        let mut j: usize = 0;
        while j < t
            invariant
                0 <= j <= t,
                t == teams@.len(),
                vals@.len() == t,
                have ==> ({
                    &&& best < j
                    &&& !chosen@.contains(best)
                    &&& forall|m: int|
                        0 <= m < j && !chosen@.contains(m as usize) && m != best ==> int_key_gt(
                            vals@[best as int] as int,
                            best as int,
                            (#[trigger] vals@[m]) as int,
                            m,
                        )
                }),
                !have ==> forall|m: int| 0 <= m < j ==> chosen@.contains(#[trigger] (m as usize)),
            decreases t - j,
        {
            if !crate::stats::contains_usize(&chosen, j) {
                if !have {
                    have = true;
                    best = j;
                } else if vals[j] > vals[best] || (vals[j] == vals[best] && j < best) {
                    best = j;
                }
            }
            j = j + 1;
        }
        proof {
            if !have {
                assert forall|m: int| 0 <= m < t implies chosen@.contains(
                    #[trigger] (m as usize),
                ) by {
                    assert(chosen@.contains((m as usize)));
                }
                lemma_covers_range_len(chosen@, t as int);
            }
        }
        let ghost old_top = top@;
        let ghost old_chosen = chosen@;
        let entry = (teams[best].clone(), vals[best]);
        proof {
            assert(entry.0@ == teams@[best as int]@);
            assert(entry.1 == vals@[best as int]);
        }
        top.push(entry);
        chosen.push(best);
        proof {
            let nt = top@;
            let nc = chosen@;
            let ki = k as int;
            assert(nt =~= old_top.push(entry));
            assert(nc =~= old_chosen.push(best));
            assert forall|k2: int| 0 <= k2 < nc.len() implies (#[trigger] nc[k2])
                < teams@.len() by {
                if k2 < ki {
                    assert(nc[k2] == old_chosen[k2]);
                } else {
                    assert(nc[k2] == best);
                }
            }
            assert forall|i2: int, j2: int|
                0 <= i2 < nc.len() && 0 <= j2 < nc.len() && i2 != j2 implies nc[i2] != nc[j2] by {
                if i2 < ki && j2 < ki {
                    assert(nc[i2] == old_chosen[i2] && nc[j2] == old_chosen[j2]);
                } else if i2 < ki {
                    assert(nc[i2] == old_chosen[i2] && nc[j2] == best);
                    assert(!old_chosen.contains(best));
                } else {
                    assert(nc[i2] == best && nc[j2] == old_chosen[j2]);
                    assert(!old_chosen.contains(best));
                }
            }
            assert forall|k2: int|
                0 <= k2 < nt.len() implies (#[trigger] nt[k2]).0@ == teams@[nc[k2] as int]@
                && nt[k2].1 as int == appearance_value(games@, teams@[nc[k2] as int]@, seasons@) by {
                if k2 < ki {
                    assert(nt[k2] == old_top[k2] && nc[k2] == old_chosen[k2]);
                    assert((old_top[k2]).0@ == teams@[old_chosen[k2] as int]@);
                } else {
                    assert(nt[k2] == entry && nc[k2] == best);
                    assert(vals@[best as int] as int == appearance_value(
                        games@,
                        teams@[best as int]@,
                        seasons@,
                    ));
                }
            }
            assert forall|k2: int, l2: int|
                #![trigger nt[k2], nt[l2]]
                0 <= k2 < l2 < nt.len() implies int_key_gt(
                nt[k2].1 as int,
                nc[k2] as int,
                nt[l2].1 as int,
                nc[l2] as int,
            ) by {
                if l2 < ki {
                    assert(nt[k2] == old_top[k2] && nt[l2] == old_top[l2]);
                    assert(nc[k2] == old_chosen[k2] && nc[l2] == old_chosen[l2]);
                    assert(int_key_gt(
                        (old_top[k2]).1 as int,
                        old_chosen[k2] as int,
                        (old_top[l2]).1 as int,
                        old_chosen[l2] as int,
                    ));
                } else {
                    assert(l2 == ki);
                    assert(nt[l2] == entry && nc[l2] == best);
                    assert(nt[k2] == old_top[k2] && nc[k2] == old_chosen[k2]);
                    assert(0 <= best < teams@.len() && !old_chosen.contains(
                        ((best as int) as usize),
                    ));
                    assert(int_key_gt(
                        (old_top[k2]).1 as int,
                        old_chosen[k2] as int,
                        appearance_value(games@, teams@[best as int]@, seasons@),
                        best as int,
                    ));
                    assert(vals@[best as int] as int == appearance_value(
                        games@,
                        teams@[best as int]@,
                        seasons@,
                    ));
                }
            }
            assert forall|k2: int, j2: int|
                #![trigger nt[k2], teams@[j2]]
                0 <= k2 < nt.len() && 0 <= j2 < teams@.len() && !nc.contains(j2 as usize)
                implies int_key_gt(
                nt[k2].1 as int,
                nc[k2] as int,
                appearance_value(games@, teams@[j2]@, seasons@),
                j2,
            ) by {
                assert(nc[ki] == best);
                assert(j2 as usize != best) by {
                    if j2 as usize == best {
                        assert(nc[ki] == j2 as usize);
                        assert(nc.contains(j2 as usize));
                    }
                }
                assert(!old_chosen.contains(j2 as usize)) by {
                    if old_chosen.contains(j2 as usize) {
                        let w = choose|w: int|
                            0 <= w < old_chosen.len() && old_chosen[w] == j2 as usize;
                        assert(nc[w] == j2 as usize);
                        assert(nc.contains(j2 as usize));
                    }
                }
                if k2 < ki {
                    assert(nt[k2] == old_top[k2] && nc[k2] == old_chosen[k2]);
                    assert(int_key_gt(
                        (old_top[k2]).1 as int,
                        old_chosen[k2] as int,
                        appearance_value(games@, teams@[j2]@, seasons@),
                        j2,
                    ));
                } else {
                    assert(nt[k2] == entry && nc[k2] == best);
                    assert(vals@[j2] as int == appearance_value(games@, teams@[j2]@, seasons@));
                    assert(j2 != best as int);
                    assert(int_key_gt(
                        vals@[best as int] as int,
                        best as int,
                        vals@[j2] as int,
                        j2,
                    ));
                }
            }
        }
        k = k + 1;
    }
    proof {
        assert(some_ranking_by_appearances(games@, teams@, seasons@, top@)) by {
            assert(ranked_by_appearances(games@, teams@, seasons@, top@, chosen@));
        }
    }
    Ok(top)
}

/// If every position below `m` occurs in `s`, then `s` has at least `m`
/// entries.
proof fn lemma_covers_range_len(s: Seq<usize>, m: int)
    requires
        m <= usize::MAX as int + 1,
        0 <= m,
        forall|p: int| 0 <= p < m ==> s.contains(#[trigger] (p as usize)),
    ensures
        s.len() >= m,
    decreases m,
{
    if m > 0 {
        let w = choose|w: int| 0 <= w < s.len() && s[w] == ((m - 1) as usize);
        let t = s.remove(w);
        s.remove_ensures(w);
        assert forall|p: int| 0 <= p < m - 1 implies t.contains(#[trigger] (p as usize)) by {
            let u = choose|u: int| 0 <= u < s.len() && s[u] == ((p as usize));
            if u < w {
                assert(t[u] == s[u]);
            } else {
                assert(u != w);
                assert(t[u - 1] == s[u]);
            }
        }
        lemma_covers_range_len(t, m - 1);
    }
}

} // verus!
