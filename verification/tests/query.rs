use pl_stats::game::{ErrorKind, Game, Outcome};
use pl_stats::query::{
    all_team_names, highest_goal_avg_season, lowest_home_rate_season, run_query, season_range,
};
use pl_stats::rate::{GoalAvg, Rate};

fn game(season: usize, week: usize, home: &str, away: &str, hg: usize, ag: usize, r: Outcome) -> Game {
    Game::new(
        season,
        week,
        format!("{}-01-01", season),
        home.to_string(),
        away.to_string(),
        hg,
        ag,
        r,
    )
}

fn league() -> (Vec<Game>, Vec<String>, Vec<usize>) {
    let games = vec![
        game(2000, 1, "A", "B", 4, 0, Outcome::HomeWin),
        game(2000, 2, "B", "A", 1, 1, Outcome::Draw),
        game(2001, 1, "A", "B", 0, 1, Outcome::AwayWin),
        game(2001, 2, "B", "A", 2, 0, Outcome::HomeWin),
        game(2002, 1, "A", "B", 1, 0, Outcome::HomeWin),
    ];
    let teams = vec!["A".to_string(), "B".to_string()];
    let seasons = vec![2000, 2001, 2002];
    (games, teams, seasons)
}

#[test]
fn test_season_range_inclusive() {
    assert_eq!(season_range(1993, 1996), vec![1993, 1994, 1995, 1996]);
    assert_eq!(season_range(2000, 2000), vec![2000]);
    assert_eq!(season_range(2001, 2000), Vec::<usize>::new());
}

#[test]
fn test_all_team_names_distinct_in_order() {
    let (games, _, _) = league();
    assert_eq!(all_team_names(&games), vec!["A".to_string(), "B".to_string()]);
}

#[test]
fn test_run_query_success() {
    let (games, teams, seasons) = league();
    let rep = run_query(&games, &teams, &seasons, &"A".to_string(), "2000", "2001").unwrap();
    assert_eq!(rep.team, "A");
    assert_eq!(rep.seasons, vec![2000, 2001]);
    assert_eq!(rep.season_count, 2);
    // A played 4 games in 2000-2001 and won one of them.
    assert_eq!(rep.rate, Rate { count: 1, total: 4 });
    let biggest = rep.biggest.unwrap();
    assert_eq!(biggest.season, 2000);
    assert_eq!(biggest.home_goals, 4);
}

#[test]
fn test_run_query_unknown_team() {
    let (games, teams, seasons) = league();
    let e = run_query(&games, &teams, &seasons, &"Z".to_string(), "2000", "2001").unwrap_err();
    assert_eq!(e.kind, ErrorKind::UnknownTeam);
}

#[test]
fn test_run_query_non_numeric_season() {
    let (games, teams, seasons) = league();
    let e = run_query(&games, &teams, &seasons, &"A".to_string(), "20a0", "2001").unwrap_err();
    assert_eq!(e.kind, ErrorKind::InvalidSeasonRange);
}

#[test]
fn test_run_query_inverted_range() {
    let (games, teams, seasons) = league();
    let e = run_query(&games, &teams, &seasons, &"A".to_string(), "2001", "2000").unwrap_err();
    assert_eq!(e.kind, ErrorKind::InvalidSeasonRange);
}

#[test]
fn test_run_query_season_out_of_range() {
    let (games, teams, seasons) = league();
    let e = run_query(&games, &teams, &seasons, &"A".to_string(), "2000", "2010").unwrap_err();
    assert_eq!(e.kind, ErrorKind::InvalidSeasonRange);
}

#[test]
fn test_run_query_no_biggest_win_without_wins() {
    let games = vec![
        game(2000, 1, "A", "B", 0, 0, Outcome::Draw),
        game(2000, 2, "B", "A", 1, 0, Outcome::HomeWin),
    ];
    let teams = vec!["A".to_string(), "B".to_string()];
    let seasons = vec![2000];
    let rep = run_query(&games, &teams, &seasons, &"A".to_string(), "2000", "2000").unwrap();
    assert_eq!(rep.rate, Rate { count: 0, total: 2 });
    assert!(rep.biggest.is_none());
}

#[test]
fn test_lowest_home_rate_season() {
    let (games, _, seasons) = league();
    // Home-win rates: 2000 1/2, 2001 1/2, 2002 1/1: the tie between the
    // two lowest goes to the earlier queried season.
    let (worst, rate) = lowest_home_rate_season(&games, &seasons).unwrap();
    assert_eq!(worst, 2000);
    assert_eq!(rate, Rate { count: 1, total: 2 });
}

#[test]
fn test_lowest_home_rate_season_no_games() {
    let (games, _, _) = league();
    let e = lowest_home_rate_season(&games, &vec![1980, 1981]).unwrap_err();
    assert_eq!(e.kind, ErrorKind::NoMatchingGames);
}

#[test]
fn test_highest_goal_avg_season() {
    let (games, _, seasons) = league();
    // Goal averages: 2000 has 6/2, 2001 has 3/2, 2002 has 1/1.
    let (best, avg) = highest_goal_avg_season(&games, &seasons).unwrap();
    assert_eq!(best, 2000);
    assert_eq!(avg, GoalAvg { goals: 6, games: 2 });
}

#[test]
fn test_highest_goal_avg_season_no_games() {
    let (games, _, _) = league();
    let e = highest_goal_avg_season(&games, &vec![1980]).unwrap_err();
    assert_eq!(e.kind, ErrorKind::NoMatchingGames);
}
