use pl_stats::game::{ErrorKind, Game, Outcome};
use pl_stats::rate::Rate;
use pl_stats::stats::{goal_avg, greatest_interval, team_seasons, team_win_rate};
use pl_stats::wins::{away_pct, draw_pct, home_pct};

fn game(season: usize, week: usize, home: &str, away: &str, hg: usize, ag: usize, r: Outcome) -> Game {
    Game::new(
        season,
        week,
        format!("{}-01-01", season),
        home.to_string(),
        away.to_string(),
        hg,
        ag,
        r,
    )
}

fn three_result_games() -> Vec<Game> {
    vec![
        game(2000, 1, "A", "B", 4, 0, Outcome::HomeWin),
        game(2000, 1, "B", "C", 1, 2, Outcome::AwayWin),
        game(2000, 2, "C", "A", 1, 1, Outcome::Draw),
    ]
}

fn pct(r: Rate) -> f64 {
    100.0 * (r.count as f64) / (r.total as f64)
}

#[test]
fn test_result_rates() {
    let games = three_result_games();
    let season = 2000;
    let mut total_rate = pct(home_pct(&games, season).unwrap());
    total_rate += pct(draw_pct(&games, season).unwrap());
    total_rate += pct(away_pct(&games, season).unwrap());
    assert!(
        (total_rate - 100.0).abs() < 1e-9,
        "The total results percentage should be 100% for any given season!"
    );
}

#[test]
fn test_result_rates_exact_counts() {
    let games = three_result_games();
    assert_eq!(home_pct(&games, 2000).unwrap(), Rate { count: 1, total: 3 });
    assert_eq!(away_pct(&games, 2000).unwrap(), Rate { count: 1, total: 3 });
    assert_eq!(draw_pct(&games, 2000).unwrap(), Rate { count: 1, total: 3 });
    let one_third = 100.0 / 3.0;
    assert!((pct(home_pct(&games, 2000).unwrap()) - one_third).abs() < 1e-9);
}

#[test]
fn test_result_rates_empty_season() {
    let games = three_result_games();
    let e = home_pct(&games, 1999).unwrap_err();
    assert_eq!(e.kind, ErrorKind::NoMatchingGames);
}

#[test]
fn test_goal_average() {
    let games = three_result_games();
    let avg = goal_avg(&games, 2000).unwrap();
    assert_eq!(avg.goals, 9);
    assert_eq!(avg.games, 3);
    assert!(((avg.goals as f64) / (avg.games as f64) - 3.0).abs() < 1e-12);
}

#[test]
fn test_goal_average_empty_season() {
    let games = three_result_games();
    let e = goal_avg(&games, 2023).unwrap_err();
    assert_eq!(e.kind, ErrorKind::NoMatchingGames);
}

#[test]
fn test_win_rate_values() {
    let games = three_result_games();
    let seasons = vec![2000];
    // A plays twice (one home win, one draw): one win in two appearances.
    let rate = team_win_rate(&games, &"A".to_string(), &seasons).unwrap();
    assert_eq!(rate, Rate { count: 1, total: 2 });
    assert!((pct(rate) - 50.0).abs() < 1e-9);
    // B plays twice and wins nothing.
    let rate_b = team_win_rate(&games, &"B".to_string(), &seasons).unwrap();
    assert_eq!(rate_b, Rate { count: 0, total: 2 });
}

#[test]
fn test_win_rate_bounds() {
    let games = three_result_games();
    let seasons = vec![2000];
    for team in ["A", "B", "C"] {
        let rate = team_win_rate(&games, &team.to_string(), &seasons).unwrap();
        let p = pct(rate);
        assert!((0.0..=100.0).contains(&p));
    }
}

#[test]
fn test_win_rate_no_appearances() {
    let games = three_result_games();
    let e = team_win_rate(&games, &"Wimbledon".to_string(), &vec![2000]).unwrap_err();
    assert_eq!(e.kind, ErrorKind::NoMatchingGames);
    let e2 = team_win_rate(&games, &"A".to_string(), &vec![1995]).unwrap_err();
    assert_eq!(e2.kind, ErrorKind::NoMatchingGames);
}

#[test]
fn test_team_appearances() {
    let manutd = String::from("Manchester Utd");
    let mut games = Vec::new();
    let seasons: Vec<usize> = (1993..=2023).collect();
    for s in 1993..=2023usize {
        games.push(game(s, 1, "Manchester Utd", "Arsenal", 2, 1, Outcome::HomeWin));
        games.push(game(s, 2, "Arsenal", "Chelsea", 1, 1, Outcome::Draw));
    }
    let manutd_seasons = team_seasons(&games, &manutd, &seasons).1;
    assert_eq!(
        manutd_seasons,
        seasons.len(),
        "Manchester Utd has played in every season of the Premier League!"
    );
}

#[test]
fn test_team_appearances_dedup_and_subset() {
    let games = vec![
        game(2000, 1, "A", "B", 1, 0, Outcome::HomeWin),
        game(2000, 2, "B", "A", 0, 0, Outcome::Draw),
        game(2002, 1, "B", "C", 1, 2, Outcome::AwayWin),
    ];
    // The queried list repeats a season and names one without games.
    let queried = vec![2000, 2000, 2001, 2002];
    let (list, count) = team_seasons(&games, &"A".to_string(), &queried);
    assert_eq!(list, vec![2000]);
    assert_eq!(count, 1);
    let (list_b, count_b) = team_seasons(&games, &"B".to_string(), &queried);
    assert_eq!(list_b, vec![2000, 2002]);
    assert_eq!(count_b, 2);
    assert!(count_b <= 3);
}

#[test]
fn test_largest_margin() {
    let games = vec![
        game(2000, 1, "A", "B", 4, 0, Outcome::HomeWin),
        game(2000, 2, "B", "A", 2, 1, Outcome::HomeWin),
        game(2000, 3, "C", "A", 0, 2, Outcome::AwayWin),
    ];
    // A's biggest win is the 4-0 home result.
    let g = greatest_interval(&games, &"A".to_string(), &vec![2000]).unwrap();
    assert_eq!(g.home, "A");
    assert_eq!(g.home_goals, 4);
    assert_eq!(g.away_goals, 0);
    assert_eq!(g.week, 1);
}

#[test]
fn test_largest_margin_no_wins() {
    let games = vec![
        game(2000, 1, "A", "B", 4, 0, Outcome::HomeWin),
        game(2000, 2, "B", "C", 1, 1, Outcome::Draw),
    ];
    let e = greatest_interval(&games, &"C".to_string(), &vec![2000]).unwrap_err();
    assert_eq!(e.kind, ErrorKind::NoMatchingGames);
}

#[test]
fn test_largest_margin_tie_keeps_first() {
    let games = vec![
        game(2000, 1, "A", "B", 3, 1, Outcome::HomeWin),
        game(2000, 2, "C", "A", 0, 2, Outcome::AwayWin),
    ];
    // Both wins have margin 2; the first encountered is kept.
    let g = greatest_interval(&games, &"A".to_string(), &vec![2000]).unwrap();
    assert_eq!(g.week, 1);
}
