use pl_stats::game::{ErrorKind, Game, Outcome};
use pl_stats::rank::{top_appearances, top_percent};
use pl_stats::rate::Rate;

fn game(season: usize, week: usize, home: &str, away: &str, hg: usize, ag: usize, r: Outcome) -> Game {
    Game::new(
        season,
        week,
        format!("{}-01-01", season),
        home.to_string(),
        away.to_string(),
        hg,
        ag,
        r,
    )
}

fn league() -> (Vec<Game>, Vec<String>, Vec<usize>) {
    let games = vec![
        // A wins both its games, B wins one of two, C none.
        game(2000, 1, "A", "B", 2, 0, Outcome::HomeWin),
        game(2000, 2, "C", "A", 0, 1, Outcome::AwayWin),
        game(2000, 3, "B", "C", 3, 0, Outcome::HomeWin),
        game(2000, 4, "C", "B", 1, 1, Outcome::Draw),
        // Only B and C reappear the next season.
        game(2001, 1, "B", "C", 0, 0, Outcome::Draw),
    ];
    let teams = vec!["A".to_string(), "B".to_string(), "C".to_string()];
    let seasons = vec![2000, 2001];
    (games, teams, seasons)
}

#[test]
fn test_top_n_invalid_rank_zero() {
    let (games, teams, seasons) = league();
    let e = top_percent(&games, &teams, 0, &seasons).unwrap_err();
    assert_eq!(e.kind, ErrorKind::InvalidRank);
}

#[test]
fn test_top_n_invalid_rank_too_many() {
    let (games, teams, seasons) = league();
    let e = top_percent(&games, &teams, 4, &seasons).unwrap_err();
    assert_eq!(e.kind, ErrorKind::InvalidRank);
    let e2 = top_appearances(&games, &teams, &seasons, 9).unwrap_err();
    assert_eq!(e2.kind, ErrorKind::InvalidRank);
}

#[test]
fn test_top_percent_order() {
    let (games, teams, seasons) = league();
    let top = top_percent(&games, &teams, 3, &seasons).unwrap();
    assert_eq!(top.len(), 3);
    // A won 2 of 2, B 1 of 3, C 0 of 4.
    assert_eq!(top[0].0, "A");
    assert_eq!(top[0].1, Rate { count: 2, total: 2 });
    assert_eq!(top[1].0, "B");
    assert_eq!(top[1].1, Rate { count: 1, total: 4 });
    assert_eq!(top[2].0, "C");
    assert_eq!(top[2].1, Rate { count: 0, total: 4 });
}

#[test]
fn test_top_percent_truncates() {
    let (games, teams, seasons) = league();
    let top = top_percent(&games, &teams, 1, &seasons).unwrap();
    assert_eq!(top.len(), 1);
    assert_eq!(top[0].0, "A");
}

#[test]
fn test_top_percent_tie_break_by_position() {
    let games = vec![
        game(2000, 1, "X", "Y", 1, 0, Outcome::HomeWin),
        game(2000, 2, "Y", "X", 1, 0, Outcome::HomeWin),
    ];
    // X and Y both won 1 of 2: the tie goes to the earlier list position.
    let teams = vec!["Y".to_string(), "X".to_string()];
    let top = top_percent(&games, &teams, 2, &vec![2000]).unwrap();
    assert_eq!(top[0].0, "Y");
    assert_eq!(top[1].0, "X");
}

#[test]
fn test_top_appearances_order() {
    let (games, teams, seasons) = league();
    let top = top_appearances(&games, &teams, &seasons, 3).unwrap();
    // B and C appear in both seasons, A only in the first; the B/C tie
    // goes to B, the earlier list position.
    assert_eq!(top[0].0, "B");
    assert_eq!(top[0].1, 2);
    assert_eq!(top[1].0, "C");
    assert_eq!(top[1].1, 2);
    assert_eq!(top[2].0, "A");
    assert_eq!(top[2].1, 1);
}

#[test]
fn test_top_percent_counts_teams_without_games() {
    let (games, teams, _) = league();
    // In a season where nobody listed plays, every team ranks as zero and
    // the tie order follows the team list.
    let top = top_percent(&games, &teams, 3, &vec![1980]).unwrap();
    assert_eq!(top[0].0, "A");
    assert_eq!(top[1].0, "B");
    assert_eq!(top[2].0, "C");
    assert_eq!(top[0].1, Rate { count: 0, total: 1 });
}
