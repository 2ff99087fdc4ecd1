use pl_stats::game::{DataFrame, ErrorKind, Outcome};

fn row(fields: &[&str]) -> Vec<String> {
    fields.iter().map(|f| f.to_string()).collect()
}

#[test]
fn test_read_csv_round_trip() {
    let text = "season,week,date,home_team,home_goals,away_goals,away_team,ftr\n\
                2000,1,2000-08-19,Arsenal,4,0,Burnley,H\n\
                2000,1,2000-08-20,Burnley,1,2,Chelsea,A\n\
                2000,2,2000-08-27,Chelsea,1,1,Arsenal,D\n";
    let df = DataFrame::read_csv(text).unwrap();
    assert_eq!(df.headers.len(), 8);
    assert_eq!(df.headers[0], "season");
    assert_eq!(df.headers[7], "ftr");
    assert_eq!(df.games.len(), 3);
    let g = &df.games[0];
    assert_eq!(g.season, 2000);
    assert_eq!(g.week, 1);
    assert_eq!(g.date, "2000-08-19");
    assert_eq!(g.home, "Arsenal");
    assert_eq!(g.home_goals, 4);
    assert_eq!(g.away_goals, 0);
    assert_eq!(g.away, "Burnley");
    assert_eq!(g.result, Outcome::HomeWin);
    assert_eq!(df.games[1].result, Outcome::AwayWin);
    assert_eq!(df.games[2].result, Outcome::Draw);
}

#[test]
fn test_goal_attribution_mapping() {
    // Goal columns sit between the team-name columns: home goals and away
    // goals come before the away team's name.
    let text = "s,w,d,h,hg,ag,a,r\n1999,3,1999-09-01,Leeds,5,2,Derby,H\n";
    let df = DataFrame::read_csv(text).unwrap();
    let g = &df.games[0];
    assert_eq!(g.home, "Leeds");
    assert_eq!(g.home_goals, 5);
    assert_eq!(g.away_goals, 2);
    assert_eq!(g.away, "Derby");
}

#[test]
fn test_from_rows_round_trip() {
    let rows = vec![
        row(&["season", "week", "date", "home", "hg", "ag", "away", "ftr"]),
        row(&["1993", "1", "1993-08-14", "Norwich", "0", "2", "Everton", "A"]),
        row(&["1994", "2", "1994-08-21", "Everton", "3", "3", "Norwich", "D"]),
    ];
    let df = DataFrame::from_rows(&rows).unwrap();
    assert_eq!(df.games.len(), 2);
    assert_eq!(df.games[0].season, 1993);
    assert_eq!(df.games[0].away, "Everton");
    assert_eq!(df.games[1].home_goals, 3);
    assert_eq!(df.games[1].result, Outcome::Draw);
}

#[test]
fn test_from_rows_bad_column_count() {
    let rows = vec![
        row(&["s", "w", "d", "h", "hg", "ag", "a", "r"]),
        row(&["2000", "1", "2000-08-19", "Arsenal", "4", "0", "Burnley"]),
    ];
    let e = DataFrame::from_rows(&rows).unwrap_err();
    assert_eq!(e.kind, ErrorKind::MalformedInput);
}

#[test]
fn test_from_rows_bad_numeric() {
    let rows = vec![
        row(&["s", "w", "d", "h", "hg", "ag", "a", "r"]),
        row(&["20x0", "1", "2000-08-19", "Arsenal", "4", "0", "Burnley", "H"]),
    ];
    let e = DataFrame::from_rows(&rows).unwrap_err();
    assert_eq!(e.kind, ErrorKind::MalformedInput);
}

#[test]
fn test_from_rows_unknown_outcome_code() {
    let rows = vec![
        row(&["s", "w", "d", "h", "hg", "ag", "a", "r"]),
        row(&["2000", "1", "2000-08-19", "Arsenal", "4", "0", "Burnley", "X"]),
    ];
    let e = DataFrame::from_rows(&rows).unwrap_err();
    assert_eq!(e.kind, ErrorKind::MalformedInput);
}

#[test]
fn test_read_csv_empty_text() {
    let e = DataFrame::read_csv("").unwrap_err();
    assert_eq!(e.kind, ErrorKind::MalformedInput);
}

#[test]
fn test_new_dataframe_is_empty() {
    let df = DataFrame::new();
    assert_eq!(df.headers.len(), 0);
    assert_eq!(df.games.len(), 0);
}
