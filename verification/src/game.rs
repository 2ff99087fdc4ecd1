//! The match record type, the collection of records, and the error type
//! shared by the loader and the statistics functions.

use vstd::prelude::*;
use crate::parse::{is_count_str, outcome_of_code, parse_count, parse_outcome, str_to_nat};

verus! {

/// The records a comma-delimited text splits into: for each record, the
/// sequence of its fields. The split is a function of the text alone.
pub uninterp spec fn csv_rows(text: Seq<char>) -> Seq<Seq<Seq<char>>>;

/// The kind of failure an operation can report.
#[derive(Clone, Copy, Debug, PartialEq, Eq, Structural)]
pub enum ErrorKind {
    /// The input source could not be opened or read.
    SourceUnavailable,
    /// A row had the wrong number of columns, or a numeric column did not
    /// hold a non-negative integer that fits the machine word, or the
    /// outcome column held an unknown code.
    MalformedInput,
    /// A query named a team that is not in the team inventory.
    UnknownTeam,
    /// A query gave a season bound that is not numeric, inverted, or
    /// outside the known seasons.
    InvalidSeasonRange,
    /// A statistic was requested over a selection with no qualifying games.
    NoMatchingGames,
    /// A leaderboard was requested for zero entries or for more entries
    /// than there are teams.
    InvalidRank,
}

/// An error raised by the loader, a statistic, or a query.
#[derive(Clone, Copy, Debug, PartialEq, Eq, Structural)]
pub struct MyError {
    pub kind: ErrorKind,
}

/// How a game ended, as encoded by the source data's result code.
#[derive(Clone, Copy, Debug, PartialEq, Eq, Structural)]
pub enum Outcome {
    HomeWin,
    AwayWin,
    Draw,
}

/// One game: an immutable record of a single match.
#[derive(Debug)]
pub struct Game {
    pub season: usize,
    pub week: usize,
    pub date: String,
    pub home: String,
    pub away: String,
    pub home_goals: usize,
    pub away_goals: usize,
    pub result: Outcome,
}

impl Clone for Game {
    fn clone(&self) -> (res: Self)
        ensures
            res == *self,
    {
        Game {
            season: self.season,
            week: self.week,
            date: self.date.clone(),
            home: self.home.clone(),
            away: self.away.clone(),
            home_goals: self.home_goals,
            away_goals: self.away_goals,
            result: self.result,
        }
    }
}

impl Game {
    /// Builds one record from its fields.
    pub fn new(
        season: usize,
        week: usize,
        date: String,
        home: String,
        away: String,
        home_goals: usize,
        away_goals: usize,
        result: Outcome,
    ) -> (g: Game)
        ensures
            g.season == season,
            g.week == week,
            g.date == date,
            g.home == home,
            g.away == away,
            g.home_goals == home_goals,
            g.away_goals == away_goals,
            g.result == result,
    {
        Game { season, week, date, home, away, home_goals, away_goals, result }
    }
}

/// Relies on csv::Reader (comma delimiter, no header skipping, flexible
/// field counts) to split comma-delimited text into records of fields.
#[verifier::external_body]
fn csv_records(text: &str) -> (r: Vec<Vec<String>>)
    ensures
        r.deep_view() == csv_rows(text@),
{
    let mut rdr = csv::ReaderBuilder::new()
        .delimiter(b',')
        .has_headers(false)
        .flexible(true)
        .from_reader(text.as_bytes());
    let mut out: Vec<Vec<String>> = Vec::new();
    for rec in rdr.records() {
        match rec {
            Ok(r) => out.push(r.iter().map(|f| f.to_string()).collect()),
            Err(_) => return out,
        }
    }
    out
}

/// A data row carries exactly 8 columns, its numeric columns hold
/// machine-sized numerals, and its result code is a known one.
pub open spec fn row_fields_ok(row: Seq<Seq<char>>) -> bool {
    &&& row.len() == 8
    &&& is_count_str(row[0])
    &&& is_count_str(row[1])
    &&& is_count_str(row[4])
    &&& is_count_str(row[5])
    &&& outcome_of_code(row[7]) is Some
}

/// The fixed column mapping: season, week, date, home team, home goals,
/// away goals, away team, result code.
pub open spec fn game_matches_row(g: Game, row: Seq<Seq<char>>) -> bool {
    &&& g.season == str_to_nat(row[0])
    &&& g.week == str_to_nat(row[1])
    &&& g.date@ == row[2]
    &&& g.home@ == row[3]
    &&& g.home_goals == str_to_nat(row[4])
    &&& g.away_goals == str_to_nat(row[5])
    &&& g.away@ == row[6]
    &&& Some(g.result) == outcome_of_code(row[7])
}

/// A loadable table: a header row followed by well-formed data rows.
pub open spec fn rows_well_formed(rows: Seq<Seq<Seq<char>>>) -> bool {
    &&& rows.len() >= 1
    &&& forall|i: int| 1 <= i < rows.len() ==> row_fields_ok(#[trigger] rows[i])
}

/// The whole table: the header row and every game it describes,
/// built once at load time and read-only thereafter.
#[derive(Debug)]
pub struct DataFrame {
    pub headers: Vec<String>,
    pub games: Vec<Game>,
}

impl DataFrame {
    /// An empty table: no headers, no games.
    pub fn new() -> (df: DataFrame)
        ensures
            df.headers@.len() == 0,
            df.games@.len() == 0,
    {
        DataFrame { headers: Vec::new(), games: Vec::new() }
    }

    /// Builds the table from split records: the first record becomes the
    /// header row, each later record one game, by the fixed column
    /// mapping. Rejects a table with no header row, a data row whose
    /// column count is not 8, a numeric column that is not a
    /// machine-sized numeral, and an unknown result code.
    pub fn from_rows(rows: &Vec<Vec<String>>) -> (r: Result<DataFrame, MyError>)
        ensures
            r is Ok <==> rows_well_formed(rows.deep_view()),
            r matches Ok(df) ==> ({
                &&& df.headers.deep_view() == rows.deep_view()[0]
                &&& df.games@.len() == rows.deep_view().len() - 1
                &&& forall|k: int|
                    0 <= k < df.games@.len() ==> game_matches_row(
                        #[trigger] df.games@[k],
                        rows.deep_view()[k + 1],
                    )
            }),
            r matches Err(e) ==> e.kind == ErrorKind::MalformedInput,
    {
        if rows.len() == 0 {
            return Err(MyError { kind: ErrorKind::MalformedInput });
        }
        let ghost dv = rows.deep_view();
        let mut headers: Vec<String> = Vec::new();
        let first = &rows[0];
        let mut j: usize = 0;
        while j < first.len()
            invariant
                0 <= j <= first@.len(),
                first == rows@[0],
                rows@.len() > 0,
                headers@.len() == j,
                forall|k: int| 0 <= k < j ==> #[trigger] headers@[k]@ == first@[k]@,
            decreases first@.len() - j,
        {
            headers.push(first[j].clone());
            j = j + 1;
        }
        proof {
            assert(headers.deep_view() =~~= dv[0]);
        }
        let mut games: Vec<Game> = Vec::new();
        let mut i: usize = 1;
        while i < rows.len()
            invariant
                1 <= i <= rows@.len(),
                dv == rows.deep_view(),
                dv.len() == rows@.len(),
                games@.len() == i - 1,
                forall|k: int| 1 <= k < i ==> row_fields_ok(#[trigger] dv[k]),
                forall|k: int|
                    0 <= k < i - 1 ==> game_matches_row(#[trigger] games@[k], dv[k + 1]),
                headers.deep_view() == dv[0],
            decreases rows@.len() - i,
        {
            let row = &rows[i];
            proof {
                assert(row.deep_view() == dv[i as int]);
            }
            if row.len() != 8 {
                return Err(MyError { kind: ErrorKind::MalformedInput });
            }
            let season = match parse_count(row[0].as_str()) {
                Some(v) => v,
                None => {
                    return Err(MyError { kind: ErrorKind::MalformedInput });
                },
            };
            let week = match parse_count(row[1].as_str()) {
                Some(v) => v,
                None => {
                    return Err(MyError { kind: ErrorKind::MalformedInput });
                },
            };
            let home_goals = match parse_count(row[4].as_str()) {
                Some(v) => v,
                None => {
                    return Err(MyError { kind: ErrorKind::MalformedInput });
                },
            };
            let away_goals = match parse_count(row[5].as_str()) {
                Some(v) => v,
                None => {
                    return Err(MyError { kind: ErrorKind::MalformedInput });
                },
            };
            let result = match parse_outcome(row[7].as_str()) {
                Some(v) => v,
                None => {
                    return Err(MyError { kind: ErrorKind::MalformedInput });
                },
            };
            let g = Game::new(
                season,
                week,
                row[2].clone(),
                row[3].clone(),
                row[6].clone(),
                home_goals,
                away_goals,
                result,
            );
            games.push(g);
            i = i + 1;
        }
        Ok(DataFrame { headers, games })
    }

    /// Parses the full text of a comma-delimited source. The first
    /// record is the required header row; every later record must be a
    /// well-formed data row, else the whole load fails.
    pub fn read_csv(text: &str) -> (r: Result<DataFrame, MyError>)
        ensures
            r is Ok <==> rows_well_formed(csv_rows(text@)),
            r matches Ok(df) ==> ({
                &&& df.headers.deep_view() == csv_rows(text@)[0]
                &&& df.games@.len() == csv_rows(text@).len() - 1
                &&& forall|k: int|
                    0 <= k < df.games@.len() ==> game_matches_row(
                        #[trigger] df.games@[k],
                        csv_rows(text@)[k + 1],
                    )
            }),
            r matches Err(e) ==> e.kind == ErrorKind::MalformedInput,
    {
        let rows = csv_records(text);
        DataFrame::from_rows(&rows)
    }
}

} // verus!
