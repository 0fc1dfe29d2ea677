//! Running a statement against a database. Nothing is run yet: each statement
//! is answered with the lines that say so.

use crate::database::Database;
use crate::parser::SqlStatement;
use vstd::prelude::*;

verus! {

/// Runs statements against a database.
#[derive(Debug, PartialEq, Eq)]
pub struct Executor {
    pub database: Database,
}

/// The line that answers each field of a `select` statement.
pub open spec fn not_implemented() -> Seq<char> {
    "Not Implemented"@
}

/// The line that answers a `create table` statement.
pub open spec fn nothing_created() -> Seq<char> {
    "This is a create cmd, doing nothing for now!"@
}

/// The lines that answer `statement`: one for each field of a `select`
/// statement, and one for a `create table` statement.
pub open spec fn answer_of(statement: SqlStatement) -> Seq<Seq<char>> {
    match statement {
        SqlStatement::SELECT(select) => Seq::new(
            select.fields@.len(),
            |i: int| not_implemented(),
        ),
        SqlStatement::CREATE(_) => seq![nothing_created()],
    }
}

impl Executor {
    /// An executor for `database`.
    pub fn from(database: Database) -> (r: Executor)
        ensures
            r.database == database,
    {
        Executor { database }
    }

    /// The lines that answer `sql_statement`.
    pub fn execute(&self, sql_statement: &SqlStatement) -> (r: Vec<String>)
        ensures
            r@.map_values(|line: String| line@) == answer_of(*sql_statement),
    {
        let mut lines: Vec<String> = Vec::new();
        match sql_statement {
            SqlStatement::SELECT(select_cmd) => {
                let mut i: usize = 0;
                while i < select_cmd.fields.len()
                    invariant
                        i <= select_cmd.fields@.len(),
                        lines@.map_values(|line: String| line@) == Seq::new(
                            i as nat,
                            |k: int| not_implemented(),
                        ),
                    decreases select_cmd.fields@.len() - i,
                {
                    let line = "Not Implemented".to_owned();
                    assert(line@ == not_implemented());
                    assert(lines@.push(line).map_values(|line: String| line@) =~= lines@.map_values(
                        |line: String| line@,
                    ).push(line@));
                    assert(lines@.push(line).map_values(|line: String| line@) =~= Seq::new(
                        (i + 1) as nat,
                        |k: int| not_implemented(),
                    ));
                    lines.push(line);
                    i += 1;
                }
            },
            SqlStatement::CREATE(_creation_cmd) => {
                let line = "This is a create cmd, doing nothing for now!".to_owned();
                assert(line@ == nothing_created());
                assert(lines@.push(line).map_values(|line: String| line@) =~= lines@.map_values(
                    |line: String| line@,
                ).push(line@));
                assert(lines@.push(line).map_values(|line: String| line@) =~= seq![
                    nothing_created(),
                ]);
                lines.push(line);
            },
        }
        lines
    }
}

} // verus!
