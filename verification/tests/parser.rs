use nom::branch::alt;
use nom::bytes::complete::{tag, tag_no_case, take_while1};
use nom::character::complete::{alpha1, multispace0, multispace1};
use nom::character::is_alphanumeric;
use nom::combinator::opt;
use nom::multi::{many0, many1};
use nom::sequence::{delimited, preceded, terminated, tuple};
use nom::IResult;
use rqlite::database::Database;
use rqlite::executor::Executor;
use rqlite::parser::{
    at_word, column_constraint, creation, is_sql_identifier, selection, skip_run, skip_run_1,
    sql_query, statement, where_condition, ByteClass, CreateStatement, SelectStatement,
    SqlStatement,
};
use rqlite::table::TableSchema;
use rqlite::utils::MyCoolArrayStuff;

// The same grammar, put together from the combinators of nom.

fn nom_where(input: &str) -> IResult<&str, String> {
    let (rest, c) = preceded(tag_no_case("where"), preceded(multispace1, alpha1))(input)?;
    Ok((rest, c.to_string()))
}

fn nom_select(input: &str) -> IResult<&str, SelectStatement> {
    let (rest, (_, _, fields, _, _, _, table, _, condition)) = tuple((
        tag_no_case("select"),
        multispace1,
        alpha1,
        multispace1,
        tag_no_case("from"),
        multispace1,
        alpha1,
        opt(multispace1),
        opt(nom_where),
    ))(input)?;
    Ok((
        rest,
        SelectStatement {
            table: table.to_owned(),
            fields: vec![fields.to_owned()],
            condition: condition.unwrap_or_default(),
        },
    ))
}

fn nom_comma(i: &str) -> IResult<&str, &str> {
    delimited(multispace0, tag(","), multispace0)(i)
}

fn nom_type(i: &str) -> IResult<&str, &str> {
    alt((tag_no_case("text"), tag_no_case("integer")))(i)
}

fn nom_constraint(i: &str) -> IResult<&str, &str> {
    alt((
        delimited(multispace0, tag_no_case("autoincrement"), multispace0),
        delimited(multispace0, tag_no_case("primary key"), multispace0),
    ))(i)
}

fn nom_field(i: &str) -> IResult<&str, String> {
    let (rest, (col, _, _, _)) = tuple((
        alpha1,
        opt(delimited(multispace1, nom_type, multispace0)),
        many0(nom_constraint),
        opt(nom_comma),
    ))(i)?;
    Ok((rest, col.to_string()))
}

fn nom_create(input: &str) -> IResult<&str, CreateStatement> {
    let (rest, (_, _, _, _, table_name, _, _, _, cols, _, _)) = tuple((
        tag_no_case("create"),
        multispace1,
        tag_no_case("table"),
        multispace1,
        take_while1(|c: char| is_alphanumeric(c as u8) || c == '_' || c == '@'),
        multispace0,
        tag("("),
        multispace0,
        many1(terminated(nom_field, opt(nom_comma))),
        multispace0,
        tag(")"),
    ))(input)?;
    Ok((rest, CreateStatement { table_name: table_name.to_string(), cols }))
}

fn nom_statement(input: &str) -> Option<(SqlStatement, usize)> {
    match nom_select(input) {
        Ok((rest, s)) => Some((SqlStatement::SELECT(s), input.len() - rest.len())),
        Err(_) => match nom_create(input) {
            Ok((rest, c)) => Some((SqlStatement::CREATE(c), input.len() - rest.len())),
            Err(_) => None,
        },
    }
}

fn corpus() -> Vec<String> {
    let mut out: Vec<String> = [
        "",
        "select",
        "select ",
        "select a from b",
        "SELECT name FROM apples",
        "SeLeCt\tname\r\nFrOm\n\napples   ",
        "select name from apples where color",
        "select name from apples   WHERE color = 1",
        "select name from apples where",
        "select name from apples where ",
        "select name from apples where1",
        "select name from appleswhere x",
        "select name from apples wherex y",
        "select COUNT from apples",
        "select count(*) from apples",
        "select * from apples",
        "select a,b from t",
        "select a from t1",
        "select a1 from t",
        "selectx a from t",
        " select a from t",
        "select a fromt",
        "select a from",
        "create table t (a)",
        "create table t(a)",
        "create table t ( a )",
        "CREATE TABLE sqlite_sequence(name,seq)",
        "CREATE TABLE apples\n(\n\tid integer primary key autoincrement,\n\tname text,\n\tcolor text\n)",
        "CREATE TABLE oranges\n(\n\tid integer primary key autoincrement,\n\tname text,\n\tdescription text\n)",
        "create table t (a text, b integer)",
        "create table t (a text , b INTEGER , )",
        "create table t (a,,b)",
        "create table t (a,,,b)",
        "create table t (a , , b)",
        "create table t (a text primary key)",
        "create table t (a text primary  key)",
        "create table t (a text PRIMARY KEY AUTOINCREMENT primary key)",
        "create table t (a primary key)",
        "create table t (a autoincrement)",
        "create table t (aautoincrement)",
        "create table t (a textprimary key)",
        "create table t (a text1)",
        "create table t (a blob)",
        "create table t (a text text)",
        "create table t (a integerb)",
        "create table t (a textb)",
        "create table t (a text b)",
        "create table t ()",
        "create table t (",
        "create table t (a",
        "create table t (a,",
        "create table t (1)",
        "create table t a",
        "create table (a)",
        "create table t_1@x (a)",
        "create table t-1 (a)",
        "create table  t\n(\na\n)\n trailing",
        "create  table t (a)",
        "createtable t (a)",
        "create tablet (a)",
        "create table",
        "create",
        "drop table t",
        "select a from t where b) create table t (a)",
    ]
    .iter()
    .map(|s| s.to_string())
    .collect();
    // Every way of cutting two statements short.
    for whole in ["select name from apples where color", "CREATE TABLE a_b (id integer primary key autoincrement, n text)"] {
        for cut in 0..whole.len() {
            out.push(whole[..cut].to_string());
        }
    }
    out
}

#[test]
fn agrees_with_the_combinators_of_nom() {
    for input in corpus() {
        assert_eq!(sql_query(&input), nom_statement(&input), "on {:?}", input);
        assert_eq!(statement(input.as_bytes()), nom_statement(&input), "on {:?}", input);
    }
}

#[test]
fn runs_agree_with_nom() {
    for input in ["", "abc", "abc def", "  \t\r\n x", "aZ09_@!", "Ab1", "\u{b}x", " \u{a0}"] {
        let bytes = input.as_bytes();
        let spaces: IResult<&str, &str> = multispace0(input);
        assert_eq!(skip_run(bytes, 0, ByteClass::Space), spaces.unwrap().1.len());
        let spaces1: IResult<&str, &str> = multispace1(input);
        assert_eq!(skip_run_1(bytes, 0, ByteClass::Space), spaces1.ok().map(|r| r.1.len()));
        let letters: IResult<&str, &str> = alpha1(input);
        assert_eq!(skip_run_1(bytes, 0, ByteClass::Letter), letters.ok().map(|r| r.1.len()));
    }
    assert_eq!(skip_run(b"ab  cd", 2, ByteClass::Space), 4);
    assert_eq!(skip_run(b"ab  cd", 4, ByteClass::Letter), 6);
    assert_eq!(skip_run(b"ab  cd", 6, ByteClass::Letter), 6);
    assert_eq!(skip_run(b"t_1@x (", 0, ByteClass::Name), 5);
}

#[test]
fn identifier_characters_agree_with_nom() {
    for c in (0u32..0x3000).filter_map(char::from_u32) {
        assert_eq!(is_sql_identifier(c), is_alphanumeric(c as u8) || c == '_' || c == '@', "{:?}", c);
    }
    assert!(is_sql_identifier('a') && is_sql_identifier('Z') && is_sql_identifier('0'));
    assert!(is_sql_identifier('_') && is_sql_identifier('@'));
    assert!(!is_sql_identifier(' ') && !is_sql_identifier('-') && !is_sql_identifier('('));
}

#[test]
fn words_in_either_case() {
    assert!(at_word(b"xx SeLeCT y", 3, b"select", true));
    assert!(!at_word(b"xx SeLeCT y", 3, b"select", false));
    assert!(at_word(b"xx select y", 3, b"select", false));
    assert!(!at_word(b"xx selec", 3, b"select", true));
    assert!(!at_word(b"select", 1, b"select", true));
    assert!(at_word(b"abc", 3, b"", true));
    // Only letters have a case: `@` is not a lower `\``, nor `[` a `{`.
    assert!(!at_word(b"@", 0, b"`", true));
    assert!(!at_word(b"[", 0, b"{", true));
    assert!(at_word(b"PRIMARY KEY", 0, b"primary key", true));
    assert!(!at_word(b"PRIMARY\tKEY", 0, b"primary key", true));
}

#[test]
fn select_statements() {
    assert_eq!(
        sql_query("select name from apples"),
        Some((
            SqlStatement::SELECT(SelectStatement {
                table: "apples".to_string(),
                fields: vec!["name".to_string()],
                condition: String::new(),
            }),
            23
        ))
    );
    assert_eq!(
        selection(b"SELECT id   FROM t  where  color!"),
        Some((
            SelectStatement { table: "t".to_string(), fields: vec!["id".to_string()], condition: "color".to_string() },
            32
        ))
    );
    // The space behind the table is taken even where no condition follows.
    assert_eq!(selection(b"select a from t   ;").unwrap().1, 18);
    assert_eq!(selection(b"select a from t   where").unwrap().1, 18);
    assert_eq!(selection(b"select a from"), None);
    assert_eq!(selection(b"create table t (a)"), None);
}

#[test]
fn where_and_constraints() {
    assert_eq!(where_condition(b"x where abc d", 2), Some((8, 11)));
    assert_eq!(where_condition(b"x where abc d", 1), None);
    assert_eq!(where_condition(b"where", 0), None);
    assert_eq!(where_condition(b"where 1", 0), None);
    assert_eq!(column_constraint(b"  primary key  ,", 0), Some(15));
    assert_eq!(column_constraint(b"AUTOINCREMENT", 0), Some(13));
    assert_eq!(column_constraint(b"  unique", 0), None);
    assert_eq!(column_constraint(b"", 0), None);
}

#[test]
fn create_statements() {
    let sql = "CREATE TABLE apples\n(\n\tid integer primary key autoincrement,\n\tname text,\n\tcolor text\n)";
    assert_eq!(
        sql_query(sql),
        Some((
            SqlStatement::CREATE(CreateStatement {
                table_name: "apples".to_string(),
                cols: vec!["id".to_string(), "name".to_string(), "color".to_string()],
            }),
            sql.len()
        ))
    );
    assert_eq!(
        creation(b"create table sqlite_sequence(name,seq) and more"),
        Some((
            CreateStatement {
                table_name: "sqlite_sequence".to_string(),
                cols: vec!["name".to_string(), "seq".to_string()],
            },
            38
        ))
    );
    assert_eq!(creation(b"create table t ()"), None);
    assert_eq!(creation(b"create table t (a"), None);
    assert_eq!(creation(b"select a from t"), None);
}

#[test]
fn schema_of_a_table() {
    assert_eq!(
        TableSchema::from("CREATE TABLE oranges\n(\n\tid integer primary key autoincrement,\n\tname text,\n\tdescription text\n)"),
        Some(TableSchema {
            table_name: "oranges".to_string(),
            cols: vec!["id".to_string(), "name".to_string(), "description".to_string()],
        })
    );
    assert_eq!(
        TableSchema::from("select a from t"),
        Some(TableSchema { table_name: String::new(), cols: vec![] })
    );
    assert_eq!(TableSchema::from("vacuum"), None);
}

#[test]
fn statements_are_answered() {
    let mut header = vec![0u8; 100];
    header[16] = 0x10;
    let executor = Executor::from(Database::from(&header).unwrap());
    assert_eq!(executor.database.get_page_size(), 4096);
    let (select, _) = sql_query("select COUNT from apples").unwrap();
    assert_eq!(executor.execute(&select), vec!["Not Implemented"]);
    let (select, _) = sql_query("select name from apples").unwrap();
    assert_eq!(executor.execute(&select), vec!["Not Implemented"]);
    let several = SqlStatement::SELECT(SelectStatement {
        table: "t".to_string(),
        fields: vec!["a".to_string(), "b".to_string(), "c".to_string()],
        condition: String::new(),
    });
    assert_eq!(executor.execute(&several), vec!["Not Implemented"; 3]);
    let none = SqlStatement::SELECT(SelectStatement { table: "t".to_string(), fields: vec![], condition: String::new() });
    assert!(executor.execute(&none).is_empty());
    let (create, _) = sql_query("create table t (a)").unwrap();
    assert_eq!(executor.execute(&create), vec!["This is a create cmd, doing nothing for now!"]);
}

#[test]
fn chunks_of_a_slice() {
    let items = [1u8, 2, 3, 4, 5, 6, 7];
    let mut pairs = items[..].as_array_iter::<2>();
    assert_eq!(pairs.next(), Some(&[1u8, 2][..]));
    assert_eq!(pairs.next(), Some(&[3u8, 4][..]));
    assert_eq!(pairs.next(), Some(&[5u8, 6][..]));
    assert_eq!(pairs.next(), None);
    assert_eq!(pairs.next(), None);
    let mut all = items[..].as_array_iter::<7>();
    assert_eq!(all.next(), Some(&items[..]));
    assert_eq!(all.next(), None);
    let mut more = items[..].as_array_iter::<8>();
    assert_eq!(more.next(), None);
    let nothing: [u8; 0] = [];
    let mut none = nothing[..].as_array_iter::<1>();
    assert_eq!(none.next(), None);
}

#[test]
fn positions_past_the_end() {
    assert_eq!(skip_run(b"ab", 5, ByteClass::Letter), 5);
    assert_eq!(skip_run_1(b"ab", 5, ByteClass::Letter), None);
    assert!(!at_word(b"ab", 5, b"", true));
    assert_eq!(where_condition(b"where a", 9), None);
    assert_eq!(column_constraint(b"primary key", 12), None);
}
