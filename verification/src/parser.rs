//! The two SQL statements that the database understands.
//!
//! ```text
//! select  = "select" space+ word space+ "from" space+ word space* [ where ]
//! where   = "where" space+ word
//! create  = "create" space+ "table" space+ name space* "(" space* field+ space* ")"
//! field   = word [ space+ type space* ] constraint* [ comma ] [ comma ]
//! type    = "text" | "integer"
//! constraint = space* ( "autoincrement" | "primary key" ) space*
//! comma   = space* "," space*
//! ```
//!
//! A word is letters only, a name is letters, digits, `_` and `@`, and space is
//! a blank, a tab, a carriage return or a line feed. Keywords are read in
//! either case; every repetition takes as much as it can. A statement is read
//! from the start of the input and need not reach its end.

use vstd::prelude::*;
use vstd::slice::slice_subrange;
use vstd::string::StringSliceAdditionalSpecFns;
use vstd::utf8::{encode_utf8, valid_utf8};

verus! {

/// A statement.
#[derive(Debug, PartialEq, Eq)]
pub enum SqlStatement {
    SELECT(SelectStatement),
    CREATE(CreateStatement),
}

/// `select <fields> from <table> [where <condition>]`.
#[derive(Debug, PartialEq, Eq)]
pub struct SelectStatement {
    pub table: String,
    pub fields: Vec<String>,
    /// The word behind `where`, or nothing.
    pub condition: String,
}

/// `create table <table_name> (<cols>)`.
#[derive(Debug, PartialEq, Eq)]
pub struct CreateStatement {
    pub table_name: String,
    pub cols: Vec<String>,
}

/// What a `SelectStatement` stands for: each string as its bytes.
pub struct SelectModel {
    pub table: Seq<u8>,
    pub fields: Seq<Seq<u8>>,
    pub condition: Seq<u8>,
}

/// What a `CreateStatement` stands for: each string as its bytes.
pub struct CreateModel {
    pub table_name: Seq<u8>,
    pub cols: Seq<Seq<u8>>,
}

/// What a `SqlStatement` stands for.
pub enum SqlModel {
    SELECT(SelectModel),
    CREATE(CreateModel),
}

/// The bytes of each of `strings`.
pub open spec fn bytes_of_each(strings: Seq<String>) -> Seq<Seq<u8>> {
    strings.map_values(|s: String| encode_utf8(s@))
}

impl View for SelectStatement {
    type V = SelectModel;

    open spec fn view(&self) -> SelectModel {
        SelectModel {
            table: encode_utf8(self.table@),
            fields: bytes_of_each(self.fields@),
            condition: encode_utf8(self.condition@),
        }
    }
}

impl View for CreateStatement {
    type V = CreateModel;

    open spec fn view(&self) -> CreateModel {
        CreateModel {
            table_name: encode_utf8(self.table_name@),
            cols: bytes_of_each(self.cols@),
        }
    }
}

impl View for SqlStatement {
    type V = SqlModel;

    open spec fn view(&self) -> SqlModel {
        match self {
            SqlStatement::SELECT(s) => SqlModel::SELECT(s@),
            SqlStatement::CREATE(c) => SqlModel::CREATE(c@),
        }
    }
}

/// Whether `b` is a blank, a tab, a carriage return or a line feed.
pub open spec fn is_space(b: u8) -> bool {
    b == 0x20 || b == 0x09 || b == 0x0d || b == 0x0a
}

/// Whether `b` is a letter of the ASCII alphabet.
pub open spec fn is_letter(b: u8) -> bool {
    (0x41 <= b <= 0x5a) || (0x61 <= b <= 0x7a)
}

/// Whether `b` may stand in the name of a table: a letter, a digit, `_` or `@`.
pub open spec fn is_name_byte(b: u8) -> bool {
    is_letter(b) || (0x30 <= b <= 0x39) || b == 0x5f || b == 0x40
}

/// A kind of byte of which the grammar takes runs.
#[derive(Debug, Clone, Copy, PartialEq, Eq, Structural)]
pub enum ByteClass {
    Space,
    Letter,
    Name,
}

impl ByteClass {
    /// Whether `b` is of this kind.
    pub open spec fn holds(self, b: u8) -> bool {
        match self {
            ByteClass::Space => is_space(b),
            ByteClass::Letter => is_letter(b),
            ByteClass::Name => is_name_byte(b),
        }
    }

    /// Whether `b` is of this kind.
    pub fn has(&self, b: u8) -> (r: bool)
        ensures
            r == self.holds(b),
    {
        let letter = (0x41 <= b && b <= 0x5a) || (0x61 <= b && b <= 0x7a);
        match self {
            ByteClass::Space => b == 0x20 || b == 0x09 || b == 0x0d || b == 0x0a,
            ByteClass::Letter => letter,
            ByteClass::Name => letter || (0x30 <= b && b <= 0x39) || b == 0x5f || b == 0x40,
        }
    }
}

/// Whether `chr` may stand in the name of a table: `_`, `@`, or a character
/// whose low eight bits are a letter or a digit.
pub fn is_sql_identifier(chr: char) -> (r: bool)
    ensures
        r == (chr == '_' || chr == '@' || is_letter((chr as u32 % 256) as u8) || 0x30
            <= chr as u32 % 256 <= 0x39),
{
    let low: u8 = (chr as u32 % 256) as u8;
    chr == '_' || chr == '@' || ByteClass::Letter.has(low) || (0x30 <= low && low <= 0x39)
}

/// Where the run of bytes of kind `class` ends that starts at `i`: the index of
/// the first byte from `i` on that is not of that kind, or the end of `s`.
pub open spec fn run_end(s: Seq<u8>, i: int, class: ByteClass) -> int
    decreases s.len() - i,
{
    if 0 <= i < s.len() && class.holds(s[i]) {
        run_end(s, i + 1, class)
    } else {
        i
    }
}

/// Where the run that starts at `i` ends, if it has at least one byte.
pub open spec fn run_end_1(s: Seq<u8>, i: int, class: ByteClass) -> Option<int> {
    if run_end(s, i, class) > i {
        Some(run_end(s, i, class))
    } else {
        None
    }
}

/// A run ends in `s`, not before its start, and every byte of it is of its
/// kind, so an ASCII byte.
pub proof fn lemma_run(s: Seq<u8>, i: int, class: ByteClass)
    requires
        0 <= i <= s.len(),
    ensures
        i <= run_end(s, i, class) <= s.len(),
        forall|j: int| i <= j < run_end(s, i, class) ==> class.holds(#[trigger] s[j]) && s[j] < 128,
        run_end(s, i, class) < s.len() ==> !class.holds(s[run_end(s, i, class)]),
    decreases s.len() - i,
{
    if i < s.len() && class.holds(s[i]) {
        lemma_run(s, i + 1, class);
    }
}

/// Where the run of bytes of kind `class` ends that starts at `i`.
pub fn skip_run(s: &[u8], i: usize, class: ByteClass) -> (r: usize)
    ensures
        r == run_end(s@, i as int, class),
        i <= r,
        i <= s@.len() ==> r <= s@.len(),
        s@.len() <= usize::MAX,
{
    let mut j: usize = i;
    while j < s.len() && class.has(s[j])
        invariant
            i <= j,
            i <= s@.len() ==> j <= s@.len(),
            run_end(s@, j as int, class) == run_end(s@, i as int, class),
        decreases s@.len() - j,
    {
        j += 1;
    }
    j
}

/// Where the run that starts at `i` ends, if it has at least one byte.
pub fn skip_run_1(s: &[u8], i: usize, class: ByteClass) -> (r: Option<usize>)
    ensures
        match r {
            Some(e) => run_end_1(s@, i as int, class) == Some(e as int) && i < e <= s@.len()
                <= usize::MAX,
            None => run_end_1(s@, i as int, class) is None,
        },
{
    let e = skip_run(s, i, class);
    if e > i {
        Some(e)
    } else {
        None
    }
}

/// A letter in lower case; any other byte as it is.
pub open spec fn lower(b: u8) -> u8 {
    if 0x41 <= b <= 0x5a {
        (b + 0x20) as u8
    } else {
        b
    }
}

/// Whether `word` stands in `s` at `i`: letter for letter, or, where
/// `any_case` is set, with the case of letters ignored.
pub open spec fn word_at(s: Seq<u8>, i: int, word: Seq<u8>, any_case: bool) -> bool {
    &&& 0 <= i
    &&& i + word.len() <= s.len()
    &&& forall|j: int|
        0 <= j < word.len() ==> if any_case {
            lower(#[trigger] s[i + j]) == lower(word[j])
        } else {
            s[i + j] == word[j]
        }
}

/// Whether `word` stands in `s` at `i`.
pub fn at_word(s: &[u8], i: usize, word: &[u8], any_case: bool) -> (r: bool)
    ensures
        r == word_at(s@, i as int, word@, any_case),
        r ==> i + word@.len() <= s@.len() <= usize::MAX,
{
    let len: usize = s.len();
    if i > len || word.len() > len - i {
        return false;
    }
    let mut j: usize = 0;
    while j < word.len()
        invariant
            j <= word@.len(),
            i + word@.len() <= s@.len() == len,
            forall|k: int|
                0 <= k < j ==> if any_case {
                    lower(#[trigger] s@[i + k]) == lower(word@[k])
                } else {
                    s@[i + k] == word@[k]
                },
        decreases word@.len() - j,
    {
        let a = s[i + j];
        let b = word[j];
        let same = if any_case {
            let la = if 0x41 <= a && a <= 0x5a {
                a + 0x20
            } else {
                a
            };
            let lb = if 0x41 <= b && b <= 0x5a {
                b + 0x20
            } else {
                b
            };
            la == lb
        } else {
            a == b
        };
        if !same {
            assert(!word_at(s@, i as int, word@, any_case)) by {
                let w = s@[i + j];
            }
            return false;
        }
        j += 1;
    }
    true
}

/// The bytes of `select`.
pub open spec fn word_select() -> Seq<u8> {
    seq![0x73u8, 0x65, 0x6c, 0x65, 0x63, 0x74]
}

/// The bytes of `from`.
pub open spec fn word_from() -> Seq<u8> {
    seq![0x66u8, 0x72, 0x6f, 0x6d]
}

/// The bytes of `where`.
pub open spec fn word_where() -> Seq<u8> {
    seq![0x77u8, 0x68, 0x65, 0x72, 0x65]
}

/// The bytes of `create`.
pub open spec fn word_create() -> Seq<u8> {
    seq![0x63u8, 0x72, 0x65, 0x61, 0x74, 0x65]
}

/// The bytes of `table`.
pub open spec fn word_table() -> Seq<u8> {
    seq![0x74u8, 0x61, 0x62, 0x6c, 0x65]
}

/// The bytes of `text`.
pub open spec fn word_text() -> Seq<u8> {
    seq![0x74u8, 0x65, 0x78, 0x74]
}

/// The bytes of `integer`.
pub open spec fn word_integer() -> Seq<u8> {
    seq![0x69u8, 0x6e, 0x74, 0x65, 0x67, 0x65, 0x72]
}

/// The bytes of `autoincrement`.
pub open spec fn word_autoincrement() -> Seq<u8> {
    seq![0x61u8, 0x75, 0x74, 0x6f, 0x69, 0x6e, 0x63, 0x72, 0x65, 0x6d, 0x65, 0x6e, 0x74]
}

/// The bytes of `primary key`, with one blank.
pub open spec fn word_primary_key() -> Seq<u8> {
    seq![0x70u8, 0x72, 0x69, 0x6d, 0x61, 0x72, 0x79, 0x20, 0x6b, 0x65, 0x79]
}

/// The word behind `where`, as the range of its bytes: `where` at `i`, space,
/// and a word.
pub open spec fn where_at(s: Seq<u8>, i: int) -> Option<(int, int)> {
    if !word_at(s, i, word_where(), true) {
        None
    } else {
        match run_end_1(s, i + 5, ByteClass::Space) {
            None => None,
            Some(a) => match run_end_1(s, a, ByteClass::Letter) {
                None => None,
                Some(b) => Some((a, b)),
            },
        }
    }
}

/// The `select` statement that `s` starts with, and where it ends.
pub open spec fn select_of(s: Seq<u8>) -> Option<(SelectModel, int)> {
    if !word_at(s, 0, word_select(), true) {
        None
    } else {
        match run_end_1(s, 6, ByteClass::Space) {
            None => None,
            Some(f0) => match run_end_1(s, f0, ByteClass::Letter) {
                None => None,
                Some(f1) => match run_end_1(s, f1, ByteClass::Space) {
                    None => None,
                    Some(k) => if !word_at(s, k, word_from(), true) {
                        None
                    } else {
                        match run_end_1(s, k + 4, ByteClass::Space) {
                            None => None,
                            Some(t0) => match run_end_1(s, t0, ByteClass::Letter) {
                                None => None,
                                Some(t1) => {
                                    let w = run_end(s, t1, ByteClass::Space);
                                    let fields = seq![s.subrange(f0, f1)];
                                    let table = s.subrange(t0, t1);
                                    match where_at(s, w) {
                                        Some((c0, c1)) => Some(
                                            (
                                                SelectModel {
                                                    table,
                                                    fields,
                                                    condition: s.subrange(c0, c1),
                                                },
                                                c1,
                                            ),
                                        ),
                                        None => Some(
                                            (
                                                SelectModel {
                                                    table,
                                                    fields,
                                                    condition: Seq::empty(),
                                                },
                                                w,
                                            ),
                                        ),
                                    }
                                },
                            },
                        }
                    },
                },
            },
        }
    }
}

/// Where the constraint of a column ends that starts at `i`: space,
/// `autoincrement` or `primary key`, and space.
pub open spec fn constraint_end(s: Seq<u8>, i: int) -> Option<int> {
    let a = run_end(s, i, ByteClass::Space);
    if word_at(s, a, word_autoincrement(), true) {
        Some(run_end(s, a + 13, ByteClass::Space))
    } else if word_at(s, a, word_primary_key(), true) {
        Some(run_end(s, a + 11, ByteClass::Space))
    } else {
        None
    }
}

/// Where the constraints end that start at `i`, as many as there are.
pub open spec fn constraints_end(s: Seq<u8>, i: int) -> int
    decreases s.len() - i,
{
    match constraint_end(s, i) {
        Some(e) => if i < e <= s.len() {
            constraints_end(s, e)
        } else {
            i
        },
        None => i,
    }
}

/// Where the comma ends that starts at `i`, with the space around it; `i`
/// itself where there is none.
pub open spec fn comma_end(s: Seq<u8>, i: int) -> int {
    let a = run_end(s, i, ByteClass::Space);
    if word_at(s, a, seq![0x2cu8], false) {
        run_end(s, a + 1, ByteClass::Space)
    } else {
        i
    }
}

/// Where the type of a column ends that starts at `i`: space, `text` or
/// `integer`, and space; `i` itself where there is none.
pub open spec fn type_end(s: Seq<u8>, i: int) -> int {
    match run_end_1(s, i, ByteClass::Space) {
        None => i,
        Some(a) => if word_at(s, a, word_text(), true) {
            run_end(s, a + 4, ByteClass::Space)
        } else if word_at(s, a, word_integer(), true) {
            run_end(s, a + 7, ByteClass::Space)
        } else {
            i
        },
    }
}

/// The column that starts at `i`: where its name ends, and where the whole of
/// it ends, with its type, its constraints and the commas behind it.
pub open spec fn field_at(s: Seq<u8>, i: int) -> Option<(int, int)> {
    match run_end_1(s, i, ByteClass::Letter) {
        None => None,
        Some(n) => Some((n, comma_end(s, comma_end(s, constraints_end(s, type_end(s, n)))))),
    }
}

/// The names of the columns that start at `i`, as many as there are, and where
/// they end.
pub open spec fn fields_from(s: Seq<u8>, i: int) -> (Seq<Seq<u8>>, int)
    decreases s.len() - i,
{
    match field_at(s, i) {
        Some((n, e)) => if i < e <= s.len() {
            (seq![s.subrange(i, n)] + fields_from(s, e).0, fields_from(s, e).1)
        } else {
            (Seq::empty(), i)
        },
        None => (Seq::empty(), i),
    }
}

/// The `create table` statement that `s` starts with, and where it ends.
pub open spec fn create_of(s: Seq<u8>) -> Option<(CreateModel, int)> {
    if !word_at(s, 0, word_create(), true) {
        None
    } else {
        match run_end_1(s, 6, ByteClass::Space) {
            None => None,
            Some(k) => if !word_at(s, k, word_table(), true) {
                None
            } else {
                match run_end_1(s, k + 5, ByteClass::Space) {
                    None => None,
                    Some(n0) => match run_end_1(s, n0, ByteClass::Name) {
                        None => None,
                        Some(n1) => {
                            let open = run_end(s, n1, ByteClass::Space);
                            if !word_at(s, open, seq![0x28u8], false) {
                                None
                            } else {
                                let first = run_end(s, open + 1, ByteClass::Space);
                                let (cols, last) = fields_from(s, first);
                                let close = run_end(s, last, ByteClass::Space);
                                if cols.len() == 0 || !word_at(s, close, seq![0x29u8], false) {
                                    None
                                } else {
                                    Some(
                                        (
                                            CreateModel { table_name: s.subrange(n0, n1), cols },
                                            close + 1,
                                        ),
                                    )
                                }
                            }
                        },
                    },
                }
            },
        }
    }
}

/// The statement that `s` starts with, and where it ends: a `select`, or else
/// a `create table`.
pub open spec fn statement_of(s: Seq<u8>) -> Option<(SqlModel, int)> {
    match select_of(s) {
        Some((select, end)) => Some((SqlModel::SELECT(select), end)),
        None => match create_of(s) {
            Some((create, end)) => Some((SqlModel::CREATE(create), end)),
            None => None,
        },
    }
}

/// Bytes that are all ASCII are UTF-8.
pub proof fn lemma_ascii_is_utf8(bytes: Seq<u8>)
    requires
        forall|j: int| 0 <= j < bytes.len() ==> bytes[j] < 128,
    ensures
        valid_utf8(bytes),
    decreases bytes.len(),
{
    if bytes.len() > 0 {
        let rest = vstd::utf8::pop_first_scalar(bytes);
        assert(rest =~= bytes.subrange(1, bytes.len() as int));
        lemma_ascii_is_utf8(rest);
    }
}

/// The string whose bytes are those of `s` from `a` to `b`, which are ASCII.
fn string_of(s: &[u8], a: usize, b: usize) -> (r: String)
    requires
        a <= b <= s@.len(),
        forall|j: int| a <= j < b ==> s@[j] < 128,
    ensures
        encode_utf8(r@) == s@.subrange(a as int, b as int),
{
    proof {
        lemma_ascii_is_utf8(s@.subrange(a as int, b as int));
    }
    match core::str::from_utf8(slice_subrange(s, a, b)) {
        Ok(text) => text.to_owned(),
        Err(_) => String::new(),
    }
}

/// Reads the word behind `where` that starts at `i`.
pub fn where_condition(s: &[u8], i: usize) -> (r: Option<(usize, usize)>)
    ensures
        match r {
            Some((a, b)) => where_at(s@, i as int) == Some((a as int, b as int)) && i < a < b
                <= s@.len(),
            None => where_at(s@, i as int) is None,
        },
{
    let word: [u8; 5] = [0x77, 0x68, 0x65, 0x72, 0x65];
    assert(word@ =~= word_where());
    if !at_word(s, i, word.as_slice(), true) {
        return None;
    }
    let a = match skip_run_1(s, i + 5, ByteClass::Space) {
        Some(a) => a,
        None => {
            return None;
        },
    };
    match skip_run_1(s, a, ByteClass::Letter) {
        Some(b) => Some((a, b)),
        None => None,
    }
}

/// Reads the `select` statement that `s` starts with.
pub fn selection(s: &[u8]) -> (r: Option<(SelectStatement, usize)>)
    ensures
        match r {
            Some((select, end)) => select_of(s@) == Some((select@, end as int)) && end <= s@.len(),
            None => select_of(s@) is None,
        },
{
    let select: [u8; 6] = [0x73, 0x65, 0x6c, 0x65, 0x63, 0x74];
    let from: [u8; 4] = [0x66, 0x72, 0x6f, 0x6d];
    assert(select@ =~= word_select());
    assert(from@ =~= word_from());
    if !at_word(s, 0, select.as_slice(), true) {
        return None;
    }
    let f0 = match skip_run_1(s, 6, ByteClass::Space) {
        Some(e) => e,
        None => {
            return None;
        },
    };
    let f1 = match skip_run_1(s, f0, ByteClass::Letter) {
        Some(e) => e,
        None => {
            return None;
        },
    };
    let k = match skip_run_1(s, f1, ByteClass::Space) {
        Some(e) => e,
        None => {
            return None;
        },
    };
    if !at_word(s, k, from.as_slice(), true) {
        return None;
    }
    let t0 = match skip_run_1(s, k + 4, ByteClass::Space) {
        Some(e) => e,
        None => {
            return None;
        },
    };
    let t1 = match skip_run_1(s, t0, ByteClass::Letter) {
        Some(e) => e,
        None => {
            return None;
        },
    };
    let w = skip_run(s, t1, ByteClass::Space);
    proof {
        lemma_run(s@, f0 as int, ByteClass::Letter);
        lemma_run(s@, t0 as int, ByteClass::Letter);
    }
    let field = string_of(s, f0, f1);
    let table = string_of(s, t0, t1);
    let mut fields: Vec<String> = Vec::new();
    fields.push(field);
    assert(bytes_of_each(fields@) =~= seq![s@.subrange(f0 as int, f1 as int)]);
    match where_condition(s, w) {
        Some((c0, c1)) => {
            proof {
                lemma_run(s@, c0 as int, ByteClass::Letter);
            }
            let condition = string_of(s, c0, c1);
            Some((SelectStatement { table, fields, condition }, c1))
        },
        None => {
            let condition = String::new();
            assert(encode_utf8(condition@) =~= Seq::<u8>::empty()) by {
                reveal_with_fuel(encode_utf8, 1);
            }
            Some((SelectStatement { table, fields, condition }, w))
        },
    }
}

/// Reads the constraint of a column that starts at `i`.
pub fn column_constraint(s: &[u8], i: usize) -> (r: Option<usize>)
    ensures
        match r {
            Some(e) => constraint_end(s@, i as int) == Some(e as int) && i < e <= s@.len(),
            None => constraint_end(s@, i as int) is None,
        },
{
    let auto: [u8; 13] = [
        0x61,
        0x75,
        0x74,
        0x6f,
        0x69,
        0x6e,
        0x63,
        0x72,
        0x65,
        0x6d,
        0x65,
        0x6e,
        0x74,
    ];
    let key: [u8; 11] = [0x70, 0x72, 0x69, 0x6d, 0x61, 0x72, 0x79, 0x20, 0x6b, 0x65, 0x79];
    assert(auto@ =~= word_autoincrement());
    assert(key@ =~= word_primary_key());
    let a = skip_run(s, i, ByteClass::Space);
    if at_word(s, a, auto.as_slice(), true) {
        Some(skip_run(s, a + 13, ByteClass::Space))
    } else if at_word(s, a, key.as_slice(), true) {
        Some(skip_run(s, a + 11, ByteClass::Space))
    } else {
        None
    }
}

/// Steps over the comma that starts at `i`, if there is one.
fn ws_sep_comma(s: &[u8], i: usize) -> (r: usize)
    requires
        i <= s@.len(),
    ensures
        r == comma_end(s@, i as int),
        i <= r <= s@.len(),
{
    let comma: [u8; 1] = [0x2c];
    assert(comma@ =~= seq![0x2cu8]);
    let a = skip_run(s, i, ByteClass::Space);
    if at_word(s, a, comma.as_slice(), false) {
        skip_run(s, a + 1, ByteClass::Space)
    } else {
        i
    }
}

/// Steps over the type of a column that starts at `i`, if there is one.
fn type_identifier(s: &[u8], i: usize) -> (r: usize)
    requires
        i <= s@.len(),
    ensures
        r == type_end(s@, i as int),
        i <= r <= s@.len(),
{
    let text: [u8; 4] = [0x74, 0x65, 0x78, 0x74];
    let integer: [u8; 7] = [0x69, 0x6e, 0x74, 0x65, 0x67, 0x65, 0x72];
    assert(text@ =~= word_text());
    assert(integer@ =~= word_integer());
    match skip_run_1(s, i, ByteClass::Space) {
        None => i,
        Some(a) => if at_word(s, a, text.as_slice(), true) {
            skip_run(s, a + 4, ByteClass::Space)
        } else if at_word(s, a, integer.as_slice(), true) {
            skip_run(s, a + 7, ByteClass::Space)
        } else {
            i
        },
    }
}

/// Reads the column that starts at `i`: where its name ends, and where the
/// whole of it ends.
fn field_specification(s: &[u8], i: usize) -> (r: Option<(usize, usize)>)
    requires
        i <= s@.len(),
    ensures
        match r {
            Some((n, e)) => field_at(s@, i as int) == Some((n as int, e as int)) && i < n <= e
                <= s@.len(),
            None => field_at(s@, i as int) is None,
        },
{
    let n = match skip_run_1(s, i, ByteClass::Letter) {
        Some(n) => n,
        None => {
            return None;
        },
    };
    let mut e = type_identifier(s, n);
    loop
        invariant
            n <= e <= s@.len(),
            constraints_end(s@, e as int) == constraints_end(s@, type_end(s@, n as int)),
        ensures
            constraint_end(s@, e as int) is None,
        decreases s@.len() - e,
    {
        match column_constraint(s, e) {
            Some(next) => {
                e = next;
            },
            None => {
                break ;
            },
        }
    }
    assert(e == constraints_end(s@, type_end(s@, n as int)));
    let e = ws_sep_comma(s, e);
    let e = ws_sep_comma(s, e);
    Some((n, e))
}

/// Reads the columns that start at `i`, as many as there are.
fn field_specification_list(s: &[u8], i: usize) -> (r: (Vec<String>, usize))
    requires
        i <= s@.len(),
    ensures
        (bytes_of_each(r.0@), r.1 as int) == fields_from(s@, i as int),
        i <= r.1 <= s@.len(),
{
    let mut cols: Vec<String> = Vec::new();
    let mut at: usize = i;
    let ghost whole = fields_from(s@, i as int);
    loop
        invariant
            i <= at <= s@.len(),
            whole == fields_from(s@, i as int),
            whole == (bytes_of_each(cols@) + fields_from(s@, at as int).0, fields_from(
                s@,
                at as int,
            ).1),
        decreases s@.len() - at,
    {
        match field_specification(s, at) {
            None => {
                assert(bytes_of_each(cols@) + Seq::<Seq<u8>>::empty() =~= bytes_of_each(cols@));
                return (cols, at);
            },
            Some((n, e)) => {
                proof {
                    lemma_run(s@, at as int, ByteClass::Letter);
                }
                let col = string_of(s, at, n);
                proof {
                    let before = bytes_of_each(cols@);
                    let name = s@.subrange(at as int, n as int);
                    assert(bytes_of_each(cols@.push(col)) =~= before.push(name));
                    assert(before.push(name) + fields_from(s@, e as int).0 =~= before + (seq![name]
                        + fields_from(s@, e as int).0));
                }
                cols.push(col);
                at = e;
            },
        }
    }
}

/// Reads the `create table` statement that `s` starts with.
pub fn creation(s: &[u8]) -> (r: Option<(CreateStatement, usize)>)
    ensures
        match r {
            Some((create, end)) => create_of(s@) == Some((create@, end as int)) && end <= s@.len(),
            None => create_of(s@) is None,
        },
{
    let create: [u8; 6] = [0x63, 0x72, 0x65, 0x61, 0x74, 0x65];
    let table: [u8; 5] = [0x74, 0x61, 0x62, 0x6c, 0x65];
    let open_mark: [u8; 1] = [0x28];
    let close_mark: [u8; 1] = [0x29];
    assert(create@ =~= word_create());
    assert(table@ =~= word_table());
    assert(open_mark@ =~= seq![0x28u8]);
    assert(close_mark@ =~= seq![0x29u8]);
    if !at_word(s, 0, create.as_slice(), true) {
        return None;
    }
    let k = match skip_run_1(s, 6, ByteClass::Space) {
        Some(e) => e,
        None => {
            return None;
        },
    };
    if !at_word(s, k, table.as_slice(), true) {
        return None;
    }
    let n0 = match skip_run_1(s, k + 5, ByteClass::Space) {
        Some(e) => e,
        None => {
            return None;
        },
    };
    let n1 = match skip_run_1(s, n0, ByteClass::Name) {
        Some(e) => e,
        None => {
            return None;
        },
    };
    let open = skip_run(s, n1, ByteClass::Space);
    if !at_word(s, open, open_mark.as_slice(), false) {
        return None;
    }
    let first = skip_run(s, open + 1, ByteClass::Space);
    let (cols, last) = field_specification_list(s, first);
    let close = skip_run(s, last, ByteClass::Space);
    if cols.len() == 0 || !at_word(s, close, close_mark.as_slice(), false) {
        return None;
    }
    proof {
        lemma_run(s@, n0 as int, ByteClass::Name);
    }
    let table_name = string_of(s, n0, n1);
    Some((CreateStatement { table_name, cols }, close + 1))
}

/// Reads the statement that `input` starts with, and says how many bytes of
/// `input` it takes. There is none where `input` starts with neither a
/// `select` nor a `create table` statement.
pub fn sql_query(input: &str) -> (r: Option<(SqlStatement, usize)>)
    ensures
        match r {
            Some((statement, end)) => statement_of(input.spec_bytes()) == Some(
                (statement@, end as int),
            ) && end <= input.spec_bytes().len(),
            None => statement_of(input.spec_bytes()) is None,
        },
{
    statement(input.as_bytes())
}

/// Reads the statement that the bytes of `input` start with.
pub fn statement(input: &[u8]) -> (r: Option<(SqlStatement, usize)>)
    ensures
        match r {
            Some((statement, end)) => statement_of(input@) == Some((statement@, end as int)) && end
                <= input@.len(),
            None => statement_of(input@) is None,
        },
{
    match selection(input) {
        Some((select, end)) => Some((SqlStatement::SELECT(select), end)),
        None => match creation(input) {
            Some((create, end)) => Some((SqlStatement::CREATE(create), end)),
            None => None,
        },
    }
}

} // verus!
