use vstd::prelude::*;
use vstd::utf8::{decode_utf8, valid_utf8};
use crate::text::{ascii_chars, ascii_string, decimal, is_ascii_bytes, lemma_decimal_ascii, push_decimal, string_from_utf8};

verus! {

/// Start of an insert statement.
pub open spec fn sql_insert_into() -> Seq<u8> {
    seq![0x49u8, 0x4Eu8, 0x53u8, 0x45u8, 0x52u8, 0x54u8, 0x20u8, 0x49u8, 0x4Eu8, 0x54u8, 0x4Fu8, 0x20u8]
}

pub fn sql_insert_into_bytes() -> (v: Vec<u8>)
    ensures
        v@ == sql_insert_into(),
{
    let v = vec![0x49u8, 0x4Eu8, 0x53u8, 0x45u8, 0x52u8, 0x54u8, 0x20u8, 0x49u8, 0x4Eu8, 0x54u8, 0x4Fu8, 0x20u8];
    assert(v@ =~= sql_insert_into());
    v
}

/// Before the column list.
pub open spec fn sql_open_cols() -> Seq<u8> {
    seq![0x20u8, 0x28u8]
}

pub fn sql_open_cols_bytes() -> (v: Vec<u8>)
    ensures
        v@ == sql_open_cols(),
{
    let v = vec![0x20u8, 0x28u8];
    assert(v@ =~= sql_open_cols());
    v
}

/// Between the column list and the value sets.
pub open spec fn sql_values() -> Seq<u8> {
    seq![0x29u8, 0x20u8, 0x56u8, 0x41u8, 0x4Cu8, 0x55u8, 0x45u8, 0x53u8, 0x20u8]
}

pub fn sql_values_bytes() -> (v: Vec<u8>)
    ensures
        v@ == sql_values(),
{
    let v = vec![0x29u8, 0x20u8, 0x56u8, 0x41u8, 0x4Cu8, 0x55u8, 0x45u8, 0x53u8, 0x20u8];
    assert(v@ =~= sql_values());
    v
}

/// List separator.
pub open spec fn sql_comma() -> Seq<u8> {
    seq![0x2Cu8, 0x20u8]
}

pub fn sql_comma_bytes() -> (v: Vec<u8>)
    ensures
        v@ == sql_comma(),
{
    let v = vec![0x2Cu8, 0x20u8];
    assert(v@ =~= sql_comma());
    v
}

/// Placeholder sign.
pub open spec fn sql_dollar() -> Seq<u8> {
    seq![0x24u8]
}

pub fn sql_dollar_bytes() -> (v: Vec<u8>)
    ensures
        v@ == sql_dollar(),
{
    let v = vec![0x24u8];
    assert(v@ =~= sql_dollar());
    v
}

/// Opening parenthesis.
pub open spec fn sql_open() -> Seq<u8> {
    seq![0x28u8]
}

pub fn sql_open_bytes() -> (v: Vec<u8>)
    ensures
        v@ == sql_open(),
{
    let v = vec![0x28u8];
    assert(v@ =~= sql_open());
    v
}

/// Closing parenthesis.
pub open spec fn sql_close() -> Seq<u8> {
    seq![0x29u8]
}

pub fn sql_close_bytes() -> (v: Vec<u8>)
    ensures
        v@ == sql_close(),
{
    let v = vec![0x29u8];
    assert(v@ =~= sql_close());
    v
}


/// PostgreSQL takes at most this many bind parameters in one statement.
pub const MAX_PARAMS: usize = 65535;

/// Why an insert statement cannot be built.
#[derive(Debug, Clone, Copy, PartialEq, Eq, Structural)]
pub enum SqlBuildError {
    EmptyColumns,
    /// A single row whose value count differs from the column count.
    CountMismatch { columns: usize, values: usize },
    EmptyRows,
    /// More bind parameters than PostgreSQL takes.
    TooManyParams { columns: usize, rows: usize, total: usize },
    /// The row at this 1-based position has the wrong number of values.
    RowWidth { row: usize, len: usize, expected: usize },
    /// The row at this 1-based position is not a table of values.
    RowNotTable { row: usize },
    /// The value at this 1-based position of a single row cannot be bound.
    BadValue { index: usize, problem: CellProblem },
    /// The value at these 1-based row and column positions cannot be bound.
    BadCell { row: usize, col: usize, problem: CellProblem },
}

/// Parts joined with a separator.
pub open spec fn join_with(parts: Seq<Seq<char>>, sep: Seq<char>) -> Seq<char>
    decreases parts.len(),
{
    if parts.len() == 0 {
        seq![]
    } else if parts.len() == 1 {
        parts[0]
    } else {
        join_with(parts.drop_last(), sep) + sep + parts.last()
    }
}

/// A literal as characters.
pub open spec fn lit(b: Seq<u8>) -> Seq<char> {
    ascii_chars(b)
}

/// The placeholder `$k`.
pub open spec fn placeholder(k: nat) -> Seq<char> {
    lit(sql_dollar()) + lit(decimal(k))
}

/// The value set `($start, ..., $start+n-1)`.
pub open spec fn value_set(start: nat, n: nat) -> Seq<char> {
    lit(sql_open()) + join_with(Seq::new(n, |i: int| placeholder((start + i) as nat)), lit(sql_comma()))
        + lit(sql_close())
}

/// `INSERT INTO table (c1, c2, ...) VALUES ` followed by one value set per row.
pub open spec fn insert_sql(table: Seq<char>, columns: Seq<Seq<char>>, rows: nat) -> Seq<char> {
    let n = columns.len();
    lit(sql_insert_into()) + table + lit(sql_open_cols()) + join_with(columns, lit(sql_comma())) + lit(sql_values())
        + join_with(Seq::new(rows, |r: int| value_set((r * n + 1) as nat, n)), lit(sql_comma()))
}

fn lit_string(b: Vec<u8>) -> (s: String)
    requires
        is_ascii_bytes(b@),
    ensures
        s@ == lit(b@),
{
    ascii_string(b)
}

fn decimal_string(k: usize) -> (s: String)
    ensures
        s@ == lit(decimal(k as nat)),
{
    let mut b: Vec<u8> = Vec::new();
    push_decimal(&mut b, k as u64);
    proof {
        lemma_decimal_ascii(k as nat);
        assert(b@ =~= decimal(k as nat));
    }
    ascii_string(b)
}

/// Appends the value set of `n` placeholders from `$start`.
fn push_value_set(out: &mut String, start: usize, n: usize)
    requires
        start >= 1,
        start + n - 1 <= usize::MAX,
    ensures
        final(out)@ == old(out)@ + value_set(start as nat, n as nat),
{
    let ghost parts = Seq::new(n as nat, |i: int| placeholder((start + i) as nat));
    out.append(lit_string(sql_open_bytes()).as_str());
    let ghost base = out@;
    let mut i: usize = 0;
    while i < n
        invariant
            i <= n,
            start >= 1,
            start + n - 1 <= usize::MAX,
            parts == Seq::new(n as nat, |i: int| placeholder((start + i) as nat)),
            out@ == base + join_with(parts.take(i as int), lit(sql_comma())),
        decreases n - i,
    {
        if i > 0 {
            out.append(lit_string(sql_comma_bytes()).as_str());
        }
        out.append(lit_string(sql_dollar_bytes()).as_str());
        out.append(decimal_string(start + i).as_str());
        proof {
            let t = parts.take(i + 1);
            assert(t.drop_last() =~= parts.take(i as int));
            assert(t.last() == placeholder((start + i) as nat));
            if i == 0 {
                assert(parts.take(0) =~= Seq::<Seq<char>>::empty());
            }
            assert(out@ =~= base + join_with(t, lit(sql_comma())));
        }
        i = i + 1;
    }
    assert(parts.take(n as int) =~= parts);
    out.append(lit_string(sql_close_bytes()).as_str());
}

proof fn lemma_lits_ascii()
    ensures
        is_ascii_bytes(sql_insert_into()),
        is_ascii_bytes(sql_open_cols()),
        is_ascii_bytes(sql_values()),
        is_ascii_bytes(sql_comma()),
        is_ascii_bytes(sql_dollar()),
        is_ascii_bytes(sql_open()),
        is_ascii_bytes(sql_close()),
{
}

/// The statement head: `INSERT INTO table (c1, c2, ...) VALUES `.
fn insert_head(table_name: &str, columns: &Vec<String>) -> (s: String)
    ensures
        s@ == lit(sql_insert_into()) + table_name@ + lit(sql_open_cols())
            + join_with(columns@.map_values(|c: String| c@), lit(sql_comma())) + lit(sql_values()),
{
    proof { lemma_lits_ascii(); }
    let ghost cols = columns@.map_values(|c: String| c@);
    let mut out = lit_string(sql_insert_into_bytes());
    out.append(table_name);
    out.append(lit_string(sql_open_cols_bytes()).as_str());
    let ghost base = out@;
    let mut i: usize = 0;
    while i < columns.len()
        invariant
            i <= columns@.len(),
            cols == columns@.map_values(|c: String| c@),
            out@ == base + join_with(cols.take(i as int), lit(sql_comma())),
        decreases columns.len() - i,
    {
        if i > 0 {
            out.append(lit_string(sql_comma_bytes()).as_str());
        }
        out.append(columns[i].as_str());
        proof {
            let t = cols.take(i + 1);
            assert(t.drop_last() =~= cols.take(i as int));
            assert(t.last() == columns@[i as int]@);
            if i == 0 {
                assert(cols.take(0) =~= Seq::<Seq<char>>::empty());
            }
            assert(out@ =~= base + join_with(t, lit(sql_comma())));
        }
        i = i + 1;
    }
    assert(cols.take(columns@.len() as int) =~= cols);
    out.append(lit_string(sql_values_bytes()).as_str());
    out
}

/// The statement `INSERT INTO table (c1, ...) VALUES ($1, ...), ...` for `rows` rows.
fn insert_statement(table_name: &str, columns: &Vec<String>, rows: usize) -> (out: String)
    requires
        columns@.len() > 0,
        rows > 0,
        columns@.len() * rows <= usize::MAX,
    ensures
        out@ == insert_sql(table_name@, columns@.map_values(|c: String| c@), rows as nat),
{
    let n = columns.len();
    proof { lemma_lits_ascii(); }
    let mut out = insert_head(table_name, columns);
    let ghost head = out@;
    let ghost sets = Seq::new(rows as nat, |r: int| value_set((r * n + 1) as nat, n as nat));
    let mut r: usize = 0;
    while r < rows
        invariant
            r <= rows,
            n * rows <= usize::MAX,
            n >= 1,
            n == columns@.len(),
            sets == Seq::new(rows as nat, |r: int| value_set((r * n + 1) as nat, n as nat)),
            out@ == head + join_with(sets.take(r as int), lit(sql_comma())),
        decreases rows - r,
    {
        if r > 0 {
            out.append(lit_string(sql_comma_bytes()).as_str());
        }
        assert(r * n + n <= n * rows) by (nonlinear_arith)
            requires
                r < rows,
                n >= 1,
        ;
        push_value_set(&mut out, r * n + 1, n);
        proof {
            let t = sets.take(r + 1);
            assert(t.drop_last() =~= sets.take(r as int));
            assert(t.last() == value_set((r * n + 1) as nat, n as nat));
            if r == 0 {
                assert(sets.take(0) =~= Seq::<Seq<char>>::empty());
            }
            assert(out@ =~= head + join_with(t, lit(sql_comma())));
        }
        r = r + 1;
    }
    assert(sets.take(rows as int) =~= sets);
    out
}



/// A value as a script hands it over: nil, a string (its bytes), an integer, a float (the bits
/// of its `f64`), a boolean, or anything else (a table, a function, ...).
#[derive(Debug, Clone)]
pub enum LuaCell {
    Nil,
    Str(Vec<u8>),
    Integer(i64),
    Number(u64),
    Boolean(bool),
    Other,
}

/// Why a value cannot be bound.
#[derive(Debug, Clone, Copy, PartialEq, Eq, Structural)]
pub enum CellProblem {
    /// A string that is not UTF-8.
    InvalidUtf8,
    /// Not a string, number, boolean or nil.
    Unsupported,
}

/// Why a value cannot be bound, if it cannot.
pub open spec fn cell_problem(c: LuaCell) -> Option<CellProblem> {
    match c {
        LuaCell::Str(b) => if valid_utf8(b@) { None } else { Some(CellProblem::InvalidUtf8) },
        LuaCell::Other => Some(CellProblem::Unsupported),
        _ => None,
    }
}

/// Whether `p` is the parameter bound for the value `c`: nil is NULL, a string its text, an
/// integer, float or boolean itself.
pub open spec fn param_of(c: LuaCell, p: SqlParam) -> bool {
    match c {
        LuaCell::Nil => p is Null,
        LuaCell::Str(b) => p matches SqlParam::Text(t) && t@ == decode_utf8(b@),
        LuaCell::Integer(i) => p == SqlParam::Int(i),
        LuaCell::Number(f) => p == SqlParam::Float(f),
        LuaCell::Boolean(v) => p == SqlParam::Bool(v),
        LuaCell::Other => false,
    }
}

/// The first value from position `i` on that cannot be bound, with its problem.
pub open spec fn first_bad_cell(cells: Seq<LuaCell>, i: int) -> Option<(int, CellProblem)>
    decreases cells.len() - i,
{
    if i < 0 || i >= cells.len() {
        None
    } else {
        match cell_problem(cells[i]) {
            Some(p) => Some((i, p)),
            None => first_bad_cell(cells, i + 1),
        }
    }
}

/// The values of a row, by view.
pub open spec fn row_view(row: Option<Vec<LuaCell>>) -> Option<Seq<LuaCell>> {
    match row {
        Some(v) => Some(v@),
        None => None,
    }
}

/// Why the row at 0-based position `r` is refused, if it is: it is not a table, its width is not
/// `n`, or it holds a value that cannot be bound (the first one is reported).
pub open spec fn row_problem(row: Option<Seq<LuaCell>>, r: int, n: int) -> Option<SqlBuildError> {
    match row {
        None => Some(SqlBuildError::RowNotTable { row: (r + 1) as usize }),
        Some(cs) => if cs.len() != n {
            Some(SqlBuildError::RowWidth { row: (r + 1) as usize, len: cs.len() as usize, expected: n as usize })
        } else {
            match first_bad_cell(cs, 0) {
                Some((c, p)) => Some(SqlBuildError::BadCell { row: (r + 1) as usize, col: (c + 1) as usize, problem: p }),
                None => None,
            }
        },
    }
}

/// The first problem among the first `k` rows, rows in order.
pub open spec fn rows_problem(rows: Seq<Option<Vec<LuaCell>>>, n: int, k: int) -> Option<SqlBuildError>
    decreases k,
{
    if k <= 0 {
        None
    } else {
        match rows_problem(rows, n, k - 1) {
            Some(e) => Some(e),
            None => row_problem(row_view(rows[k - 1]), k - 1, n),
        }
    }
}

/// The first value that cannot be bound, if any, with its problem.
fn find_bad_cell(cells: &Vec<LuaCell>) -> (r: Option<(usize, CellProblem)>)
    ensures
        r matches Some((i, _)) ==> i < cells@.len(),
        match r {
            Some((i, p)) => first_bad_cell(cells@, 0) == Some((i as int, p)),
            None => first_bad_cell(cells@, 0) is None,
        },
{
    let mut i: usize = 0;
    while i < cells.len()
        invariant
            i <= cells@.len(),
            first_bad_cell(cells@, 0) == first_bad_cell(cells@, i as int),
        decreases cells.len() - i,
    {
        match &cells[i] {
            LuaCell::Str(b) => {
                let copy = crate::codec::passthrough::clone_bytes(b);
                if string_from_utf8(copy).is_none() {
                    return Some((i, CellProblem::InvalidUtf8));
                }
            },
            LuaCell::Other => {
                return Some((i, CellProblem::Unsupported));
            },
            _ => {},
        }
        i = i + 1;
    }
    None
}

/// The parameter for a value that can be bound.
fn param_for(c: &LuaCell) -> (p: SqlParam)
    requires
        cell_problem(*c) is None,
    ensures
        param_of(*c, p),
{
    match c {
        LuaCell::Nil => SqlParam::Null,
        LuaCell::Str(b) => {
            let copy = crate::codec::passthrough::clone_bytes(b);
            match string_from_utf8(copy) {
                Some(t) => SqlParam::Text(t),
                None => SqlParam::Null,
            }
        },
        LuaCell::Integer(i) => SqlParam::Int(*i),
        LuaCell::Number(f) => SqlParam::Float(*f),
        LuaCell::Boolean(v) => SqlParam::Bool(*v),
        LuaCell::Other => SqlParam::Null,
    }
}

/// What building a one-row insert gives: refused without columns, when the number of values
/// differs from the number of columns, or at the first value that cannot be bound (by its
/// 1-based position); otherwise the statement and one parameter per value.
pub open spec fn single_insert_result(table: Seq<char>, columns: Seq<Seq<char>>, values: Seq<LuaCell>,
    r: Result<(String, Vec<SqlParam>), SqlBuildError>) -> bool {
    if columns.len() == 0 {
        r == Err::<(String, Vec<SqlParam>), SqlBuildError>(SqlBuildError::EmptyColumns)
    } else if columns.len() != values.len() {
        r == Err::<(String, Vec<SqlParam>), SqlBuildError>(
            SqlBuildError::CountMismatch { columns: columns.len() as usize, values: values.len() as usize })
    } else {
        match first_bad_cell(values, 0) {
            Some((i, p)) => r == Err::<(String, Vec<SqlParam>), SqlBuildError>(
                SqlBuildError::BadValue { index: (i + 1) as usize, problem: p }),
            None => match r {
                Ok((s, ps)) => s@ == insert_sql(table, columns, 1) && ps@.len() == values.len()
                    && forall|i: int| 0 <= i < values.len() ==> param_of(values[i], #[trigger] ps@[i]),
                Err(_) => false,
            },
        }
    }
}

/// What building a batch insert gives: refused without columns or rows, when the parameters
/// exceed 65535, or at the first problem among the rows in order; otherwise the statement and
/// the parameters row by row.
pub open spec fn batch_insert_result(table: Seq<char>, columns: Seq<Seq<char>>, rows: Seq<Option<Vec<LuaCell>>>,
    r: Result<(String, Vec<SqlParam>), SqlBuildError>) -> bool {
    let n = columns.len();
    if n == 0 {
        r == Err::<(String, Vec<SqlParam>), SqlBuildError>(SqlBuildError::EmptyColumns)
    } else if rows.len() == 0 {
        r == Err::<(String, Vec<SqlParam>), SqlBuildError>(SqlBuildError::EmptyRows)
    } else if n * rows.len() > MAX_PARAMS {
        r == Err::<(String, Vec<SqlParam>), SqlBuildError>(SqlBuildError::TooManyParams {
            columns: n as usize,
            rows: rows.len() as usize,
            total: (n * rows.len()) as usize,
        })
    } else {
        match rows_problem(rows, n as int, rows.len() as int) {
            Some(e) => r == Err::<(String, Vec<SqlParam>), SqlBuildError>(e),
            None => match r {
                Ok((s, ps)) => s@ == insert_sql(table, columns, rows.len()) && ps@.len() == n * rows.len()
                    && forall|i: int, c: int| 0 <= i < rows.len() && 0 <= c < n ==> param_of(
                        rows[i].unwrap()@[c], #[trigger] ps@[i * n + c]),
                Err(_) => false,
            },
        }
    }
}

/// The insert statement and its parameters for one row: refused without columns, when the
/// number of values differs from the number of columns, or at the first value that cannot be
/// bound (reported by its 1-based position).
pub fn build_single_insert(table_name: &str, columns: &Vec<String>, values: &Vec<LuaCell>)
    -> (r: Result<(String, Vec<SqlParam>), SqlBuildError>)
    ensures
        single_insert_result(table_name@, columns@.map_values(|c: String| c@), values@, r),
{
    assert(columns@.map_values(|c: String| c@).len() == columns@.len());
    let n = columns.len();
    if n == 0 {
        return Err(SqlBuildError::EmptyColumns);
    }
    if n != values.len() {
        return Err(SqlBuildError::CountMismatch { columns: n, values: values.len() });
    }
    match find_bad_cell(values) {
        Some((i, p)) => {
            return Err(SqlBuildError::BadValue { index: i + 1, problem: p });
        },
        None => {},
    }
    let sql = insert_statement(table_name, columns, 1);
    let mut params: Vec<SqlParam> = Vec::new();
    let mut i: usize = 0;
    while i < n
        invariant
            i <= n,
            n == values@.len(),
            first_bad_cell(values@, 0) is None,
            params@.len() == i,
            forall|j: int| 0 <= j < i ==> param_of(values@[j], #[trigger] params@[j]),
        decreases n - i,
    {
        proof { lemma_no_bad_cell(values@, 0, i as int); }
        params.push(param_for(&values[i]));
        i = i + 1;
    }
    assert(columns@.map_values(|c: String| c@).len() == n);
    Ok((sql, params))
}

/// Once a problem is found among the first `k` rows, it stays the first problem.
proof fn lemma_rows_problem_sticks(rows: Seq<Option<Vec<LuaCell>>>, n: int, k: int, m: int)
    requires
        0 <= k <= m,
        rows_problem(rows, n, k) is Some,
    ensures
        rows_problem(rows, n, m) == rows_problem(rows, n, k),
    decreases m - k,
{
    if k < m {
        lemma_rows_problem_sticks(rows, n, k, m - 1);
    }
}

/// With no value from `from` on that cannot be bound, none at `i` cannot.
proof fn lemma_no_bad_cell(cells: Seq<LuaCell>, from: int, i: int)
    requires
        0 <= from <= i < cells.len(),
        first_bad_cell(cells, from) is None,
    ensures
        cell_problem(cells[i]) is None,
    decreases i - from,
{
    if from < i {
        lemma_no_bad_cell(cells, from + 1, i);
    }
}

/// The insert statement and its parameters for rows of values, row by row: refused without
/// columns or rows, when the parameters exceed 65535, or at the first row (in order) that is
/// not a table, has the wrong width, or holds a value that cannot be bound.
pub fn build_batch_insert(table_name: &str, columns: &Vec<String>, rows: &Vec<Option<Vec<LuaCell>>>)
    -> (r: Result<(String, Vec<SqlParam>), SqlBuildError>)
    requires
        columns@.len() * rows@.len() <= usize::MAX,
    ensures
        batch_insert_result(table_name@, columns@.map_values(|c: String| c@), rows@, r),
{
    assert(columns@.map_values(|c: String| c@).len() == columns@.len());
    let n = columns.len();
    let nrows = rows.len();
    if n == 0 {
        return Err(SqlBuildError::EmptyColumns);
    }
    if nrows == 0 {
        return Err(SqlBuildError::EmptyRows);
    }
    let total = n * nrows;
    if total > MAX_PARAMS {
        return Err(SqlBuildError::TooManyParams { columns: n, rows: nrows, total });
    }
    let mut k: usize = 0;
    while k < nrows
        invariant
            k <= nrows,
            nrows == rows@.len(),
            n == columns@.len(),
            n > 0,
            nrows > 0,
            n * nrows <= MAX_PARAMS,
            columns@.map_values(|c: String| c@).len() == n,
            rows_problem(rows@, n as int, k as int) is None,
            forall|j: int| 0 <= j < k ==> row_problem(row_view(#[trigger] rows@[j]), j, n as int) is None,
        decreases nrows - k,
    {
        match &rows[k] {
            None => {
                proof { lemma_rows_problem_sticks(rows@, n as int, k + 1, nrows as int); }
                return Err(SqlBuildError::RowNotTable { row: k + 1 });
            },
            Some(cells) => {
                if cells.len() != n {
                    proof { lemma_rows_problem_sticks(rows@, n as int, k + 1, nrows as int); }
                    return Err(SqlBuildError::RowWidth { row: k + 1, len: cells.len(), expected: n });
                }
                match find_bad_cell(cells) {
                    Some((c, p)) => {
                        proof { lemma_rows_problem_sticks(rows@, n as int, k + 1, nrows as int); }
                        return Err(SqlBuildError::BadCell { row: k + 1, col: c + 1, problem: p });
                    },
                    None => {},
                }
            },
        }
        k = k + 1;
    }
    let sql = insert_statement(table_name, columns, nrows);
    let mut params: Vec<SqlParam> = Vec::new();
    let mut i: usize = 0;
    while i < nrows
        invariant
            i <= nrows,
            nrows == rows@.len(),
            n == columns@.len(),
            n > 0,
            n * nrows <= MAX_PARAMS,
            columns@.map_values(|c: String| c@).len() == n,
            rows_problem(rows@, n as int, nrows as int) is None,
            sql@ == insert_sql(table_name@, columns@.map_values(|c: String| c@), nrows as nat),
            forall|j: int| 0 <= j < nrows ==> row_problem(row_view(#[trigger] rows@[j]), j, n as int) is None,
            params@.len() == i * n,
            forall|j: int, c: int| 0 <= j < i && 0 <= c < n ==> param_of(rows@[j].unwrap()@[c], #[trigger] params@[j * n + c]),
        decreases nrows - i,
    {
        assert(row_problem(row_view(rows@[i as int]), i as int, n as int) is None);
        let cells = rows[i].as_ref().unwrap();
        let ghost before = params@;
        let mut c: usize = 0;
        while c < n
            invariant
                c <= n,
                n == cells@.len(),
                rows@[i as int] == Some(*cells),
                first_bad_cell(cells@, 0) is None,
                params@.len() == i * n + c,
                params@.take((i * n) as int) == before,
                before.len() == i * n,
                forall|d: int| 0 <= d < c ==> param_of(cells@[d], #[trigger] params@[i * n + d]),
            decreases n - c,
        {
            proof { lemma_no_bad_cell(cells@, 0, c as int); }
            params.push(param_for(&cells[c]));
            proof {
                assert(params@.take((i * n) as int) =~= before);
            }
            c = c + 1;
        }
        proof {
            assert forall|j: int, d: int| 0 <= j < i + 1 && 0 <= d < n implies param_of(rows@[j].unwrap()@[d],
                #[trigger] params@[j * n + d]) by {
                if j < i {
                    assert(j * n + d < i * n) by (nonlinear_arith)
                        requires 0 <= j < i, 0 <= d < n;
                    assert(params@[j * n + d] == before[j * n + d]);
                } else {
                    assert(j * n + d == i * n + d);
                }
            }
            assert((i + 1) * n == i * n + n) by (nonlinear_arith);
        }
        i = i + 1;
    }
    assert(nrows * n == n * nrows) by (nonlinear_arith);
    Ok((sql, params))
}

/// A bind parameter of a query; a float is held as the bits of its `f64`.
#[derive(Debug, Clone)]
pub enum SqlParam {
    Null,
    Text(String),
    Int(i64),
    Float(u64),
    Bool(bool),
}

/// The PostgreSQL column types a parameter can be bound to; `Other` is any type not listed.
#[derive(Debug, Clone, Copy, PartialEq, Eq, Structural)]
pub enum SqlType {
    Bool,
    Int2,
    Int4,
    Int8,
    Float4,
    Float8,
    Text,
    Varchar,
    Char,
    Bpchar,
    Name,
    Numeric,
    Other,
}

/// How a parameter goes into its column: SQL NULL, or a value in the column's binary form
/// (`Float4` narrows the double whose bits it holds, `Float8` writes it as it is).
#[derive(Debug, Clone)]
pub enum SqlWrite {
    Null,
    Text(String),
    Int2(i16),
    Int4(i32),
    Int8(i64),
    Float4(u64),
    Float8(u64),
    Bool(bool),
}

/// Why a parameter cannot be bound to a column.
#[derive(Debug, Clone, Copy, PartialEq, Eq, Structural)]
pub enum SqlParamError {
    /// Text for a column that is not a text type.
    TextType(SqlType),
    /// An integer outside the range of `smallint`.
    Int2Range(i64),
    /// An integer outside the range of `integer`.
    Int4Range(i64),
    /// An integer for a column that is not an integer or numeric type.
    IntType(SqlType),
    /// A finite double beyond the range of `real` (its bits).
    Float4Range(u64),
    /// A float for a column that is not a float or numeric type.
    FloatType(SqlType),
    /// A boolean for a column that is not `boolean`.
    BoolType(SqlType),
}

/// The text column types.
pub open spec fn is_text_type(ty: SqlType) -> bool {
    ty == SqlType::Text || ty == SqlType::Varchar || ty == SqlType::Char || ty == SqlType::Bpchar
        || ty == SqlType::Name
}

/// Whether the double with these bits is finite (its exponent is not all ones).
pub open spec fn f64_bits_finite(b: u64) -> bool {
    (b / 0x10_0000_0000_0000) % 0x800 != 0x7FF
}

/// Whether the double with these bits is finite and beyond `f32::MAX` in magnitude: for
/// non-negative doubles the order of the bits is the order of the values, and `f32::MAX` as a
/// double has the bits 0x47EF_FFFF_E000_0000.
pub open spec fn beyond_f32_range(b: u64) -> bool {
    f64_bits_finite(b) && b % 0x8000_0000_0000_0000 > 0x47EF_FFFF_E000_0000
}

/// The binding of `p` to a column of type `ty`: NULL goes anywhere; text only to text types;
/// integers to `smallint` and `integer` when in range, to `bigint` and `numeric` as 64-bit;
/// floats to `real` unless finite and out of its range (NaN and infinities narrow), to
/// `double precision` and `numeric` as they are; booleans only to `boolean`.
pub open spec fn sql_binding(p: SqlParam, ty: SqlType) -> Result<SqlWrite, SqlParamError> {
    match p {
        SqlParam::Null => Ok(SqlWrite::Null),
        SqlParam::Text(s) => if is_text_type(ty) { Ok(SqlWrite::Text(s)) } else { Err(SqlParamError::TextType(ty)) },
        SqlParam::Int(i) => {
            if ty == SqlType::Int2 {
                if -32768 <= i <= 32767 { Ok(SqlWrite::Int2(i as i16)) } else { Err(SqlParamError::Int2Range(i)) }
            } else if ty == SqlType::Int4 {
                if -2147483648 <= i <= 2147483647 { Ok(SqlWrite::Int4(i as i32)) } else { Err(SqlParamError::Int4Range(i)) }
            } else if ty == SqlType::Int8 || ty == SqlType::Numeric {
                Ok(SqlWrite::Int8(i))
            } else {
                Err(SqlParamError::IntType(ty))
            }
        },
        SqlParam::Float(b) => {
            if ty == SqlType::Float4 {
                if beyond_f32_range(b) { Err(SqlParamError::Float4Range(b)) } else { Ok(SqlWrite::Float4(b)) }
            } else if ty == SqlType::Float8 || ty == SqlType::Numeric {
                Ok(SqlWrite::Float8(b))
            } else {
                Err(SqlParamError::FloatType(ty))
            }
        },
        SqlParam::Bool(v) => if ty == SqlType::Bool { Ok(SqlWrite::Bool(v)) } else { Err(SqlParamError::BoolType(ty)) },
    }
}

impl SqlParam {
    /// Whether parameters can be bound to columns of type `ty` at all.
    pub fn accepts(ty: SqlType) -> (r: bool)
        ensures
            r == (ty != SqlType::Other),
    {
        match ty {
            SqlType::Other => false,
            _ => true,
        }
    }

    /// How this parameter is bound to a column of type `ty`, or why it cannot be.
    pub fn to_sql(self, ty: SqlType) -> (r: Result<SqlWrite, SqlParamError>)
        ensures
            r == sql_binding(self, ty),
    {
        match self {
            SqlParam::Null => Ok(SqlWrite::Null),
            SqlParam::Text(s) => match ty {
                SqlType::Text | SqlType::Varchar | SqlType::Char | SqlType::Bpchar | SqlType::Name => Ok(SqlWrite::Text(s)),
                _ => Err(SqlParamError::TextType(ty)),
            },
            SqlParam::Int(i) => match ty {
                SqlType::Int2 => if -32768 <= i && i <= 32767 {
                    Ok(SqlWrite::Int2(i as i16))
                } else {
                    Err(SqlParamError::Int2Range(i))
                },
                SqlType::Int4 => if -2147483648 <= i && i <= 2147483647 {
                    Ok(SqlWrite::Int4(i as i32))
                } else {
                    Err(SqlParamError::Int4Range(i))
                },
                SqlType::Int8 | SqlType::Numeric => Ok(SqlWrite::Int8(i)),
                _ => Err(SqlParamError::IntType(ty)),
            },
            SqlParam::Float(b) => match ty {
                SqlType::Float4 => {
                    let finite = (b / 0x10_0000_0000_0000) % 0x800 != 0x7FF;
                    if finite && b % 0x8000_0000_0000_0000 > 0x47EF_FFFF_E000_0000 {
                        Err(SqlParamError::Float4Range(b))
                    } else {
                        Ok(SqlWrite::Float4(b))
                    }
                },
                SqlType::Float8 | SqlType::Numeric => Ok(SqlWrite::Float8(b)),
                _ => Err(SqlParamError::FloatType(ty)),
            },
            SqlParam::Bool(v) => match ty {
                SqlType::Bool => Ok(SqlWrite::Bool(v)),
                _ => Err(SqlParamError::BoolType(ty)),
            },
        }
    }
}

} // verus!
