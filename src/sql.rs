//! Multi-row INSERT statements built from typed values.

use vstd::prelude::*;
use crate::text::{decimal, digit_char, escape_char, escaped, int_literal, push_int, push_string_literal, string_literal};

verus! {

broadcast use vstd::string::group_string_axioms;

/// A value of a row: an integer or a free-form string.
pub enum SqlValue {
    Int(i64),
    Text(String),
}

impl DeepView for SqlValue {
    type V = Seq<char>;

    /// The SQL literal that stands for the value.
    open spec fn deep_view(&self) -> Seq<char> {
        match self {
            SqlValue::Int(v) => int_literal(*v as int),
            SqlValue::Text(s) => string_literal(s@),
        }
    }
}

/// The parts separated by a comma and a space.
pub open spec fn join(parts: Seq<Seq<char>>) -> Seq<char>
    decreases parts.len(),
{
    if parts.len() == 0 {
        Seq::empty()
    } else if parts.len() == 1 {
        parts[0]
    } else {
        join(parts.drop_last()) + ", "@ + parts.last()
    }
}

/// A row as a parenthesized tuple of literals.
pub open spec fn tuple_text(row: Seq<Seq<char>>) -> Seq<char> {
    "("@ + join(row) + ")"@
}

/// The tuple of each row.
pub open spec fn row_tuples(rows: Seq<Seq<Seq<char>>>) -> Seq<Seq<char>> {
    rows.map_values(|row: Seq<Seq<char>>| tuple_text(row))
}

/// The start of the statement, up to and including `VALUES `.
pub open spec fn insert_head(table: Seq<char>, columns: Seq<Seq<char>>) -> Seq<char> {
    "INSERT INTO "@ + table + " ("@ + join(columns) + ") VALUES "@
}

/// One INSERT of all rows (given as their literals) into `table`.
pub open spec fn insert_text(table: Seq<char>, columns: Seq<Seq<char>>, rows: Seq<Seq<Seq<char>>>) -> Seq<char> {
    insert_head(table, columns) + join(row_tuples(rows))
}

/// The names of the columns.
pub open spec fn column_names(columns: Seq<&str>) -> Seq<Seq<char>> {
    columns.map_values(|c: &str| c@)
}

/// Where a left-to-right reading of SQL text stands: outside string
/// literals, inside one, or inside one right after a backslash.
pub enum Lex {
    Out,
    In,
    Esc,
}

/// The reading position after one more character.
pub open spec fn lex_step(st: Lex, c: char) -> Lex {
    match st {
        Lex::Out => if c == '"' {
            Lex::In
        } else {
            Lex::Out
        },
        Lex::In => if c == '\\' {
            Lex::Esc
        } else if c == '"' {
            Lex::Out
        } else {
            Lex::In
        },
        Lex::Esc => Lex::In,
    }
}

/// The reading position after `s`.
pub open spec fn lex_end(st: Lex, s: Seq<char>) -> Lex
    decreases s.len(),
{
    if s.len() == 0 {
        st
    } else {
        lex_end(lex_step(st, s[0]), s.drop_first())
    }
}

/// The number of opening parentheses of `s` that stand outside string
/// literals, reading from `st`.
pub open spec fn opens(st: Lex, s: Seq<char>) -> nat
    decreases s.len(),
{
    if s.len() == 0 {
        0
    } else {
        (if st is Out && s[0] == '(' {
            1nat
        } else {
            0nat
        }) + opens(lex_step(st, s[0]), s.drop_first())
    }
}

proof fn lemma_lex_concat(st: Lex, a: Seq<char>, b: Seq<char>)
    ensures
        lex_end(st, a + b) == lex_end(lex_end(st, a), b),
        opens(st, a + b) == opens(st, a) + opens(lex_end(st, a), b),
    decreases a.len(),
{
    if a.len() > 0 {
        assert((a + b).drop_first() =~= a.drop_first() + b);
        assert((a + b)[0] == a[0]);
        lemma_lex_concat(lex_step(st, a[0]), a.drop_first(), b);
    } else {
        assert(a + b =~= b);
    }
}

proof fn lemma_lex_one(st: Lex, c: char)
    ensures
        lex_end(st, seq![c]) == lex_step(st, c),
        opens(st, seq![c]) == (if st is Out && c == '(' {
            1nat
        } else {
            0nat
        }),
{
    let e = Seq::<char>::empty();
    assert(seq![c].drop_first() =~= e);
    assert(seq![c][0] == c);
    assert(lex_end(lex_step(st, c), e) == lex_step(st, c));
    assert(opens(lex_step(st, c), e) == 0);
}

proof fn lemma_lex_two(st: Lex, c: char, d: char)
    ensures
        lex_end(st, seq![c, d]) == lex_step(lex_step(st, c), d),
        opens(st, seq![c, d]) == opens(st, seq![c]) + opens(lex_step(st, c), seq![d]),
{
    assert(seq![c, d] =~= seq![c] + seq![d]);
    lemma_lex_concat(st, seq![c], seq![d]);
    lemma_lex_one(st, c);
    lemma_lex_one(lex_step(st, c), d);
}

/// Text without quotes or opening parentheses.
pub open spec fn plain(s: Seq<char>) -> bool {
    forall|i: int| 0 <= i < s.len() ==> #[trigger] s[i] != '"' && s[i] != '('
}

proof fn lemma_plain(s: Seq<char>)
    requires
        plain(s),
    ensures
        lex_end(Lex::Out, s) == Lex::Out,
        opens(Lex::Out, s) == 0,
    decreases s.len(),
{
    if s.len() > 0 {
        assert(s[0] != '"' && s[0] != '(');
        assert(plain(s.drop_first())) by {
            assert forall|i: int| 0 <= i < s.drop_first().len() implies #[trigger] s.drop_first()[i] != '"'
                && s.drop_first()[i] != '(' by {
                assert(s.drop_first()[i] == s[i + 1]);
            }
        }
        lemma_plain(s.drop_first());
    }
}

proof fn lemma_decimal_plain(n: nat)
    ensures
        plain(decimal(n)),
    decreases n,
{
    if n >= 10 {
        lemma_decimal_plain(n / 10);
        let d = decimal(n);
        assert(d == decimal(n / 10).push(digit_char(n % 10)));
        assert forall|i: int| 0 <= i < d.len() implies #[trigger] d[i] != '"' && d[i] != '(' by {
            if i < d.len() - 1 {
                assert(d[i] == decimal(n / 10)[i]);
            }
        }
    }
}

proof fn lemma_int_literal(v: int)
    ensures
        lex_end(Lex::Out, int_literal(v)) == Lex::Out,
        opens(Lex::Out, int_literal(v)) == 0,
{
    let t = int_literal(v);
    if v < 0 {
        lemma_decimal_plain((-v) as nat);
        let d = decimal((-v) as nat);
        assert forall|i: int| 0 <= i < t.len() implies #[trigger] t[i] != '"' && t[i] != '(' by {
            if i > 0 {
                assert(t[i] == d[i - 1]);
            }
        }
    } else {
        lemma_decimal_plain(v as nat);
    }
    lemma_plain(t);
}

proof fn lemma_escaped(s: Seq<char>)
    ensures
        lex_end(Lex::In, escaped(s)) == Lex::In,
        opens(Lex::In, escaped(s)) == 0,
    decreases s.len(),
{
    if s.len() > 0 {
        lemma_escaped(s.drop_last());
        let c = s.last();
        lemma_lex_concat(Lex::In, escaped(s.drop_last()), escape_char(c));
        if c == '"' || c == '\\' || c == '\n' || c == '\r' {
            let e = escape_char(c);
            lemma_lex_two(Lex::In, e[0], e[1]);
            assert(e =~= seq![e[0], e[1]]);
            lemma_lex_one(Lex::In, e[0]);
            lemma_lex_one(Lex::Esc, e[1]);
        } else {
            lemma_lex_one(Lex::In, c);
        }
    }
}

proof fn lemma_string_literal(s: Seq<char>)
    ensures
        lex_end(Lex::Out, string_literal(s)) == Lex::Out,
        opens(Lex::Out, string_literal(s)) == 0,
{
    lemma_escaped(s);
    lemma_lex_one(Lex::Out, '"');
    lemma_lex_one(Lex::In, '"');
    lemma_lex_concat(Lex::Out, seq!['"'], escaped(s));
    lemma_lex_concat(Lex::Out, seq!['"'] + escaped(s), seq!['"']);
}

proof fn lemma_value(v: SqlValue)
    ensures
        lex_end(Lex::Out, v.deep_view()) == Lex::Out,
        opens(Lex::Out, v.deep_view()) == 0,
{
    match v {
        SqlValue::Int(n) => lemma_int_literal(n as int),
        SqlValue::Text(t) => lemma_string_literal(t@),
    }
}

proof fn lemma_join(parts: Seq<Seq<char>>, k: nat)
    requires
        k <= 1,
        forall|i: int| 0 <= i < parts.len() ==> lex_end(Lex::Out, #[trigger] parts[i]) == Lex::Out && opens(
            Lex::Out,
            parts[i],
        ) == k,
    ensures
        lex_end(Lex::Out, join(parts)) == Lex::Out,
        opens(Lex::Out, join(parts)) == k * parts.len(),
    decreases parts.len(),
{
    if parts.len() == 1 {
        assert(parts[0] == parts[0]);
    } else if parts.len() > 1 {
        let d = parts.drop_last();
        assert forall|i: int| 0 <= i < d.len() implies lex_end(Lex::Out, #[trigger] d[i]) == Lex::Out && opens(
            Lex::Out,
            d[i],
        ) == k by {
            assert(d[i] == parts[i]);
        }
        lemma_join(d, k);
        let sep = ", "@;
        reveal_strlit(", ");
        assert(sep =~= seq![',', ' ']);
        lemma_lex_two(Lex::Out, ',', ' ');
        lemma_lex_one(Lex::Out, ',');
        lemma_lex_one(Lex::Out, ' ');
        lemma_lex_concat(Lex::Out, join(d), sep);
        lemma_lex_concat(Lex::Out, join(d) + sep, parts.last());
        assert(k * parts.len() == k * d.len() + k) by (nonlinear_arith)
            requires
                d.len() + 1 == parts.len(),
        ;
    }
}

proof fn lemma_tuple(row: Vec<SqlValue>)
    ensures
        lex_end(Lex::Out, tuple_text(row.deep_view())) == Lex::Out,
        opens(Lex::Out, tuple_text(row.deep_view())) == 1,
{
    let parts = row.deep_view();
    assert forall|i: int| 0 <= i < parts.len() implies lex_end(Lex::Out, #[trigger] parts[i]) == Lex::Out && opens(
        Lex::Out,
        parts[i],
    ) == 0 by {
        lemma_value(row@[i]);
    }
    lemma_join(parts, 0);
    lemma_lex_one(Lex::Out, '(');
    lemma_lex_one(Lex::Out, ')');
    reveal_strlit("(");
    reveal_strlit(")");
    assert("("@ =~= seq!['(']);
    assert(")"@ =~= seq![')']);
    lemma_lex_concat(Lex::Out, "("@, join(parts));
    lemma_lex_concat(Lex::Out, "("@ + join(parts), ")"@);
}

/// The values part of a statement built from `rows` holds, outside string
/// literals, exactly one opening parenthesis per row: one tuple per row,
/// whatever the strings of the rows hold.
pub proof fn lemma_one_tuple_per_row(table: Seq<char>, columns: Seq<Seq<char>>, rows: Vec<Vec<SqlValue>>)
    ensures
        insert_text(table, columns, rows.deep_view()) == insert_head(table, columns) + join(
            row_tuples(rows.deep_view()),
        ),
        opens(Lex::Out, join(row_tuples(rows.deep_view()))) == rows@.len(),
        lex_end(Lex::Out, join(row_tuples(rows.deep_view()))) == Lex::Out,
{
    let tuples = row_tuples(rows.deep_view());
    assert forall|i: int| 0 <= i < tuples.len() implies lex_end(Lex::Out, #[trigger] tuples[i]) == Lex::Out
        && opens(Lex::Out, tuples[i]) == 1 by {
        lemma_tuple(rows@[i]);
    }
    lemma_join(tuples, 1);
}

fn push_value(out: &mut String, v: &SqlValue)
    ensures
        final(out)@ == old(out)@ + v.deep_view(),
{
    match v {
        SqlValue::Int(n) => push_int(out, *n),
        SqlValue::Text(s) => push_string_literal(out, s.as_str()),
    }
}

proof fn lemma_join_step(parts: Seq<Seq<char>>, i: int)
    requires
        0 < i < parts.len(),
    ensures
        join(parts.subrange(0, i + 1)) == join(parts.subrange(0, i)) + ", "@ + parts[i],
{
    let p = parts.subrange(0, i + 1);
    assert(p.drop_last() =~= parts.subrange(0, i));
}

fn push_tuple(out: &mut String, row: &Vec<SqlValue>)
    ensures
        final(out)@ == old(out)@ + tuple_text(row.deep_view()),
{
    let ghost start = out@;
    let ghost parts = row.deep_view();
    out.append("(");
    let mut i: usize = 0;
    while i < row.len()
        invariant
            i <= row@.len(),
            parts == row.deep_view(),
            out@ == start + "("@ + join(parts.subrange(0, i as int)),
        decreases row@.len() - i,
    {
        if i > 0 {
            out.append(", ");
        }
        push_value(out, &row[i]);
        proof {
            if i > 0 {
                lemma_join_step(parts, i as int);
            } else {
                assert(join(parts.subrange(0, 1)) == parts.subrange(0, 1)[0]);
            }
            assert(out@ =~= start + "("@ + join(parts.subrange(0, i + 1)));
        }
        i = i + 1;
    }
    assert(parts.subrange(0, i as int) =~= parts);
    out.append(")");
    assert(out@ =~= start + tuple_text(parts));
}

/// Builds one INSERT statement that writes all `rows` into `table`, each
/// row as a tuple of literals in column order; strings are quoted and
/// escaped. With no rows there is no statement.
pub fn build_insert(table: &str, columns: &Vec<&str>, rows: &Vec<Vec<SqlValue>>) -> (r: Option<String>)
    ensures
        rows@.len() == 0 ==> r is None,
        rows@.len() > 0 ==> (r matches Some(s) && s@ == insert_text(table@, column_names(columns@), rows.deep_view())),
{
    if rows.len() == 0 {
        return None;
    }
    let ghost names = column_names(columns@);
    let mut out = String::from_str("INSERT INTO ");
    out.append(table);
    out.append(" (");
    let mut i: usize = 0;
    while i < columns.len()
        invariant
            i <= columns@.len(),
            names == column_names(columns@),
            out@ == "INSERT INTO "@ + table@ + " ("@ + join(names.subrange(0, i as int)),
        decreases columns@.len() - i,
    {
        if i > 0 {
            out.append(", ");
        }
        out.append(columns[i]);
        proof {
            if i > 0 {
                lemma_join_step(names, i as int);
            } else {
                assert(join(names.subrange(0, 1)) == names.subrange(0, 1)[0]);
            }
            assert(out@ =~= "INSERT INTO "@ + table@ + " ("@ + join(names.subrange(0, i + 1)));
        }
        i = i + 1;
    }
    assert(names.subrange(0, i as int) =~= names);
    out.append(") VALUES ");
    let ghost head = out@;
    assert(head =~= insert_head(table@, names));
    let ghost tuples = row_tuples(rows.deep_view());
    let mut k: usize = 0;
    while k < rows.len()
        invariant
            k <= rows@.len(),
            tuples == row_tuples(rows.deep_view()),
            tuples.len() == rows@.len(),
            out@ == head + join(tuples.subrange(0, k as int)),
        decreases rows@.len() - k,
    {
        if k > 0 {
            out.append(", ");
        }
        push_tuple(&mut out, &rows[k]);
        proof {
            assert(tuples[k as int] == tuple_text(rows@[k as int].deep_view()));
            if k > 0 {
                lemma_join_step(tuples, k as int);
            } else {
                assert(join(tuples.subrange(0, 1)) == tuples.subrange(0, 1)[0]);
            }
            assert(out@ =~= head + join(tuples.subrange(0, k + 1)));
        }
        k = k + 1;
    }
    assert(tuples.subrange(0, k as int) =~= tuples);
    Some(out)
}

} // verus!
