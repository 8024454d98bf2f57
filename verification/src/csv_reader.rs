//! What a reader of CSV (RFC 4180) makes of a text, and that it gets back what
//! the report was written from.

use vstd::prelude::*;

use crate::csv_report::{csv_columns, csv_document, csv_line, csv_lines, csv_values};
use crate::escape::{csv_quoted, csv_special, quotes_doubled};
use crate::model::{QueryResult, Resolver, RowState};
use crate::rows::{row_elapsed_nat, row_status, row_ttl_nat, shown};
use crate::text::{decimal, joined, lemma_decimal_digits, lemma_joined_head, texts};

verus! {

/// The rest of a quoted field behind its opening quote: what it holds, and the
/// text behind its closing quote. Two quotes stand for one.
pub open spec fn read_quoted(s: Seq<char>) -> Option<(Seq<char>, Seq<char>)>
    decreases s.len(),
{
    if s.len() == 0 {
        None
    } else if s[0] != '"' {
        match read_quoted(s.skip(1)) {
            Some((field, rest)) => Some((seq![s[0]] + field, rest)),
            None => None,
        }
    } else if s.len() > 1 && s[1] == '"' {
        match read_quoted(s.skip(2)) {
            Some((field, rest)) => Some((seq!['"'] + field, rest)),
            None => None,
        }
    } else {
        Some((seq![], s.skip(1)))
    }
}

/// A field without quotes runs to the next delimiter and holds no quote.
pub open spec fn read_plain(s: Seq<char>) -> Option<(Seq<char>, Seq<char>)>
    decreases s.len(),
{
    if s.len() == 0 || s[0] == ',' || s[0] == '\n' || s[0] == '\r' {
        Some((seq![], s))
    } else if s[0] == '"' {
        None
    } else {
        match read_plain(s.skip(1)) {
            Some((field, rest)) => Some((seq![s[0]] + field, rest)),
            None => None,
        }
    }
}

/// The first field of a text and what follows it.
pub open spec fn read_field(s: Seq<char>) -> Option<(Seq<char>, Seq<char>)> {
    if s.len() > 0 && s[0] == '"' {
        read_quoted(s.skip(1))
    } else {
        read_plain(s)
    }
}

/// The first record of a text, up to the end of its line, and what follows it.
pub open spec fn read_record(s: Seq<char>) -> Option<(Seq<Seq<char>>, Seq<char>)>
    decreases s.len(),
{
    match read_field(s) {
        None => None,
        Some((field, rest)) => if rest.len() == 0 {
            Some((seq![field], rest))
        } else if rest.len() > 1 && rest[0] == '\r' && rest[1] == '\n' {
            Some((seq![field], rest.skip(2)))
        } else if rest[0] == ',' && rest.len() <= s.len() {
            match read_record(rest.skip(1)) {
                Some((fields, end)) => Some((seq![field] + fields, end)),
                None => None,
            }
        } else {
            None
        },
    }
}

/// The records of a text.
pub open spec fn read_table(s: Seq<char>) -> Option<Seq<Seq<Seq<char>>>>
    decreases s.len(),
{
    if s.len() == 0 {
        Some(seq![])
    } else {
        match read_record(s) {
            Some((record, rest)) => if rest.len() < s.len() {
                match read_table(rest) {
                    Some(records) => Some(seq![record] + records),
                    None => None,
                }
            } else {
                None
            },
            None => None,
        }
    }
}

/// A field ends here: the text is over, or a comma or a line end follows.
pub open spec fn ends_field(rest: Seq<char>) -> bool {
    rest.len() == 0 || rest[0] == ',' || (rest.len() > 1 && rest[0] == '\r' && rest[1] == '\n')
}

proof fn lemma_quotes_doubled_head(c: char, s: Seq<char>)
    ensures
        quotes_doubled(seq![c] + s) == (if c == '"' {
            seq!['"', '"']
        } else {
            seq![c]
        }) + quotes_doubled(s),
    decreases s.len(),
{
    let all = seq![c] + s;
    if s.len() == 0 {
        assert(all.drop_last() =~= seq![]);
        assert(quotes_doubled(all.drop_last()) =~= seq![]);
        assert(quotes_doubled(s) =~= seq![]);
        assert(quotes_doubled(all) =~= (if c == '"' {
            seq!['"', '"']
        } else {
            seq![c]
        }) + quotes_doubled(s));
    } else {
        lemma_quotes_doubled_head(c, s.drop_last());
        assert(all.drop_last() =~= seq![c] + s.drop_last());
        assert(quotes_doubled(all) =~= (if c == '"' {
            seq!['"', '"']
        } else {
            seq![c]
        }) + quotes_doubled(s));
    }
}

proof fn lemma_reads_quoted(s: Seq<char>, rest: Seq<char>)
    requires
        ends_field(rest),
    ensures
        read_quoted(quotes_doubled(s) + seq!['"'] + rest) == Some((s, rest)),
    decreases s.len(),
{
    let text = quotes_doubled(s) + seq!['"'] + rest;
    if s.len() == 0 {
        assert(text =~= seq!['"'] + rest);
        assert(text.skip(1) =~= rest);
    } else {
        let t = s.skip(1);
        assert(s =~= seq![s[0]] + t);
        lemma_quotes_doubled_head(s[0], t);
        lemma_reads_quoted(t, rest);
        if s[0] == '"' {
            assert(text.skip(2) =~= quotes_doubled(t) + seq!['"'] + rest);
        } else {
            assert(text.skip(1) =~= quotes_doubled(t) + seq!['"'] + rest);
        }
    }
}

proof fn lemma_reads_plain(s: Seq<char>, rest: Seq<char>)
    requires
        !csv_special(s),
        ends_field(rest),
    ensures
        read_plain(s + rest) == Some((s, rest)),
    decreases s.len(),
{
    if s.len() == 0 {
        assert(s + rest =~= rest);
    } else {
        let t = s.skip(1);
        assert(s.contains(s[0]));
        assert forall|c: char| t.contains(c) implies s.contains(c) by {
            let i = choose|i: int| 0 <= i < t.len() && t[i] == c;
            assert(s[i + 1] == c);
        }
        lemma_reads_plain(t, rest);
        assert((s + rest).skip(1) =~= t + rest);
        assert(s =~= seq![s[0]] + t);
    }
}

/// A reader gets back the value that a field was written from, whatever
/// characters it holds.
pub proof fn law_csv_field_reads_back(s: Seq<char>, rest: Seq<char>)
    requires
        ends_field(rest),
    ensures
        read_field(csv_quoted(s) + rest) == Some((s, rest)),
{
    if csv_special(s) {
        lemma_reads_quoted(s, rest);
        assert((csv_quoted(s) + rest).skip(1) =~= quotes_doubled(s) + seq!['"'] + rest);
    } else {
        lemma_reads_plain(s, rest);
        if s.len() > 0 {
            assert(s.contains(s[0]));
        }
        assert(csv_quoted(s) + rest =~= s + rest);
    }
}

/// The fields as they are written, with commas between them.
pub open spec fn csv_joined(fields: Seq<Seq<char>>) -> Seq<char> {
    joined(fields.map_values(|f: Seq<char>| csv_quoted(f)), ","@)
}

/// A reader gets back the fields of a record.
pub proof fn law_csv_record_reads_back(fields: Seq<Seq<char>>, rest: Seq<char>)
    requires
        fields.len() > 0,
    ensures
        read_record(csv_joined(fields) + seq!['\r', '\n'] + rest) == Some((fields, rest)),
    decreases fields.len(),
{
    reveal_strlit(",");
    let quoted = fields.map_values(|f: Seq<char>| csv_quoted(f));
    let text = csv_joined(fields) + seq!['\r', '\n'] + rest;
    if fields.len() == 1 {
        let end = seq!['\r', '\n'] + rest;
        law_csv_field_reads_back(fields[0], end);
        assert(text =~= csv_quoted(fields[0]) + end);
        assert(end.skip(2) =~= rest);
        assert(seq![fields[0]] =~= fields);
    } else {
        let others = fields.drop_first();
        lemma_joined_head(quoted, ","@);
        assert(quoted.drop_first() =~= others.map_values(|f: Seq<char>| csv_quoted(f)));
        let tail = csv_joined(others) + seq!['\r', '\n'] + rest;
        let end = ","@ + tail;
        law_csv_field_reads_back(fields[0], end);
        assert(text =~= csv_quoted(fields[0]) + end);
        assert(end.skip(1) =~= tail);
        law_csv_record_reads_back(others, rest);
        assert(seq![fields[0]] + others =~= fields);
    }
}

proof fn lemma_decimal_not_special(n: nat)
    ensures
        !csv_special(decimal(n)),
{
    lemma_decimal_digits(n);
}

proof fn lemma_status_not_special(row: RowState, in_majority: bool)
    ensures
        !csv_special(row_status(row, in_majority)),
{
    reveal_strlit("ok");
    reveal_strlit("differs");
    reveal_strlit("none");
    reveal_strlit("error");
    reveal_strlit("unknown");
}

proof fn lemma_line_is_record(resolver: Resolver, row: RowState, in_majority: bool)
    ensures
        csv_line(resolver, row, in_majority) == csv_joined(csv_values(resolver, row, in_majority))
            + seq!['\r', '\n'],
{
    reveal_strlit("\r\n");
    assert("\r\n"@ =~= seq!['\r', '\n']);
    let v = csv_values(resolver, row, in_majority);
    lemma_status_not_special(row, in_majority);
    if row_elapsed_nat(row) is Some {
        lemma_decimal_not_special(row_elapsed_nat(row)->0);
    }
    if row_ttl_nat(row) is Some {
        lemma_decimal_not_special(row_ttl_nat(row)->0);
    }
    assert(csv_quoted(v[3]) == v[3]);
    assert(csv_quoted(v[4]) == v[4]);
    assert(csv_quoted(v[5]) == v[5]);
    let q = v.map_values(|f: Seq<char>| csv_quoted(f));
    assert(q.take(8) =~= q);
    lemma_joined_prefix(q, 1);
    lemma_joined_prefix(q, 2);
    lemma_joined_prefix(q, 3);
    lemma_joined_prefix(q, 4);
    lemma_joined_prefix(q, 5);
    lemma_joined_prefix(q, 6);
    lemma_joined_prefix(q, 7);
    assert(joined(q.take(1), ","@) =~= csv_quoted(v[0]));
}

proof fn lemma_joined_prefix(parts: Seq<Seq<char>>, n: int)
    requires
        1 <= n < parts.len(),
    ensures
        joined(parts.take(n + 1), ","@) == joined(parts.take(n), ","@) + ","@ + parts[n],
{
    assert(parts.take(n + 1).drop_last() =~= parts.take(n));
}

/// The lines from `k` up to `n`.
spec fn lines_from(
    resolvers: Seq<Resolver>,
    rows: Seq<RowState>,
    majority: Seq<bool>,
    k: int,
    n: int,
) -> Seq<char>
    decreases n - k,
{
    if k >= n {
        seq![]
    } else {
        csv_line(resolvers[k], rows[k], majority[k]) + lines_from(
            resolvers,
            rows,
            majority,
            k + 1,
            n,
        )
    }
}

proof fn lemma_lines_split(
    resolvers: Seq<Resolver>,
    rows: Seq<RowState>,
    majority: Seq<bool>,
    k: int,
    n: int,
)
    requires
        0 <= k <= n,
    ensures
        csv_lines(resolvers, rows, majority, n) == csv_lines(resolvers, rows, majority, k)
            + lines_from(resolvers, rows, majority, k, n),
    decreases n - k,
{
    if k < n {
        lemma_lines_split(resolvers, rows, majority, k + 1, n);
        assert(csv_lines(resolvers, rows, majority, k) + (csv_line(
            resolvers[k],
            rows[k],
            majority[k],
        ) + lines_from(resolvers, rows, majority, k + 1, n)) =~= csv_lines(
            resolvers,
            rows,
            majority,
            k + 1,
        ) + lines_from(resolvers, rows, majority, k + 1, n));
    } else {
        assert(csv_lines(resolvers, rows, majority, k) + seq![] =~= csv_lines(
            resolvers,
            rows,
            majority,
            k,
        ));
    }
}

/// The values of the rows from `k` up to `n`.
spec fn values_from(
    resolvers: Seq<Resolver>,
    rows: Seq<RowState>,
    majority: Seq<bool>,
    k: int,
    n: int,
) -> Seq<Seq<Seq<char>>> {
    Seq::new((n - k) as nat, |i: int| csv_values(resolvers[k + i], rows[k + i], majority[k + i]))
}

proof fn lemma_lines_read_back(
    resolvers: Seq<Resolver>,
    rows: Seq<RowState>,
    majority: Seq<bool>,
    k: int,
    n: int,
)
    requires
        0 <= k <= n,
    ensures
        read_table(lines_from(resolvers, rows, majority, k, n)) == Some(
            values_from(resolvers, rows, majority, k, n),
        ),
    decreases n - k,
{
    if k < n {
        let record = csv_values(resolvers[k], rows[k], majority[k]);
        let rest = lines_from(resolvers, rows, majority, k + 1, n);
        lemma_line_is_record(resolvers[k], rows[k], majority[k]);
        lemma_lines_read_back(resolvers, rows, majority, k + 1, n);
        law_csv_record_reads_back(record, rest);
        assert(seq![record] + values_from(resolvers, rows, majority, k + 1, n) =~= values_from(
            resolvers,
            rows,
            majority,
            k,
            n,
        ));
    } else {
        assert(values_from(resolvers, rows, majority, k, n) =~= seq![]);
    }
}

/// A reader of the CSV report finds the names of the columns and then, for
/// each resolver, exactly the values of its row.
pub proof fn law_csv_report_reads_back(
    resolvers: Seq<Resolver>,
    rows: Seq<RowState>,
    majority: Seq<bool>,
)
    ensures
        read_table(csv_document(resolvers, rows, majority)) == Some(
            seq![csv_columns()] + Seq::new(
                shown(resolvers, rows) as nat,
                |i: int| csv_values(resolvers[i], rows[i], majority[i]),
            ),
        ),
{
    let n = shown(resolvers, rows);
    let rest = csv_lines(resolvers, rows, majority, n);
    reveal_strlit("\r\n");
    assert("\r\n"@ =~= seq!['\r', '\n']);
    lemma_lines_split(resolvers, rows, majority, 0, n);
    assert(rest =~= lines_from(resolvers, rows, majority, 0, n));
    lemma_lines_read_back(resolvers, rows, majority, 0, n);
    assert(csv_joined(csv_columns()) == joined(csv_columns(), ","@)) by {
        reveal_strlit("name");
        reveal_strlit("location");
        reveal_strlit("ip");
        reveal_strlit("status");
        reveal_strlit("elapsed_ms");
        reveal_strlit("ttl");
        reveal_strlit("values");
        reveal_strlit("detail");
        assert(csv_columns().map_values(|f: Seq<char>| csv_quoted(f)) =~= csv_columns());
    }
    law_csv_record_reads_back(csv_columns(), rest);
    assert(values_from(resolvers, rows, majority, 0, n) =~= Seq::new(
        n as nat,
        |i: int| csv_values(resolvers[i], rows[i], majority[i]),
    ));
}

/// A reader of the CSV report finds the names of the columns, and behind them
/// one record for each resolver that has a row. The record names the resolver
/// and says what its row holds.
pub proof fn law_csv_reader_finds_every_resolver(
    resolvers: Seq<Resolver>,
    rows: Seq<RowState>,
    majority: Seq<bool>,
) -> (table: Seq<Seq<Seq<char>>>)
    ensures
        read_table(csv_document(resolvers, rows, majority)) == Some(table),
        table.len() == 1 + (if resolvers.len() < rows.len() {
            resolvers.len()
        } else {
            rows.len()
        }),
        table[0] == seq![
            "name"@,
            "location"@,
            "ip"@,
            "status"@,
            "elapsed_ms"@,
            "ttl"@,
            "values"@,
            "detail"@,
        ],
        forall|i: int|
            0 <= i < resolvers.len() && i < rows.len() ==> {
                let record = #[trigger] table[i + 1];
                &&& record.len() == 8
                &&& record[0] == resolvers[i].name@
                &&& record[1] == resolvers[i].location@
                &&& record[2] == resolvers[i].ip@
                &&& match rows[i] {
                    RowState::Done {
                        result: QueryResult::Records { values, min_ttl },
                        elapsed_ms,
                    } => {
                        &&& majority[i] ==> record[3] == "ok"@
                        &&& !majority[i] ==> record[3] == "differs"@
                        &&& record[4] == decimal(elapsed_ms as nat)
                        &&& record[5] == decimal(min_ttl as nat)
                        &&& record[6] == joined(texts(values@), "|"@)
                        &&& record[7] == Seq::<char>::empty()
                    },
                    RowState::Done { result: QueryResult::NoRecords(code), elapsed_ms } => {
                        &&& record[3] == "none"@
                        &&& record[4] == decimal(elapsed_ms as nat)
                        &&& record[5] == Seq::<char>::empty()
                        &&& record[6] == Seq::<char>::empty()
                        &&& record[7] == code@
                    },
                    RowState::Done { result: QueryResult::Error(err), elapsed_ms } => {
                        &&& record[3] == "error"@
                        &&& record[4] == decimal(elapsed_ms as nat)
                        &&& record[5] == Seq::<char>::empty()
                        &&& record[6] == Seq::<char>::empty()
                        &&& record[7] == err@
                    },
                    _ => {
                        &&& record[3] == "unknown"@
                        &&& record[4] == Seq::<char>::empty()
                        &&& record[5] == Seq::<char>::empty()
                        &&& record[6] == Seq::<char>::empty()
                        &&& record[7] == Seq::<char>::empty()
                    },
                }
            },
{
    law_csv_report_reads_back(resolvers, rows, majority);
    let table = read_table(csv_document(resolvers, rows, majority))->0;
    assert forall|i: int| 0 <= i < resolvers.len() && i < rows.len() implies #[trigger] table[i + 1]
        == csv_values(resolvers[i], rows[i], majority[i]) by {}
    assert(joined(seq![], "|"@) =~= seq![]);
    table
}

} // verus!
