//! Quoting one value for JSON and for CSV.

use vstd::prelude::*;

use crate::text::{digit_char, to_digit_char};

verus! {

/// How one character stands inside a JSON string literal.
pub open spec fn json_escape(c: char) -> Seq<char> {
    if c == '"' {
        seq!['\\', '"']
    } else if c == '\\' {
        seq!['\\', '\\']
    } else if c == '\n' {
        seq!['\\', 'n']
    } else if c == '\r' {
        seq!['\\', 'r']
    } else if c == '\t' {
        seq!['\\', 't']
    } else if (c as u32) < 0x20 {
        seq!['\\', 'u', '0', '0', digit_char(c as int / 16), digit_char(c as int % 16)]
    } else {
        seq![c]
    }
}

/// The characters of `s`, each as it stands inside a JSON string literal.
pub open spec fn json_body(s: Seq<char>) -> Seq<char>
    decreases s.len(),
{
    if s.len() == 0 {
        seq![]
    } else {
        json_body(s.drop_last()) + json_escape(s.last())
    }
}

/// `s` as a JSON string literal, quotes included.
pub open spec fn json_quoted(s: Seq<char>) -> Seq<char> {
    seq!['"'] + json_body(s) + seq!['"']
}

/// Whether a CSV field has to be quoted.
pub open spec fn csv_special(s: Seq<char>) -> bool {
    s.contains(',') || s.contains('"') || s.contains('\n') || s.contains('\r')
}

/// `s` with every quote doubled.
pub open spec fn quotes_doubled(s: Seq<char>) -> Seq<char>
    decreases s.len(),
{
    if s.len() == 0 {
        seq![]
    } else if s.last() == '"' {
        quotes_doubled(s.drop_last()) + seq!['"', '"']
    } else {
        quotes_doubled(s.drop_last()).push(s.last())
    }
}

/// `s` as one CSV field.
pub open spec fn csv_quoted(s: Seq<char>) -> Seq<char> {
    if csv_special(s) {
        seq!['"'] + quotes_doubled(s) + seq!['"']
    } else {
        s
    }
}

/// Appends one character as it stands inside a JSON string literal.
fn push_json_char(out: &mut String, c: char)
    ensures
        final(out)@ == old(out)@ + json_escape(c),
{
    let ghost before = out@;
    if c == '"' || c == '\\' {
        out.push('\\');
        out.push(c);
    } else if c == '\n' {
        out.push('\\');
        out.push('n');
    } else if c == '\r' {
        out.push('\\');
        out.push('r');
    } else if c == '\t' {
        out.push('\\');
        out.push('t');
    } else if (c as u32) < 0x20 {
        let code: u8 = (c as u32) as u8;
        out.push('\\');
        out.push('u');
        out.push('0');
        out.push('0');
        out.push(to_digit_char(code / 16));
        out.push(to_digit_char(code % 16));
    } else {
        out.push(c);
    }
    assert(out@ =~= before + json_escape(c));
}

/// Appends `s` as a JSON string literal, quotes included.
pub fn push_json_string(out: &mut String, s: &str)
    ensures
        final(out)@ == old(out)@ + json_quoted(s@),
{
    let ghost start = out@;
    out.push('"');
    for c in it: s.chars()
        invariant
            it.seq() == s@,
            out@ == start.push('"') + json_body(it.seq().take(it.index())),
    {
        push_json_char(out, c);
        assert(s@.take(it.index() + 1).drop_last() =~= s@.take(it.index()));
    }
    assert(s@.take(s@.len() as int) =~= s@);
    out.push('"');
    assert(out@ =~= start + json_quoted(s@));
}

/// Serializes as a JSON string literal, quotes included.
pub fn json_string(s: &str) -> (r: String)
    ensures
        r@ == json_quoted(s@),
{
    let mut out = String::new();
    push_json_string(&mut out, s);
    out
}

/// Whether a CSV field has to be quoted.
fn is_csv_special(s: &str) -> (b: bool)
    ensures
        b == csv_special(s@),
{
    for c in it: s.chars()
        invariant
            it.seq() == s@,
            forall|j: int| 0 <= j < it.index() ==> s@[j] != ',' && s@[j] != '"' && s@[j] != '\n' && s@[j] != '\r',
    {
        if c == ',' || c == '"' || c == '\n' || c == '\r' {
            assert(s@.contains(c)) by {
                assert(s@[it.index()] == c);
            }
            return true;
        }
    }
    false
}

/// Appends `s` as one CSV field.
pub fn push_csv_field(out: &mut String, s: &str)
    ensures
        final(out)@ == old(out)@ + csv_quoted(s@),
{
    let ghost start = out@;
    if is_csv_special(s) {
        out.push('"');
        for c in it: s.chars()
            invariant
                it.seq() == s@,
                out@ == start.push('"') + quotes_doubled(it.seq().take(it.index())),
        {
            let ghost before = out@;
            if c == '"' {
                out.push('"');
            }
            out.push(c);
            assert(s@.take(it.index() + 1).drop_last() =~= s@.take(it.index()));
            assert(out@ =~= start.push('"') + quotes_doubled(s@.take(it.index() + 1)));
        }
        assert(s@.take(s@.len() as int) =~= s@);
        out.push('"');
    } else {
        out.push_str(s);
    }
    assert(out@ =~= start + csv_quoted(s@));
}

/// Quotes a CSV field when it contains a delimiter, a quote or a line break;
/// embedded quotes are doubled (RFC 4180).
pub fn csv_field(s: &str) -> (r: String)
    ensures
        r@ == csv_quoted(s@),
{
    let mut out = String::new();
    push_csv_field(&mut out, s);
    out
}

proof fn lemma_json_body_concat(a: Seq<char>, b: Seq<char>)
    ensures
        json_body(a + b) == json_body(a) + json_body(b),
    decreases b.len(),
{
    if b.len() == 0 {
        assert(a + b =~= a);
        assert(json_body(a) + json_body(b) =~= json_body(a));
    } else {
        lemma_json_body_concat(a, b.drop_last());
        assert((a + b).drop_last() =~= a + b.drop_last());
        assert(json_body(a + b) =~= json_body(a) + json_body(b));
    }
}

/// A string literal of JSON is written character by character between quotes:
/// the quote and the backslash behind a backslash, line feed, carriage return
/// and tab by their letters, the other control characters by their number in
/// base sixteen, and everything else as it is.
pub proof fn law_json_literal_spells_characters(a: Seq<char>, b: Seq<char>, c: char)
    ensures
        json_quoted(a) == seq!['"'] + json_body(a) + seq!['"'],
        json_body(seq![]) == Seq::<char>::empty(),
        json_body(a + b) == json_body(a) + json_body(b),
        json_body(seq!['"']) == seq!['\\', '"'],
        json_body(seq!['\\']) == seq!['\\', '\\'],
        json_body(seq!['\n']) == seq!['\\', 'n'],
        json_body(seq!['\r']) == seq!['\\', 'r'],
        json_body(seq!['\t']) == seq!['\\', 't'],
        (c as int) < 0x20 && c != '\n' && c != '\r' && c != '\t' ==> json_body(seq![c]) == seq![
            '\\',
            'u',
            '0',
            '0',
            "0123456789abcdef"@[c as int / 16],
            "0123456789abcdef"@[c as int % 16],
        ],
        c as int >= 0x20 && c != '"' && c != '\\' ==> json_body(seq![c]) == seq![c],
{
    reveal_strlit("0123456789abcdef");
    lemma_json_body_concat(a, b);
    lemma_json_body_one('"');
    lemma_json_body_one('\\');
    lemma_json_body_one('\n');
    lemma_json_body_one('\r');
    lemma_json_body_one('\t');
    lemma_json_body_one(c);
}

proof fn lemma_json_body_one(c: char)
    ensures
        json_body(seq![c]) == json_escape(c),
{
    assert(seq![c].drop_last() =~= seq![]);
    assert(json_body(seq![c].drop_last()) =~= seq![]);
    assert(json_body(seq![c]) =~= json_escape(c));
}

proof fn lemma_quotes_doubled_concat(a: Seq<char>, b: Seq<char>)
    ensures
        quotes_doubled(a + b) == quotes_doubled(a) + quotes_doubled(b),
    decreases b.len(),
{
    if b.len() == 0 {
        assert(a + b =~= a);
        assert(quotes_doubled(a) + quotes_doubled(b) =~= quotes_doubled(a));
    } else {
        lemma_quotes_doubled_concat(a, b.drop_last());
        assert((a + b).drop_last() =~= a + b.drop_last());
        assert(quotes_doubled(a + b) =~= quotes_doubled(a) + quotes_doubled(b));
    }
}

/// A CSV field stands as it is unless it holds a comma, a quote or a line
/// break; then it stands between quotes, with its own quotes doubled and
/// nothing else changed.
pub proof fn law_csv_quotes_where_needed(s: Seq<char>, a: Seq<char>, b: Seq<char>, c: char)
    ensures
        (forall|i: int|
            0 <= i < s.len() ==> #[trigger] s[i] != ',' && s[i] != '"' && s[i] != '\n' && s[i]
                != '\r') ==> csv_quoted(s) == s,
        (exists|i: int|
            0 <= i < s.len() && (#[trigger] s[i] == ',' || s[i] == '"' || s[i] == '\n' || s[i]
                == '\r')) ==> csv_quoted(s) == seq!['"'] + quotes_doubled(s) + seq!['"'],
        quotes_doubled(seq![]) == Seq::<char>::empty(),
        quotes_doubled(a + b) == quotes_doubled(a) + quotes_doubled(b),
        quotes_doubled(seq!['"']) == seq!['"', '"'],
        c != '"' ==> quotes_doubled(seq![c]) == seq![c],
{
    lemma_quotes_doubled_concat(a, b);
    assert(seq![c].drop_last() =~= seq![]);
    assert(seq!['"'].drop_last() =~= seq![]);
    assert(quotes_doubled(seq![]) =~= Seq::<char>::empty());
    assert(quotes_doubled(seq![c].drop_last()) =~= seq![]);
    assert(quotes_doubled(seq!['"'].drop_last()) =~= seq![]);
    assert(quotes_doubled(seq!['"']) =~= seq!['"', '"']);
    if c != '"' {
        assert(quotes_doubled(seq![c]) =~= seq![c]);
    }
    if exists|i: int|
        0 <= i < s.len() && (#[trigger] s[i] == ',' || s[i] == '"' || s[i] == '\n' || s[i]
            == '\r') {
        let i = choose|i: int|
            0 <= i < s.len() && (#[trigger] s[i] == ',' || s[i] == '"' || s[i] == '\n' || s[i]
                == '\r');
        assert(s.contains(s[i]));
    }
}

} // verus!
