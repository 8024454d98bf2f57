//! What a reader of JSON (RFC 8259) makes of a text, and that it gets back
//! what the report was written from.

use vstd::prelude::*;

use crate::escape::{json_body, json_escape, json_quoted};
use crate::json_report::{
    json_document, json_line, json_lines, json_member, json_number, json_object, json_optional, json_row,
    json_strings, json_tallies,
};
use crate::model::{QueryResult, Resolver, RowState, SummaryView};
use crate::rows::{
    row_detail, row_elapsed_nat, row_status, row_ttl_nat, row_values, shown,
};
use crate::text::{decimal, digit_char, joined, lemma_decimal_digits, lemma_joined_head};

verus! {

/// A JSON value. Members keep their order.
pub enum Json {
    Null,
    Number(nat),
    Text(Seq<char>),
    List(Seq<Json>),
    Object(Seq<(Seq<char>, Json)>),
}

/// Whitespace between tokens.
pub open spec fn is_space(c: char) -> bool {
    c == ' ' || c == '\t' || c == '\n' || c == '\r'
}

/// The text from its first token on.
pub open spec fn skip_space(s: Seq<char>) -> Seq<char>
    decreases s.len(),
{
    if s.len() > 0 && is_space(s[0]) {
        skip_space(s.skip(1))
    } else {
        s
    }
}

/// A decimal digit.
pub open spec fn is_digit(c: char) -> bool {
    '0' <= c && c <= '9'
}

/// The value of a digit in base sixteen.
pub open spec fn hex_value(c: char) -> Option<int> {
    if is_digit(c) {
        Some(c as int - '0' as int)
    } else if 'a' <= c && c <= 'f' {
        Some(c as int - 'a' as int + 10)
    } else if 'A' <= c && c <= 'F' {
        Some(c as int - 'A' as int + 10)
    } else {
        None
    }
}

/// The character that four digits in base sixteen stand for; halves of a
/// surrogate pair stand for none.
pub open spec fn hex_char(s: Seq<char>) -> Option<char> {
    match (hex_value(s[0]), hex_value(s[1]), hex_value(s[2]), hex_value(s[3])) {
        (Some(a), Some(b), Some(c), Some(d)) => {
            let code = ((a * 16 + b) * 16 + c) * 16 + d;
            if 0xd800 <= code <= 0xdfff {
                None
            } else {
                Some(code as char)
            }
        },
        _ => None,
    }
}

/// The character that an escape of two characters stands for, by its second.
pub open spec fn short_escape(c: char) -> Option<char> {
    if c == '"' || c == '\\' || c == '/' {
        Some(c)
    } else if c == 'n' {
        Some('\n')
    } else if c == 'r' {
        Some('\r')
    } else if c == 't' {
        Some('\t')
    } else if c == 'b' {
        Some('\u{8}')
    } else if c == 'f' {
        Some('\u{c}')
    } else {
        None
    }
}

/// The rest of a string behind its opening quote: what it holds, and the text
/// behind its closing quote. Control characters have to be escaped.
pub open spec fn read_string(s: Seq<char>) -> Option<(Seq<char>, Seq<char>)>
    decreases s.len(),
{
    if s.len() == 0 || (s[0] as u32) < 0x20 {
        None
    } else if s[0] == '"' {
        Some((seq![], s.skip(1)))
    } else if s[0] != '\\' {
        with_char(Some(s[0]), read_string(s.skip(1)))
    } else if s.len() >= 6 && s[1] == 'u' {
        with_char(hex_char(s.skip(2)), read_string(s.skip(6)))
    } else if s.len() >= 2 {
        with_char(short_escape(s[1]), read_string(s.skip(2)))
    } else {
        None
    }
}

/// A character before what was read behind it.
pub open spec fn with_char(c: Option<char>, read: Option<(Seq<char>, Seq<char>)>) -> Option<
    (Seq<char>, Seq<char>),
> {
    match (c, read) {
        (Some(c), Some((text, rest))) => Some((seq![c] + text, rest)),
        _ => None,
    }
}

/// Digits read on from the number `n`.
pub open spec fn read_digits(s: Seq<char>, n: nat) -> (nat, Seq<char>)
    decreases s.len(),
{
    if s.len() > 0 && is_digit(s[0]) {
        read_digits(s.skip(1), (n * 10 + (s[0] as int - '0' as int)) as nat)
    } else {
        (n, s)
    }
}

/// The value at the start of a text, and what follows it.
pub open spec fn read_value(s: Seq<char>) -> Option<(Json, Seq<char>)>
    decreases s.len(), 0int,
{
    if s.len() == 0 {
        None
    } else if s[0] == '"' {
        match read_string(s.skip(1)) {
            Some((text, rest)) => Some((Json::Text(text), rest)),
            None => None,
        }
    } else if s[0] == 'n' {
        if s.len() >= 4 && s[1] == 'u' && s[2] == 'l' && s[3] == 'l' {
            Some((Json::Null, s.skip(4)))
        } else {
            None
        }
    } else if is_digit(s[0]) {
        if s[0] == '0' && s.len() > 1 && is_digit(s[1]) {
            None
        } else {
            let (n, rest) = read_digits(s, 0);
            Some((Json::Number(n), rest))
        }
    } else if s[0] == '[' {
        proof {
            lemma_skip_space_shortens(s.skip(1));
        }
        let t = skip_space(s.skip(1));
        if t.len() > 0 && t[0] == ']' {
            Some((Json::List(seq![]), t.skip(1)))
        } else {
            match read_items(t) {
                Some((items, rest)) => Some((Json::List(items), rest)),
                None => None,
            }
        }
    } else if s[0] == '{' {
        proof {
            lemma_skip_space_shortens(s.skip(1));
        }
        let t = skip_space(s.skip(1));
        if t.len() > 0 && t[0] == '}' {
            Some((Json::Object(seq![]), t.skip(1)))
        } else {
            match read_members(t) {
                Some((members, rest)) => Some((Json::Object(members), rest)),
                None => None,
            }
        }
    } else {
        None
    }
}

/// The items of a list up to its closing bracket, and what follows it.
pub open spec fn read_items(s: Seq<char>) -> Option<(Seq<Json>, Seq<char>)>
    decreases s.len(), 1int,
{
    match read_value(s) {
        None => None,
        Some((item, behind)) => {
            let rest = skip_space(behind);
            if rest.len() == 0 || rest.len() > s.len() {
                None
            } else if rest[0] == ']' {
                Some((seq![item], rest.skip(1)))
            } else if rest[0] == ',' {
                proof {
                    lemma_skip_space_shortens(rest.skip(1));
                }
                match read_items(skip_space(rest.skip(1))) {
                    Some((items, end)) => Some((seq![item] + items, end)),
                    None => None,
                }
            } else {
                None
            }
        },
    }
}

/// The members of an object up to its closing brace, and what follows it.
pub open spec fn read_members(s: Seq<char>) -> Option<(Seq<(Seq<char>, Json)>, Seq<char>)>
    decreases s.len(), 1int,
{
    match read_member(s) {
        None => None,
        Some((member, behind)) => {
            let rest = skip_space(behind);
            if rest.len() == 0 || rest.len() > s.len() {
                None
            } else if rest[0] == '}' {
                Some((seq![member], rest.skip(1)))
            } else if rest[0] == ',' {
                proof {
                    lemma_skip_space_shortens(rest.skip(1));
                }
                match read_members(skip_space(rest.skip(1))) {
                    Some((members, end)) => Some((seq![member] + members, end)),
                    None => None,
                }
            } else {
                None
            }
        },
    }
}

/// One member: a string, a colon and a value.
pub open spec fn read_member(s: Seq<char>) -> Option<((Seq<char>, Json), Seq<char>)>
    decreases s.len(), 0int,
{
    if s.len() == 0 || s[0] != '"' {
        None
    } else {
        match read_string(s.skip(1)) {
            None => None,
            Some((key, behind)) => {
                let rest = skip_space(behind);
                if rest.len() == 0 || rest.len() > s.len() || rest[0] != ':' {
                    None
                } else {
                    proof {
                        lemma_skip_space_shortens(rest.skip(1));
                    }
                    match read_value(skip_space(rest.skip(1))) {
                        Some((value, end)) => Some(((key, value), end)),
                        None => None,
                    }
                }
            },
        }
    }
}

/// The one value that a whole text holds.
pub open spec fn read_document(s: Seq<char>) -> Option<Json> {
    match read_value(skip_space(s)) {
        Some((value, rest)) => if skip_space(rest).len() == 0 {
            Some(value)
        } else {
            None
        },
        None => None,
    }
}

/// Leaving whitespace out makes no text longer.
pub proof fn lemma_skip_space_shortens(s: Seq<char>)
    ensures
        skip_space(s).len() <= s.len(),
    decreases s.len(),
{
    if s.len() > 0 && is_space(s[0]) {
        lemma_skip_space_shortens(s.skip(1));
    }
}

/// Nothing but whitespace.
pub open spec fn all_space(s: Seq<char>) -> bool {
    forall|i: int| 0 <= i < s.len() ==> is_space(#[trigger] s[i])
}

/// The text begins with a token, or is over.
pub open spec fn at_token(s: Seq<char>) -> bool {
    s.len() == 0 || !is_space(s[0])
}

proof fn lemma_skip_space(space: Seq<char>, s: Seq<char>)
    requires
        all_space(space),
        at_token(s),
    ensures
        skip_space(space + s) == s,
    decreases space.len(),
{
    if space.len() == 0 {
        assert(space + s =~= s);
    } else {
        lemma_skip_space(space.skip(1), s);
        assert((space + s).skip(1) =~= space.skip(1) + s);
    }
}

/// A value ends here.
pub open spec fn ends_value(rest: Seq<char>) -> bool {
    rest.len() == 0 || rest[0] == ',' || rest[0] == ']' || rest[0] == '}' || is_space(rest[0])
}

/// Wherever `text` stands before the end of a value, it is read as `value`.
pub open spec fn reads(text: Seq<char>, value: Json) -> bool {
    &&& text.len() > 0
    &&& !is_space(text[0])
    &&& forall|rest: Seq<char>|
        ends_value(rest) ==> #[trigger] read_value(text + rest) == Some((value, rest))
}

proof fn lemma_json_body_head(c: char, s: Seq<char>)
    ensures
        json_body(seq![c] + s) == json_escape(c) + json_body(s),
    decreases s.len(),
{
    let all = seq![c] + s;
    if s.len() == 0 {
        assert(all.drop_last() =~= seq![]);
        assert(json_body(all.drop_last()) =~= seq![]);
        assert(json_body(s) =~= seq![]);
        assert(json_body(all) =~= json_escape(c) + json_body(s));
    } else {
        lemma_json_body_head(c, s.drop_last());
        assert(all.drop_last() =~= seq![c] + s.drop_last());
        assert(json_body(all) =~= json_escape(c) + json_body(s));
    }
}

proof fn lemma_escape_reads(c: char, tail: Seq<char>)
    ensures
        read_string(json_escape(c) + tail) == with_char(Some(c), read_string(tail)),
{
    let text = json_escape(c) + tail;
    assert(text.skip(json_escape(c).len() as int) =~= tail);
    if (c as u32) < 0x20 && c != '\n' && c != '\r' && c != '\t' {
        let code = c as int;
        assert(text.skip(2)[0] == '0');
        assert(text.skip(2)[1] == '0');
        assert(text.skip(2)[2] == digit_char(code / 16));
        assert(text.skip(2)[3] == digit_char(code % 16));
        assert(hex_value('0') == Some(0int));
        assert(hex_value(digit_char(code / 16)) == Some(code / 16));
        assert(hex_value(digit_char(code % 16)) == Some(code % 16));
        assert(hex_char(text.skip(2)) == Some(c));
    }
}

/// A reader gets back the string that a literal was written from, whatever
/// characters it holds.
pub proof fn law_json_string_reads_back(s: Seq<char>, rest: Seq<char>)
    ensures
        read_string(json_body(s) + seq!['"'] + rest) == Some((s, rest)),
    decreases s.len(),
{
    let text = json_body(s) + seq!['"'] + rest;
    if s.len() == 0 {
        assert(text =~= seq!['"'] + rest);
        assert(text.skip(1) =~= rest);
    } else {
        let c = s[0];
        let t = s.skip(1);
        let tail = json_body(t) + seq!['"'] + rest;
        assert(s =~= seq![c] + t);
        lemma_json_body_head(c, t);
        law_json_string_reads_back(t, rest);
        assert(text =~= json_escape(c) + tail);
        lemma_escape_reads(c, tail);
    }
}

proof fn lemma_reads_string(s: Seq<char>)
    ensures
        reads(json_quoted(s), Json::Text(s)),
{
    assert forall|rest: Seq<char>| ends_value(rest) implies #[trigger] read_value(
        json_quoted(s) + rest,
    ) == Some((Json::Text(s), rest)) by {
        law_json_string_reads_back(s, rest);
        assert((json_quoted(s) + rest).skip(1) =~= json_body(s) + seq!['"'] + rest);
    }
}

/// The number that digits continue `n` to.
spec fn continued(digits: Seq<char>, n: nat) -> nat
    decreases digits.len(),
{
    if digits.len() == 0 {
        n
    } else {
        (continued(digits.drop_last(), n) * 10 + (digits.last() as int - '0' as int)) as nat
    }
}

proof fn lemma_reads_digits(digits: Seq<char>, rest: Seq<char>, n: nat)
    requires
        forall|i: int| 0 <= i < digits.len() ==> is_digit(#[trigger] digits[i]),
    ensures
        read_digits(digits + rest, n) == read_digits(rest, continued(digits, n)),
    decreases digits.len(),
{
    if digits.len() == 0 {
        assert(digits + rest =~= rest);
    } else {
        let last = digits.last();
        let longer = seq![last] + rest;
        lemma_reads_digits(digits.drop_last(), longer, n);
        assert(digits + rest =~= digits.drop_last() + longer);
        assert(longer.skip(1) =~= rest);
    }
}

proof fn lemma_decimal_value(n: nat)
    ensures
        continued(decimal(n), 0) == n,
        n > 0 ==> decimal(n)[0] != '0',
        n < 10 ==> decimal(n).len() == 1,
    decreases n,
{
    if n < 10 {
        let d = decimal(n);
        assert(d.drop_last() =~= seq![]);
        assert(continued(d.drop_last(), 0) == 0);
    } else {
        lemma_decimal_value(n / 10);
        lemma_decimal_digits(n / 10);
        assert(decimal(n).drop_last() =~= decimal(n / 10));
    }
}

proof fn lemma_reads_number(n: nat)
    ensures
        reads(decimal(n), Json::Number(n)),
{
    let d = decimal(n);
    lemma_decimal_digits(n);
    lemma_decimal_value(n);
    assert forall|rest: Seq<char>| ends_value(rest) implies #[trigger] read_value(d + rest)
        == Some((Json::Number(n), rest)) by {
        lemma_reads_digits(d, rest, 0);
        assert((d + rest)[0] == d[0]);
        if d[0] == '0' {
            assert(n == 0);
            assert(d.len() == 1);
            if rest.len() > 0 {
                assert((d + rest)[1] == rest[0]);
            }
        }
    }
}

proof fn lemma_reads_null()
    ensures
        reads("null"@, Json::Null),
{
    reveal_strlit("null");
    assert forall|rest: Seq<char>| ends_value(rest) implies #[trigger] read_value("null"@ + rest)
        == Some((Json::Null, rest)) by {
        assert(("null"@ + rest).skip(4) =~= rest);
    }
}

/// Wherever `text` stands before the end of a value, it is read as `member`.
pub open spec fn reads_member(text: Seq<char>, member: (Seq<char>, Json)) -> bool {
    &&& text.len() > 0
    &&& !is_space(text[0])
    &&& text[0] != '}'
    &&& forall|rest: Seq<char>|
        ends_value(rest) ==> #[trigger] read_member(text + rest) == Some((member, rest))
}

proof fn lemma_reads_member(key: Seq<char>, text: Seq<char>, value: Json)
    requires
        reads(text, value),
    ensures
        reads_member(json_member(key, text), (key, value)),
{
    reveal_strlit(": ");
    let member = json_member(key, text);
    assert forall|rest: Seq<char>| ends_value(rest) implies #[trigger] read_member(member + rest)
        == Some(((key, value), rest)) by {
        let behind = ": "@ + text + rest;
        law_json_string_reads_back(key, behind);
        assert((member + rest).skip(1) =~= json_body(key) + seq!['"'] + behind);
        assert(skip_space(behind) == behind);
        assert(behind.skip(1) =~= seq![' '] + (text + rest));
        lemma_skip_space(seq![' '], text + rest);
        assert(read_value(text + rest) == Some((value, rest)));
    }
}

proof fn lemma_joined_start(parts: Seq<Seq<char>>, sep: Seq<char>)
    requires
        parts.len() > 0,
        parts[0].len() > 0,
    ensures
        joined(parts, sep).len() > 0,
        joined(parts, sep)[0] == parts[0][0],
{
    if parts.len() > 1 {
        lemma_joined_head(parts, sep);
    }
}

proof fn lemma_reads_items(
    texts: Seq<Seq<char>>,
    values: Seq<Json>,
    gap: Seq<char>,
    tail: Seq<char>,
    rest: Seq<char>,
)
    requires
        texts.len() == values.len() > 0,
        forall|i: int| 0 <= i < texts.len() ==> reads(#[trigger] texts[i], values[i]),
        all_space(gap),
        all_space(tail),
    ensures
        read_items(joined(texts, seq![','] + gap) + tail + seq![']'] + rest) == Some(
            (values, rest),
        ),
    decreases texts.len(),
{
    let sep = seq![','] + gap;
    let text = joined(texts, sep) + tail + seq![']'] + rest;
    assert(reads(texts[0], values[0]));
    if texts.len() == 1 {
        let close = seq![']'] + rest;
        let end = tail + close;
        assert(text =~= texts[0] + end);
        if tail.len() > 0 {
            assert(is_space(tail[0]));
        }
        assert(ends_value(end));
        assert(read_value(texts[0] + end) == Some((values[0], end)));
        lemma_skip_space(tail, close);
        assert(close.skip(1) =~= rest);
        assert(seq![values[0]] =~= values);
    } else {
        let others = texts.drop_first();
        let more = joined(others, sep) + tail + seq![']'] + rest;
        let end = seq![','] + (gap + more);
        lemma_joined_head(texts, sep);
        assert(text =~= texts[0] + end);
        assert(read_value(texts[0] + end) == Some((values[0], end)));
        assert(skip_space(end) == end);
        assert(end.skip(1) =~= gap + more);
        assert(reads(texts[1], values[1]));
        lemma_joined_start(others, sep);
        assert(more[0] == others[0][0]);
        lemma_skip_space(gap, more);
        assert forall|i: int| 0 <= i < others.len() implies reads(
            #[trigger] others[i],
            values.drop_first()[i],
        ) by {
            assert(reads(texts[i + 1], values[i + 1]));
        }
        lemma_reads_items(others, values.drop_first(), gap, tail, rest);
        assert(seq![values[0]] + values.drop_first() =~= values);
    }
}

proof fn lemma_reads_members(
    texts: Seq<Seq<char>>,
    members: Seq<(Seq<char>, Json)>,
    gap: Seq<char>,
    tail: Seq<char>,
    rest: Seq<char>,
)
    requires
        texts.len() == members.len() > 0,
        forall|i: int| 0 <= i < texts.len() ==> reads_member(#[trigger] texts[i], members[i]),
        all_space(gap),
        all_space(tail),
    ensures
        read_members(joined(texts, seq![','] + gap) + tail + seq!['}'] + rest) == Some(
            (members, rest),
        ),
    decreases texts.len(),
{
    let sep = seq![','] + gap;
    let text = joined(texts, sep) + tail + seq!['}'] + rest;
    assert(reads_member(texts[0], members[0]));
    if texts.len() == 1 {
        let close = seq!['}'] + rest;
        let end = tail + close;
        assert(text =~= texts[0] + end);
        if tail.len() > 0 {
            assert(is_space(tail[0]));
        }
        assert(ends_value(end));
        assert(read_member(texts[0] + end) == Some((members[0], end)));
        lemma_skip_space(tail, close);
        assert(close.skip(1) =~= rest);
        assert(seq![members[0]] =~= members);
    } else {
        let others = texts.drop_first();
        let more = joined(others, sep) + tail + seq!['}'] + rest;
        let end = seq![','] + (gap + more);
        lemma_joined_head(texts, sep);
        assert(text =~= texts[0] + end);
        assert(read_member(texts[0] + end) == Some((members[0], end)));
        assert(skip_space(end) == end);
        assert(end.skip(1) =~= gap + more);
        assert(reads_member(texts[1], members[1]));
        lemma_joined_start(others, sep);
        assert(more[0] == others[0][0]);
        lemma_skip_space(gap, more);
        assert forall|i: int| 0 <= i < others.len() implies reads_member(
            #[trigger] others[i],
            members.drop_first()[i],
        ) by {
            assert(reads_member(texts[i + 1], members[i + 1]));
        }
        lemma_reads_members(others, members.drop_first(), gap, tail, rest);
        assert(seq![members[0]] + members.drop_first() =~= members);
    }
}

/// A list with whitespace around its items.
spec fn list_text(lead: Seq<char>, texts: Seq<Seq<char>>, gap: Seq<char>, tail: Seq<char>) -> Seq<
    char,
> {
    seq!['['] + lead + joined(texts, seq![','] + gap) + tail + seq![']']
}

/// An object with whitespace around its members.
spec fn object_text(
    lead: Seq<char>,
    texts: Seq<Seq<char>>,
    gap: Seq<char>,
    tail: Seq<char>,
) -> Seq<char> {
    seq!['{'] + lead + joined(texts, seq![','] + gap) + tail + seq!['}']
}

proof fn lemma_reads_list(
    lead: Seq<char>,
    texts: Seq<Seq<char>>,
    gap: Seq<char>,
    tail: Seq<char>,
    values: Seq<Json>,
)
    requires
        texts.len() == values.len(),
        forall|i: int| 0 <= i < texts.len() ==> reads(#[trigger] texts[i], values[i]),
        all_space(lead),
        all_space(gap),
        all_space(tail),
    ensures
        reads(list_text(lead, texts, gap, tail), Json::List(values)),
{
    let sep = seq![','] + gap;
    let text = list_text(lead, texts, gap, tail);
    assert forall|rest: Seq<char>| ends_value(rest) implies #[trigger] read_value(text + rest)
        == Some((Json::List(values), rest)) by {
        let inner = joined(texts, sep) + tail + seq![']'] + rest;
        assert((text + rest).skip(1) =~= lead + inner);
        if texts.len() == 0 {
            let close = seq![']'] + rest;
            assert(lead + inner =~= (lead + tail) + close);
            assert(all_space(lead + tail));
            lemma_skip_space(lead + tail, close);
            assert(close.skip(1) =~= rest);
            assert(values =~= seq![]);
        } else {
            assert(reads(texts[0], values[0]));
            lemma_joined_start(texts, sep);
            assert(inner[0] == texts[0][0]);
            lemma_skip_space(lead, inner);
            lemma_reads_items(texts, values, gap, tail, rest);
            if inner[0] == ']' {
                assert(texts[0] + seq![] =~= texts[0]);
                assert(read_value(texts[0] + seq![]) == Some((values[0], Seq::<char>::empty())));
            }
        }
    }
}

proof fn lemma_reads_object(
    lead: Seq<char>,
    texts: Seq<Seq<char>>,
    gap: Seq<char>,
    tail: Seq<char>,
    members: Seq<(Seq<char>, Json)>,
)
    requires
        texts.len() == members.len() > 0,
        forall|i: int| 0 <= i < texts.len() ==> reads_member(#[trigger] texts[i], members[i]),
        all_space(lead),
        all_space(gap),
        all_space(tail),
    ensures
        reads(object_text(lead, texts, gap, tail), Json::Object(members)),
{
    let sep = seq![','] + gap;
    let text = object_text(lead, texts, gap, tail);
    assert forall|rest: Seq<char>| ends_value(rest) implies #[trigger] read_value(text + rest)
        == Some((Json::Object(members), rest)) by {
        let inner = joined(texts, sep) + tail + seq!['}'] + rest;
        assert((text + rest).skip(1) =~= lead + inner);
        assert(reads_member(texts[0], members[0]));
        lemma_joined_start(texts, sep);
        assert(inner[0] == texts[0][0]);
        lemma_skip_space(lead, inner);
        lemma_reads_members(texts, members, gap, tail, rest);
    }
}

/// A number, or nothing.
pub open spec fn number_value(n: Option<nat>) -> Json {
    match n {
        Some(n) => Json::Number(n),
        None => Json::Null,
    }
}

/// A string, or nothing.
pub open spec fn text_value(s: Option<Seq<char>>) -> Json {
    match s {
        Some(s) => Json::Text(s),
        None => Json::Null,
    }
}

/// A list of strings.
pub open spec fn strings_value(values: Seq<Seq<char>>) -> Json {
    Json::List(values.map_values(|v: Seq<char>| Json::Text(v)))
}

/// What the report says of one resolver.
pub open spec fn row_value(resolver: Resolver, row: RowState, in_majority: bool) -> Json {
    Json::Object(
        seq![
            ("name"@, Json::Text(resolver.name@)),
            ("location"@, Json::Text(resolver.location@)),
            ("ip"@, Json::Text(resolver.ip@)),
            ("status"@, Json::Text(row_status(row, in_majority))),
            ("elapsed_ms"@, number_value(row_elapsed_nat(row))),
            ("ttl"@, number_value(row_ttl_nat(row))),
            ("values"@, strings_value(row_values(row))),
            ("detail"@, text_value(row_detail(row))),
        ],
    )
}

/// What the report says of all.
pub open spec fn tallies_value(summary: SummaryView) -> Json {
    Json::Object(
        seq![
            ("ok"@, Json::Number(summary.ok)),
            ("responding"@, Json::Number(summary.responding)),
            ("unreachable"@, Json::Number(summary.errors)),
            ("groups"@, Json::Number(summary.groups)),
            ("agree"@, Json::Number(summary.agree)),
            ("majority_values"@, strings_value(summary.majority_values)),
        ],
    )
}

/// What the report says.
pub open spec fn report_value(
    domain: Seq<char>,
    record_type: Seq<char>,
    resolvers: Seq<Resolver>,
    rows: Seq<RowState>,
    summary: SummaryView,
) -> Json {
    Json::Object(
        seq![
            ("domain"@, Json::Text(domain)),
            ("record_type"@, Json::Text(record_type)),
            (
                "resolvers"@,
                Json::List(
                    Seq::new(
                        shown(resolvers, rows) as nat,
                        |i: int| row_value(resolvers[i], rows[i], summary.majority_rows[i]),
                    ),
                ),
            ),
            ("summary"@, tallies_value(summary)),
        ],
    )
}

proof fn lemma_reads_optional_number(n: Option<nat>)
    ensures
        reads(json_number(n), number_value(n)),
{
    match n {
        Some(n) => lemma_reads_number(n),
        None => lemma_reads_null(),
    }
}

proof fn lemma_reads_optional_string(s: Option<Seq<char>>)
    ensures
        reads(json_optional(s), text_value(s)),
{
    match s {
        Some(s) => lemma_reads_string(s),
        None => lemma_reads_null(),
    }
}

proof fn lemma_comma_space()
    ensures
        ", "@ == seq![','] + seq![' '],
{
    reveal_strlit(", ");
    assert(", "@ =~= seq![','] + seq![' ']);
}

proof fn lemma_reads_strings(values: Seq<Seq<char>>)
    ensures
        reads(json_strings(values), strings_value(values)),
{
    let texts = values.map_values(|v: Seq<char>| json_quoted(v));
    let items = values.map_values(|v: Seq<char>| Json::Text(v));
    assert forall|i: int| 0 <= i < texts.len() implies reads(#[trigger] texts[i], items[i]) by {
        lemma_reads_string(values[i]);
    }
    lemma_reads_list(seq![], texts, seq![' '], seq![], items);
    lemma_comma_space();
    reveal_strlit("[");
    reveal_strlit("]");
    assert(json_strings(values) =~= list_text(seq![], texts, seq![' '], seq![]));
}

proof fn lemma_reads_inline_object(texts: Seq<Seq<char>>, members: Seq<(Seq<char>, Json)>)
    requires
        texts.len() == members.len() > 0,
        forall|i: int| 0 <= i < texts.len() ==> reads_member(#[trigger] texts[i], members[i]),
    ensures
        reads(json_object(texts), Json::Object(members)),
{
    lemma_reads_object(seq![], texts, seq![' '], seq![], members);
    lemma_comma_space();
    reveal_strlit("{");
    reveal_strlit("}");
    assert(json_object(texts) =~= object_text(seq![], texts, seq![' '], seq![]));
}

proof fn lemma_reads_row(resolver: Resolver, row: RowState, in_majority: bool)
    ensures
        reads(json_row(resolver, row, in_majority), row_value(resolver, row, in_majority)),
{
    lemma_reads_string(resolver.name@);
    lemma_reads_string(resolver.location@);
    lemma_reads_string(resolver.ip@);
    lemma_reads_string(row_status(row, in_majority));
    lemma_reads_optional_number(row_elapsed_nat(row));
    lemma_reads_optional_number(row_ttl_nat(row));
    lemma_reads_strings(row_values(row));
    lemma_reads_optional_string(row_detail(row));
    lemma_reads_member("name"@, json_quoted(resolver.name@), Json::Text(resolver.name@));
    lemma_reads_member(
        "location"@,
        json_quoted(resolver.location@),
        Json::Text(resolver.location@),
    );
    lemma_reads_member("ip"@, json_quoted(resolver.ip@), Json::Text(resolver.ip@));
    lemma_reads_member(
        "status"@,
        json_quoted(row_status(row, in_majority)),
        Json::Text(row_status(row, in_majority)),
    );
    lemma_reads_member(
        "elapsed_ms"@,
        json_number(row_elapsed_nat(row)),
        number_value(row_elapsed_nat(row)),
    );
    lemma_reads_member("ttl"@, json_number(row_ttl_nat(row)), number_value(row_ttl_nat(row)));
    lemma_reads_member("values"@, json_strings(row_values(row)), strings_value(row_values(row)));
    lemma_reads_member("detail"@, json_optional(row_detail(row)), text_value(row_detail(row)));
    lemma_reads_inline_object(
        seq![
            json_member("name"@, json_quoted(resolver.name@)),
            json_member("location"@, json_quoted(resolver.location@)),
            json_member("ip"@, json_quoted(resolver.ip@)),
            json_member("status"@, json_quoted(row_status(row, in_majority))),
            json_member("elapsed_ms"@, json_number(row_elapsed_nat(row))),
            json_member("ttl"@, json_number(row_ttl_nat(row))),
            json_member("values"@, json_strings(row_values(row))),
            json_member("detail"@, json_optional(row_detail(row))),
        ],
        row_value(resolver, row, in_majority)->Object_0,
    );
}

proof fn lemma_reads_tallies(summary: SummaryView)
    ensures
        reads(json_tallies(summary), tallies_value(summary)),
{
    lemma_reads_number(summary.ok);
    lemma_reads_number(summary.responding);
    lemma_reads_number(summary.errors);
    lemma_reads_number(summary.groups);
    lemma_reads_number(summary.agree);
    lemma_reads_strings(summary.majority_values);
    lemma_reads_member("ok"@, decimal(summary.ok), Json::Number(summary.ok));
    lemma_reads_member("responding"@, decimal(summary.responding), Json::Number(summary.responding));
    lemma_reads_member("unreachable"@, decimal(summary.errors), Json::Number(summary.errors));
    lemma_reads_member("groups"@, decimal(summary.groups), Json::Number(summary.groups));
    lemma_reads_member("agree"@, decimal(summary.agree), Json::Number(summary.agree));
    lemma_reads_member(
        "majority_values"@,
        json_strings(summary.majority_values),
        strings_value(summary.majority_values),
    );
    lemma_reads_inline_object(
        seq![
            json_member("ok"@, decimal(summary.ok)),
            json_member("responding"@, decimal(summary.responding)),
            json_member("unreachable"@, decimal(summary.errors)),
            json_member("groups"@, decimal(summary.groups)),
            json_member("agree"@, decimal(summary.agree)),
            json_member("majority_values"@, json_strings(summary.majority_values)),
        ],
        tallies_value(summary)->Object_0,
    );
}

/// The objects of the first `n` resolvers.
spec fn row_texts(
    resolvers: Seq<Resolver>,
    rows: Seq<RowState>,
    majority: Seq<bool>,
    n: int,
) -> Seq<Seq<char>> {
    Seq::new(n as nat, |i: int| json_row(resolvers[i], rows[i], majority[i]))
}

proof fn lemma_join_step(indent: Seq<char>, before: Seq<char>, last: Seq<char>, end: Seq<char>)
    ensures
        (indent + before + ",\n"@) + (indent + last + end) == indent + (before + (seq![','] + (
        seq!['\n'] + indent)) + last) + end,
{
    reveal_strlit(",\n");
    let left = (indent + before + ",\n"@) + (indent + last + end);
    let right = indent + (before + (seq![','] + (seq!['\n'] + indent)) + last) + end;
    assert(",\n"@ =~= seq![','] + seq!['\n']);
    assert(left =~= right);
}

proof fn lemma_lines_joined(
    resolvers: Seq<Resolver>,
    rows: Seq<RowState>,
    majority: Seq<bool>,
    n: int,
)
    requires
        0 < n <= shown(resolvers, rows),
    ensures
        json_lines(resolvers, rows, majority, n) == "    "@ + joined(
            row_texts(resolvers, rows, majority, n),
            seq![','] + (seq!['\n'] + "    "@),
        ) + (if n < shown(resolvers, rows) {
            ",\n"@
        } else {
            "\n"@
        }),
    decreases n,
{
    let sep = seq![','] + (seq!['\n'] + "    "@);
    let texts = row_texts(resolvers, rows, majority, n);
    let more = n < shown(resolvers, rows);
    let end = if more {
        ",\n"@
    } else {
        "\n"@
    };
    assert(json_line(resolvers[n - 1], rows[n - 1], majority[n - 1], more) == "    "@ + texts.last()
        + end);
    if n == 1 {
        assert(joined(texts, sep) == texts.last());
        assert(json_lines(resolvers, rows, majority, 0) =~= seq![]);
        assert(json_lines(resolvers, rows, majority, 1) =~= "    "@ + texts.last() + end);
    } else {
        let before = row_texts(resolvers, rows, majority, n - 1);
        lemma_lines_joined(resolvers, rows, majority, n - 1);
        assert(texts.drop_last() =~= before);
        assert(joined(texts, sep) == joined(before, sep) + sep + texts.last());
        lemma_join_step("    "@, joined(before, sep), texts.last(), end);
    }
}

proof fn lemma_reads_resolvers(
    resolvers: Seq<Resolver>,
    rows: Seq<RowState>,
    majority: Seq<bool>,
)
    ensures
        reads(
            "[\n"@ + json_lines(resolvers, rows, majority, shown(resolvers, rows)) + "  ]"@,
            Json::List(
                Seq::new(
                    shown(resolvers, rows) as nat,
                    |i: int| row_value(resolvers[i], rows[i], majority[i]),
                ),
            ),
        ),
{
    let n = shown(resolvers, rows);
    let texts = row_texts(resolvers, rows, majority, n);
    let values = Seq::new(
        n as nat,
        |i: int| row_value(resolvers[i], rows[i], majority[i]),
    );
    assert forall|i: int| 0 <= i < texts.len() implies reads(#[trigger] texts[i], values[i]) by {
        lemma_reads_row(resolvers[i], rows[i], majority[i]);
    }
    reveal_strlit("[\n");
    reveal_strlit("  ]");
    reveal_strlit("    ");
    reveal_strlit("\n");
    let gap = seq!['\n'] + "    "@;
    let whole = "[\n"@ + json_lines(resolvers, rows, majority, n) + "  ]"@;
    if n == 0 {
        lemma_reads_list(seq!['\n', ' ', ' '], texts, gap, seq![], values);
        assert(whole =~= list_text(seq!['\n', ' ', ' '], texts, gap, seq![]));
    } else {
        lemma_lines_joined(resolvers, rows, majority, n);
        lemma_reads_list(gap, texts, gap, seq!['\n', ' ', ' '], values);
        assert(whole =~= list_text(gap, texts, gap, seq!['\n', ' ', ' ']));
    }
}

proof fn lemma_outer_object(texts: Seq<Seq<char>>)
    ensures
        "{\n  "@ + joined(texts, ",\n  "@) + "\n}\n"@ == object_text(
            seq!['\n', ' ', ' '],
            texts,
            seq!['\n', ' ', ' '],
            seq!['\n'],
        ) + seq!['\n'],
{
    let gap = seq!['\n', ' ', ' '];
    reveal_strlit("{\n  ");
    reveal_strlit(",\n  ");
    reveal_strlit("\n}\n");
    assert(",\n  "@ =~= seq![','] + gap);
    assert("{\n  "@ =~= seq!['{'] + gap);
    assert("\n}\n"@ =~= seq!['\n'] + seq!['}'] + seq!['\n']);
    let inner = joined(texts, ",\n  "@);
    assert("{\n  "@ + inner + "\n}\n"@ =~= seq!['{'] + gap + inner + seq!['\n'] + seq!['}']
        + seq!['\n']);
}

proof fn lemma_reads_document(text: Seq<char>, value: Json)
    requires
        reads(text, value),
    ensures
        read_document(text + seq!['\n']) == Some(value),
{
    let end = seq!['\n'];
    assert(skip_space(text + end) == text + end);
    assert(read_value(text + end) == Some((value, end)));
    lemma_skip_space(end, seq![]);
    assert(end + seq![] =~= end);
}

/// A reader of the JSON report finds one object: the domain, the record type,
/// each resolver that has a row with exactly the values of that row, and the
/// tallies.
pub proof fn law_json_report_reads_back(
    domain: Seq<char>,
    record_type: Seq<char>,
    resolvers: Seq<Resolver>,
    rows: Seq<RowState>,
    summary: SummaryView,
)
    ensures
        read_document(json_document(domain, record_type, resolvers, rows, summary)) == Some(
            report_value(domain, record_type, resolvers, rows, summary),
        ),
{
    let majority = summary.majority_rows;
    let list = "[\n"@ + json_lines(resolvers, rows, majority, shown(resolvers, rows)) + "  ]"@;
    let members = report_value(domain, record_type, resolvers, rows, summary)->Object_0;
    let texts = seq![
        json_member("domain"@, json_quoted(domain)),
        json_member("record_type"@, json_quoted(record_type)),
        json_member("resolvers"@, list),
        json_member("summary"@, json_tallies(summary)),
    ];
    lemma_reads_string(domain);
    lemma_reads_string(record_type);
    lemma_reads_resolvers(resolvers, rows, majority);
    lemma_reads_tallies(summary);
    lemma_reads_member("domain"@, json_quoted(domain), Json::Text(domain));
    lemma_reads_member("record_type"@, json_quoted(record_type), Json::Text(record_type));
    lemma_reads_member("resolvers"@, list, members[2].1);
    lemma_reads_member("summary"@, json_tallies(summary), tallies_value(summary));
    let gap = seq!['\n', ' ', ' '];
    lemma_reads_object(gap, texts, gap, seq!['\n'], members);
    lemma_outer_object(texts);
    lemma_reads_document(object_text(gap, texts, gap, seq!['\n']), Json::Object(members));
}

/// A reader of the JSON report finds the domain, the record type, one object
/// for each resolver that has a row, and the tallies. The object names the
/// resolver and says what its row holds.
pub proof fn law_json_reader_finds_every_resolver(
    domain: Seq<char>,
    record_type: Seq<char>,
    resolvers: Seq<Resolver>,
    rows: Seq<RowState>,
    summary: SummaryView,
) -> (r: (Seq<Json>, Seq<Json>))
    ensures
        read_document(json_document(domain, record_type, resolvers, rows, summary)) == Some(
            Json::Object(
                seq![
                    ("domain"@, Json::Text(domain)),
                    ("record_type"@, Json::Text(record_type)),
                    ("resolvers"@, Json::List(r.0)),
                    (
                        "summary"@,
                        Json::Object(
                            seq![
                                ("ok"@, Json::Number(summary.ok)),
                                ("responding"@, Json::Number(summary.responding)),
                                ("unreachable"@, Json::Number(summary.errors)),
                                ("groups"@, Json::Number(summary.groups)),
                                ("agree"@, Json::Number(summary.agree)),
                                ("majority_values"@, Json::List(r.1)),
                            ],
                        ),
                    ),
                ],
            ),
        ),
        r.1.len() == summary.majority_values.len(),
        forall|k: int|
            0 <= k < r.1.len() ==> #[trigger] r.1[k] == Json::Text(summary.majority_values[k]),
        r.0.len() == (if resolvers.len() < rows.len() {
            resolvers.len()
        } else {
            rows.len()
        }),
        forall|i: int|
            0 <= i < r.0.len() ==> (#[trigger] r.0[i] matches Json::Object(members) && {
                &&& members.len() == 8
                &&& members[0] == ("name"@, Json::Text(resolvers[i].name@))
                &&& members[1] == ("location"@, Json::Text(resolvers[i].location@))
                &&& members[2] == ("ip"@, Json::Text(resolvers[i].ip@))
                &&& members[3].0 == "status"@
                &&& members[4].0 == "elapsed_ms"@
                &&& members[5].0 == "ttl"@
                &&& members[6].0 == "values"@
                &&& members[7].0 == "detail"@
                &&& match rows[i] {
                    RowState::Done {
                        result: QueryResult::Records { values, min_ttl },
                        elapsed_ms,
                    } => {
                        &&& summary.majority_rows[i] ==> members[3].1 == Json::Text("ok"@)
                        &&& !summary.majority_rows[i] ==> members[3].1 == Json::Text("differs"@)
                        &&& members[4].1 == Json::Number(elapsed_ms as nat)
                        &&& members[5].1 == Json::Number(min_ttl as nat)
                        &&& members[6].1 matches Json::List(items) && items.len() == values@.len()
                            && forall|x: int|
                            0 <= x < items.len() ==> #[trigger] items[x] == Json::Text(values@[x]@)
                        &&& members[7].1 == Json::Null
                    },
                    RowState::Done { result: QueryResult::NoRecords(code), elapsed_ms } => {
                        &&& members[3].1 == Json::Text("none"@)
                        &&& members[4].1 == Json::Number(elapsed_ms as nat)
                        &&& members[5].1 == Json::Null
                        &&& members[6].1 matches Json::List(items) && items.len() == 0
                        &&& members[7].1 == Json::Text(code@)
                    },
                    RowState::Done { result: QueryResult::Error(err), elapsed_ms } => {
                        &&& members[3].1 == Json::Text("error"@)
                        &&& members[4].1 == Json::Number(elapsed_ms as nat)
                        &&& members[5].1 == Json::Null
                        &&& members[6].1 matches Json::List(items) && items.len() == 0
                        &&& members[7].1 == Json::Text(err@)
                    },
                    _ => {
                        &&& members[3].1 == Json::Text("unknown"@)
                        &&& members[4].1 == Json::Null
                        &&& members[5].1 == Json::Null
                        &&& members[6].1 matches Json::List(items) && items.len() == 0
                        &&& members[7].1 == Json::Null
                    },
                }
            }),
{
    law_json_report_reads_back(domain, record_type, resolvers, rows, summary);
    let items = Seq::new(
        shown(resolvers, rows) as nat,
        |i: int| row_value(resolvers[i], rows[i], summary.majority_rows[i]),
    );
    let values = summary.majority_values.map_values(|v: Seq<char>| Json::Text(v));
    assert(strings_value(summary.majority_values) == Json::List(values));
    assert(report_value(domain, record_type, resolvers, rows, summary)->Object_0[2].1 == Json::List(
        items,
    ));
    (items, values)
}

} // verus!
