//! Record types, by the codes that they have on the wire.

use hickory_resolver::proto::rr::RecordType;
use std::str::FromStr;
use vstd::prelude::*;
use vstd::utf8::is_ascii_chars;

verus! {

/// The error of hickory's parsers, carried and never looked into.
#[verifier::external_type_specification]
#[verifier::external_body]
pub struct ExProtoError(hickory_resolver::proto::ProtoError);

/// What `str::to_uppercase` makes of a string.
pub uninterp spec fn uppercase(s: Seq<char>) -> Seq<char>;

/// The code of the record type that hickory reads from a name, if it knows it.
pub uninterp spec fn record_code(name: Seq<char>) -> Option<u16>;

/// The name that hickory shows for the record type with a code.
pub uninterp spec fn record_name(code: u16) -> Seq<char>;

/// A lower case ASCII letter.
pub open spec fn is_ascii_lower(c: char) -> bool {
    'a' <= c && c <= 'z'
}

/// An ASCII letter in upper case; any other character as it is.
pub open spec fn ascii_upper(c: char) -> char {
    if is_ascii_lower(c) {
        (c as int - 32) as char
    } else {
        c
    }
}

/// The code of each record type that the input field offers, by name.
pub open spec fn offered_code(name: Seq<char>) -> Option<u16> {
    if name == "A"@ {
        Some(1)
    } else if name == "AAAA"@ {
        Some(28)
    } else if name == "CNAME"@ {
        Some(5)
    } else if name == "MX"@ {
        Some(15)
    } else if name == "NS"@ {
        Some(2)
    } else if name == "TXT"@ {
        Some(16)
    } else if name == "SOA"@ {
        Some(6)
    } else {
        None
    }
}

/// The name of each record type that the input field offers, by code.
pub open spec fn offered_name(code: u16) -> Option<Seq<char>> {
    if code == 1 {
        Some("A"@)
    } else if code == 28 {
        Some("AAAA"@)
    } else if code == 5 {
        Some("CNAME"@)
    } else if code == 15 {
        Some("MX"@)
    } else if code == 2 {
        Some("NS"@)
    } else if code == 16 {
        Some("TXT"@)
    } else if code == 6 {
        Some("SOA"@)
    } else {
        None
    }
}

/// The codes of the record types that the input field offers, in order: A,
/// AAAA, CNAME, MX, NS, TXT and SOA.
pub const RECORD_TYPES: [u16; 7] = [1, 28, 5, 15, 2, 16, 6];

/// The code of the record type `A`.
pub const CODE_A: u16 = 1;

/// Calls `str::to_uppercase`. Claimed: the result depends on the string alone,
/// holds no lower case ASCII letter, and of an ASCII string is the string with
/// each of its lower case letters replaced by its capital.
#[verifier::external_body]
fn to_uppercase(s: &str) -> (r: String)
    ensures
        r@ == uppercase(s@),
        forall|i: int| 0 <= i < r@.len() ==> !is_ascii_lower(#[trigger] r@[i]),
        is_ascii_chars(s@) ==> r@ == s@.map_values(|c: char| ascii_upper(c)),
{
    s.to_uppercase()
}

/// Calls `RecordType::from_str` of hickory and takes the code of the result.
/// Claimed: both depend on the name alone, and the record types that the input
/// field offers are read from their names. The call asserts, in debug builds,
/// that the name holds no lower case ASCII letter.
#[verifier::external_body]
fn record_type_from_str(name: &str) -> (r: Result<u16, hickory_resolver::proto::ProtoError>)
    requires
        forall|i: int| 0 <= i < name@.len() ==> !is_ascii_lower(#[trigger] name@[i]),
    ensures
        r is Ok <==> record_code(name@) is Some,
        r matches Ok(code) ==> record_code(name@) == Some(code),
        offered_code(name@) matches Some(code) ==> r is Ok && r->Ok_0 == code,
{
    RecordType::from_str(name).map(u16::from)
}

/// Calls `RecordType`'s `Display` in hickory on the type with this code.
/// Claimed: the text depends on the code alone, and the record types that the
/// input field offers show the names that they are read from.
#[verifier::external_body]
pub(crate) fn record_type_to_string(code: u16) -> (r: String)
    ensures
        r@ == record_name(code),
        offered_name(code) matches Some(name) ==> r@ == name,
{
    RecordType::from(code).to_string()
}

/// The position of `code` among the offered record types.
pub open spec fn offered_index(code: u16) -> Option<int> {
    if RECORD_TYPES@.contains(code) {
        Some(RECORD_TYPES@.index_of(code))
    } else {
        None
    }
}

/// Looks a record type up by its name, in either case.
pub fn parse_record_type(name: &str) -> (r: Option<u16>)
    ensures
        r == record_code(uppercase(name@)),
        is_ascii_chars(name@) ==> uppercase(name@) == name@.map_values(|c: char| ascii_upper(c)),
        offered_code(uppercase(name@)) matches Some(code) ==> r == Some(code),
{
    let upper = to_uppercase(name);
    match record_type_from_str(upper.as_str()) {
        Ok(code) => Some(code),
        Err(_) => None,
    }
}

/// The position of `code` among the offered record types; that of `A`, the
/// first, when it is not among them.
pub fn record_type_index(code: u16) -> (r: usize)
    ensures
        r < RECORD_TYPES@.len(),
        match offered_index(code) {
            Some(i) => r == i,
            None => r == 0,
        },
{
    let mut i: usize = 0;
    while i < RECORD_TYPES.len()
        invariant
            i <= RECORD_TYPES@.len(),
            forall|j: int| 0 <= j < i ==> RECORD_TYPES@[j] != code,
        decreases RECORD_TYPES@.len() - i,
    {
        if RECORD_TYPES[i] == code {
            assert(RECORD_TYPES@[i as int] == code);
            return i;
        }
        i += 1;
    }
    0
}

/// Every offered record type has a name, and is what that name is read as.
pub proof fn law_offered_names_read_back(i: int)
    requires
        0 <= i < RECORD_TYPES@.len(),
    ensures
        offered_name(RECORD_TYPES@[i]) is Some,
        offered_code(offered_name(RECORD_TYPES@[i])->0) == Some(RECORD_TYPES@[i]),
        offered_index(RECORD_TYPES@[i]) == Some(i),
{
    reveal_strlit("A");
    reveal_strlit("AAAA");
    reveal_strlit("CNAME");
    reveal_strlit("MX");
    reveal_strlit("NS");
    reveal_strlit("TXT");
    reveal_strlit("SOA");
    assert("A"@.len() == 1);
    assert("AAAA"@.len() == 4);
    assert("CNAME"@.len() == 5);
    assert("MX"@.len() == 2 && "MX"@[0] == 'M');
    assert("NS"@.len() == 2 && "NS"@[0] == 'N');
    assert("TXT"@.len() == 3 && "TXT"@[0] == 'T');
    assert("SOA"@.len() == 3 && "SOA"@[0] == 'S');
}

/// The offered record types are A, AAAA, CNAME, MX, NS, TXT and SOA, in this
/// order, with the codes that they have on the wire, and no others.
pub proof fn law_offered_types(name: Seq<char>, code: u16)
    ensures
        RECORD_TYPES@ == seq![1u16, 28u16, 5u16, 15u16, 2u16, 16u16, 6u16],
        CODE_A == 1,
        offered_code("A"@) == Some(1u16) && offered_name(1) == Some("A"@),
        offered_code("AAAA"@) == Some(28u16) && offered_name(28) == Some("AAAA"@),
        offered_code("CNAME"@) == Some(5u16) && offered_name(5) == Some("CNAME"@),
        offered_code("MX"@) == Some(15u16) && offered_name(15) == Some("MX"@),
        offered_code("NS"@) == Some(2u16) && offered_name(2) == Some("NS"@),
        offered_code("TXT"@) == Some(16u16) && offered_name(16) == Some("TXT"@),
        offered_code("SOA"@) == Some(6u16) && offered_name(6) == Some("SOA"@),
        offered_code(name) is Some ==> seq![
            "A"@,
            "AAAA"@,
            "CNAME"@,
            "MX"@,
            "NS"@,
            "TXT"@,
            "SOA"@,
        ].contains(name),
        offered_name(code) is Some <==> RECORD_TYPES@.contains(code),
        offered_index(code) is Some <==> RECORD_TYPES@.contains(code),
        offered_index(code) matches Some(i) ==> 0 <= i < 7 && RECORD_TYPES@[i] == code,
{
    law_offered_names_read_back(0);
    law_offered_names_read_back(1);
    law_offered_names_read_back(2);
    law_offered_names_read_back(3);
    law_offered_names_read_back(4);
    law_offered_names_read_back(5);
    law_offered_names_read_back(6);
    assert(RECORD_TYPES@ =~= seq![1u16, 28u16, 5u16, 15u16, 2u16, 16u16, 6u16]);
    let codes = RECORD_TYPES@;
    assert(codes[0] == 1 && codes[1] == 28 && codes[2] == 5 && codes[3] == 15 && codes[4] == 2
        && codes[5] == 16 && codes[6] == 6);
    let names = seq!["A"@, "AAAA"@, "CNAME"@, "MX"@, "NS"@, "TXT"@, "SOA"@];
    assert(names[0] == "A"@ && names[1] == "AAAA"@ && names[2] == "CNAME"@ && names[3] == "MX"@
        && names[4] == "NS"@ && names[5] == "TXT"@ && names[6] == "SOA"@);
}

/// The small letters of ASCII have their capitals, and no other character
/// changes.
pub proof fn law_upper_case_changes_small_letters(c: char)
    ensures
        forall|i: int|
            0 <= i < 26 && c == #[trigger] "abcdefghijklmnopqrstuvwxyz"@[i] ==> ascii_upper(c)
                == "ABCDEFGHIJKLMNOPQRSTUVWXYZ"@[i],
        !"abcdefghijklmnopqrstuvwxyz"@.contains(c) ==> ascii_upper(c) == c,
{
    reveal_strlit("ABCDEFGHIJKLMNOPQRSTUVWXYZ");
    reveal_strlit("abcdefghijklmnopqrstuvwxyz");
    if 'a' <= c && c <= 'z' {
        assert("abcdefghijklmnopqrstuvwxyz"@[c as int - 'a' as int] == c);
    }
}

} // verus!
