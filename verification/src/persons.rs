//! The person-centred routes' typed parameter records and the response
//! bodies their handlers format.

use vstd::prelude::*;
use crate::binder::{FieldSource, FieldType, ParamValue, SchemaField};

verus! {

/// The typed query record of the person query route: a required name,
/// an optional location and a required age.
#[derive(Clone, Debug, PartialEq, Eq)]
pub struct PersonQuery {
    pub name: String,
    pub location: Option<String>,
    pub age: u16,
}

/// The typed path captures of the person comments route.
#[derive(Clone, Debug, PartialEq, Eq)]
pub struct PersonParams {
    pub id: String,
    pub comment_id: String,
}

/// The view of an optional string.
pub open spec fn opt_str_view(o: Option<String>) -> Option<Seq<char>> {
    match o {
        Some(s) => Some(s@),
        None => None,
    }
}

/// The lowercase hexadecimal digit for a value below sixteen.
pub open spec fn hex_digit(d: int) -> char {
    if d < 10 {
        ((48 + d) as u8) as char
    } else {
        ((87 + d) as u8) as char
    }
}

/// The lowercase hexadecimal form of a value below 256, without
/// leading zeros.
pub open spec fn hex_byte(n: int) -> Seq<char> {
    if n < 16 {
        seq![hex_digit(n)]
    } else {
        seq![hex_digit(n / 16), hex_digit(n % 16)]
    }
}

/// One character as it stands inside a quoted body, following the
/// debug form: `\0`, `\t`, `\r`, `\n`, `\\` and `\"` for their
/// characters, a `\u{..}` lowercase-hex escape for the other ASCII
/// control characters and DEL, and everything else verbatim. This
/// coincides with the debug formatting of a string for all ASCII text
/// and for printable characters generally; a non-printable character
/// beyond ASCII passes through verbatim here.
pub open spec fn escaped_char(c: char) -> Seq<char> {
    if c == '\0' {
        seq!['\\', '0']
    } else if c == '\t' {
        seq!['\\', 't']
    } else if c == '\r' {
        seq!['\\', 'r']
    } else if c == '\n' {
        seq!['\\', 'n']
    } else if c == '\\' || c == '"' {
        seq!['\\', c]
    } else if (c as u32) < 32 || c as u32 == 127 {
        seq!['\\', 'u', '{'] + hex_byte((c as u32) as int) + seq!['}']
    } else {
        seq![c]
    }
}

/// A string with its backslashes and double quotes escaped.
pub open spec fn escaped(s: Seq<char>) -> Seq<char>
    decreases s.len(),
{
    if s.len() == 0 {
        Seq::empty()
    } else {
        escaped(s.drop_last()) + escaped_char(s.last())
    }
}

/// The quoted form of a string: double quotes around the escaped text.
pub open spec fn debug_quoted(s: Seq<char>) -> Seq<char> {
    seq!['"'] + escaped(s) + seq!['"']
}

/// The quoted form of an optional string: `Some(...)` around the
/// quoted value, or `None`.
pub open spec fn opt_str_quoted(o: Option<String>) -> Seq<char> {
    match o {
        Some(l) => "Some("@ + debug_quoted(l@) + ")"@,
        None => "None"@,
    }
}

fn hex_digit_str(d: u8) -> (r: &'static str)
    requires
        d < 16,
    ensures
        r@ == seq![hex_digit(d as int)],
{
    let r: &'static str = match d {
        0 => "0",
        1 => "1",
        2 => "2",
        3 => "3",
        4 => "4",
        5 => "5",
        6 => "6",
        7 => "7",
        8 => "8",
        9 => "9",
        10 => "a",
        11 => "b",
        12 => "c",
        13 => "d",
        14 => "e",
        _ => "f",
    };
    proof {
        reveal_strlit("0");
        reveal_strlit("1");
        reveal_strlit("2");
        reveal_strlit("3");
        reveal_strlit("4");
        reveal_strlit("5");
        reveal_strlit("6");
        reveal_strlit("7");
        reveal_strlit("8");
        reveal_strlit("9");
        reveal_strlit("a");
        reveal_strlit("b");
        reveal_strlit("c");
        reveal_strlit("d");
        reveal_strlit("e");
        reveal_strlit("f");
        assert(r@ =~= seq![hex_digit(d as int)]);
    }
    r
}

/// Builds the quoted form of a string.
pub fn debug_quote(s: &str) -> (r: String)
    ensures
        r@ == debug_quoted(s@),
{
    proof {
        reveal_strlit("\"");
    }
    let mut out = "\"".to_owned();
    proof {
        assert(out@ =~= seq!['"'] + escaped(s@.take(0)));
    }
    let n = s.unicode_len();
    let mut i: usize = 0;
    while i < n
        invariant
            i <= n,
            n == s@.len(),
            out@ == seq!['"'] + escaped(s@.take(i as int)),
        decreases n - i,
    {
        proof {
            reveal_strlit("\\0");
            reveal_strlit("\\t");
            reveal_strlit("\\r");
            reveal_strlit("\\n");
            reveal_strlit("\\\\");
            reveal_strlit("\\\"");
            reveal_strlit("\\u{");
            reveal_strlit("}");
        }
        let c = s.get_char(i);
        let u = c as u32;
        if c == '\0' {
            out.append("\\0");
        } else if c == '\t' {
            out.append("\\t");
        } else if c == '\r' {
            out.append("\\r");
        } else if c == '\n' {
            out.append("\\n");
        } else if c == '\\' {
            out.append("\\\\");
        } else if c == '"' {
            out.append("\\\"");
        } else if u < 32 || u == 127 {
            out.append("\\u{");
            if u < 16 {
                out.append(hex_digit_str(u as u8));
            } else {
                out.append(hex_digit_str((u / 16) as u8));
                out.append(hex_digit_str((u % 16) as u8));
            }
            out.append("}");
        } else {
            let piece = s.substring_char(i, i + 1);
            proof {
                assert(piece@ =~= seq![s@[i as int]]);
            }
            out.append(piece);
        }
        proof {
            assert(s@.take(i + 1).drop_last() =~= s@.take(i as int));
            assert(s@.take(i + 1).last() == s@[i as int]);
            assert(out@ =~= seq!['"'] + escaped(s@.take(i + 1)));
        }
        i += 1;
    }
    out.append("\"");
    proof {
        assert(s@.take(n as int) =~= s@);
        assert(out@ =~= debug_quoted(s@));
    }
    out
}

/// The width in bytes of one character in UTF-8.
pub open spec fn utf8_width(c: char) -> int {
    if (c as u32) < 0x80 {
        1
    } else if (c as u32) < 0x800 {
        2
    } else if (c as u32) < 0x10000 {
        3
    } else {
        4
    }
}

/// The length in bytes of a character sequence encoded as UTF-8: what
/// `String::len` reports for the text.
pub open spec fn utf8_len(s: Seq<char>) -> int
    decreases s.len(),
{
    if s.len() == 0 {
        0
    } else {
        utf8_len(s.drop_last()) + utf8_width(s.last())
    }
}

/// Reading further characters never shrinks the byte length.
proof fn lemma_utf8_len_mono(s: Seq<char>, i: int, j: int)
    requires
        0 <= i <= j <= s.len(),
    ensures
        utf8_len(s.take(i)) <= utf8_len(s.take(j)),
    decreases j - i,
{
    if i < j {
        lemma_utf8_len_mono(s, i, j - 1);
        assert(s.take(j).drop_last() =~= s.take(j - 1));
    }
}

/// Whether the text is longer than five bytes in UTF-8: the greeting
/// handlers' length rule.
fn byte_len_over_5(s: &str) -> (r: bool)
    ensures
        r == (utf8_len(s@) > 5),
{
    let n = s.unicode_len();
    let mut acc: usize = 0;
    let mut i: usize = 0;
    while i < n
        invariant
            i <= n,
            n == s@.len(),
            acc <= 5,
            acc == utf8_len(s@.take(i as int)),
        decreases n - i,
    {
        let c = s.get_char(i);
        let u = c as u32;
        let w: usize = if u < 0x80 {
            1
        } else if u < 0x800 {
            2
        } else if u < 0x10000 {
            3
        } else {
            4
        };
        proof {
            assert(s@.take(i + 1).drop_last() =~= s@.take(i as int));
            assert(s@.take(i + 1).last() == s@[i as int]);
            assert(w == utf8_width(s@[i as int]));
        }
        if acc + w > 5 {
            proof {
                lemma_utf8_len_mono(s@, i + 1, n as int);
                assert(s@.take(n as int) =~= s@);
            }
            return true;
        }
        acc = acc + w;
        i += 1;
    }
    proof {
        assert(s@.take(n as int) =~= s@);
    }
    false
}

/// The decimal digit character for a value below ten.
pub open spec fn dec_digit(d: int) -> char {
    ((48 + d) as u8) as char
}

/// The decimal representation of a non-negative integer, most
/// significant digit first.
pub open spec fn dec_str(n: int) -> Seq<char>
    recommends
        n >= 0,
    decreases n,
{
    if n < 10 {
        seq![dec_digit(n)]
    } else {
        dec_str(n / 10) + seq![dec_digit(n % 10)]
    }
}

fn digit_str(d: u8) -> (r: &'static str)
    requires
        d < 10,
    ensures
        r@ == seq![dec_digit(d as int)],
{
    let r: &'static str = match d {
        0 => "0",
        1 => "1",
        2 => "2",
        3 => "3",
        4 => "4",
        5 => "5",
        6 => "6",
        7 => "7",
        8 => "8",
        _ => "9",
    };
    proof {
        reveal_strlit("0");
        reveal_strlit("1");
        reveal_strlit("2");
        reveal_strlit("3");
        reveal_strlit("4");
        reveal_strlit("5");
        reveal_strlit("6");
        reveal_strlit("7");
        reveal_strlit("8");
        reveal_strlit("9");
        assert(r@ =~= seq![dec_digit(d as int)]);
    }
    r
}

/// Formats a number in decimal.
pub fn u16_to_string(n: u16) -> (r: String)
    ensures
        r@ == dec_str(n as int),
    decreases n,
{
    if n < 10 {
        digit_str(n as u8).to_owned()
    } else {
        let rest = u16_to_string(n / 10);
        let r = rest.concat(digit_str((n % 10) as u8));
        proof {
            assert(r@ =~= dec_str(n as int));
        }
        r
    }
}

impl PersonQuery {
    /// The query schema of the person query route.
    pub fn schema() -> (r: Vec<SchemaField>)
        ensures
            r@.len() == 3,
            r@[0].name@ == "name"@ && r@[0].source is Query && r@[0].ty is Text,
            r@[1].name@ == "location"@ && r@[1].source is Query && r@[1].ty is OptionalText,
            r@[2].name@ == "age"@ && r@[2].source is Query && r@[2].ty is Integer,
    {
        let mut v: Vec<SchemaField> = Vec::new();
        v.push(
            SchemaField {
                name: "name".to_owned(),
                source: FieldSource::Query,
                ty: FieldType::Text,
            },
        );
        v.push(
            SchemaField {
                name: "location".to_owned(),
                source: FieldSource::Query,
                ty: FieldType::OptionalText,
            },
        );
        v.push(
            SchemaField {
                name: "age".to_owned(),
                source: FieldSource::Query,
                ty: FieldType::Integer,
            },
        );
        v
    }

    /// Reads the typed record that binding the person query schema
    /// yields: succeeds exactly when the record has the three fields
    /// in schema order with an age that fits.
    pub fn from_record(rec: &Vec<(String, ParamValue)>) -> (r: Option<PersonQuery>)
        ensures
            r is Some <==> rec@.len() == 3 && rec@[0].1 is Text && rec@[1].1 is OptionalText
                && rec@[2].1 is Integer && 0 <= rec@[2].1->Integer_0 <= u16::MAX,
            r matches Some(p) ==> p.name@ == rec@[0].1->Text_0@ && opt_str_view(p.location)
                == opt_str_view(rec@[1].1->OptionalText_0) && p.age as int == rec@[2].1->Integer_0,
    {
        if rec.len() != 3 {
            return None;
        }
        let name = match &rec[0].1 {
            ParamValue::Text(s) => s.clone(),
            _ => {
                return None;
            },
        };
        let location = match &rec[1].1 {
            ParamValue::OptionalText(o) => match o {
                Some(s) => Some(s.clone()),
                None => None,
            },
            _ => {
                return None;
            },
        };
        let age_raw = match &rec[2].1 {
            ParamValue::Integer(v) => *v,
            _ => {
                return None;
            },
        };
        if age_raw < 0 || age_raw > 65535 {
            return None;
        }
        Some(PersonQuery { name, location, age: age_raw as u16 })
    }

    /// The person query handler's response body: the name verbatim,
    /// the optional location in its quoted form, the age in decimal.
    pub fn body(&self) -> (r: String)
        ensures
            r@ == "route query params are, name"@ + self.name@ + " "@ + opt_str_quoted(
                self.location,
            ) + " "@ + dec_str(self.age as int),
    {
        let mut out = "route query params are, name".to_owned();
        out.append(self.name.as_str());
        out.append(" ");
        match &self.location {
            Some(l) => {
                let quoted = debug_quote(l.as_str());
                out.append("Some(");
                out.append(quoted.as_str());
                out.append(")");
            },
            None => out.append("None"),
        }
        out.append(" ");
        let age = u16_to_string(self.age);
        out.append(age.as_str());
        proof {
            assert(out@ =~= "route query params are, name"@ + self.name@ + " "@ + opt_str_quoted(
                self.location,
            ) + " "@ + dec_str(self.age as int));
        }
        out
    }
}

impl PersonParams {
    /// Reads the two captures of the person comments pattern, in
    /// pattern order: the person id, then the comment id.
    pub fn from_captures(caps: &Vec<(String, String)>) -> (r: Option<PersonParams>)
        ensures
            r is Some <==> caps@.len() == 2,
            r matches Some(p) ==> p.id@ == caps@[0].1@ && p.comment_id@ == caps@[1].1@,
    {
        if caps.len() != 2 {
            return None;
        }
        Some(PersonParams { id: caps[0].1.clone(), comment_id: caps[1].1.clone() })
    }

    /// The person comments handler's response body.
    pub fn body(&self) -> (r: String)
        ensures
            r@ == "route params are, "@ + self.id@ + " "@ + self.comment_id@,
    {
        let mut out = "route params are, ".to_owned();
        out.append(self.id.as_str());
        out.append(" ");
        out.append(self.comment_id.as_str());
        out
    }
}

/// The greeting handler's decision and body: a name longer than five
/// bytes in UTF-8 is greeted with success, quoted; a shorter one is
/// turned away as a bad request.
pub fn greet_body(name: &str) -> (r: (u16, String))
    ensures
        utf8_len(name@) > 5 ==> r.0 == 200 && r.1@ == "Hello "@ + debug_quoted(name@),
        utf8_len(name@) <= 5 ==> r.0 == 400 && r.1@ == "Your name is to short!"@,
{
    if byte_len_over_5(name) {
        (200, "Hello ".to_owned().concat(debug_quote(name).as_str()))
    } else {
        (400, "Your name is to short!".to_owned())
    }
}

/// The posting variant of the greeting handler: the same length rule,
/// a different success body.
pub fn post_greet_body(name: &str) -> (r: (u16, String))
    ensures
        utf8_len(name@) > 5 ==> r.0 == 200 && r.1@ == "You posted this name "@ + debug_quoted(
            name@,
        ),
        utf8_len(name@) <= 5 ==> r.0 == 400 && r.1@ == "Your name is to short!"@,
{
    if byte_len_over_5(name) {
        (200, "You posted this name ".to_owned().concat(debug_quote(name).as_str()))
    } else {
        (400, "Your name is to short!".to_owned())
    }
}

/// The guarded route's body, reachable only past its header guard.
pub fn guarded_body() -> (r: String)
    ensures
        r@ == "From guarded , you are authorized!"@,
{
    "From guarded , you are authorized!".to_owned()
}

} // verus!
