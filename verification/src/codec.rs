//! The record codec: serializing a contact record to property-list text
//! and parsing such text back. Decoding tolerates blank lines and the
//! structural marker lines, preserves repeated field names in order, and
//! fails only on a non-blank line without a ':' separator. The round-trip
//! law `lemma_round_trip` states that decoding an encoded record recovers
//! exactly its field list.

use vstd::prelude::*;
use vstd::string::StrSliceExecFns;
use vstd::string::StringExecFns;
use crate::strutil::find_at;
use crate::strutil::find_char;
use crate::strutil::lemma_find_at_is;
use crate::strutil::lemma_split_nl_at;
use crate::strutil::lemma_split_nl_line;
use crate::strutil::split_nl;
use crate::strutil::str_eq;
use crate::strutil::substr_copy;
use crate::record::ContactRecord;
use crate::record::Field;
use crate::record::fields_abs;
use crate::record::valid_name;
use crate::record::valid_value;
use crate::record::wf_fields;

verus! {

/// Decoding failure: a non-blank record line without a ':' separator.
#[derive(Debug, PartialEq, Eq, Structural)]
pub enum ParseError {
    MalformedLine,
}

impl ParseError {
    /// A human-readable description of the failure.
    pub fn message(&self) -> String {
        String::from_str("record line without a ':' separator")
    }
}

/// How one line of property-list text reads.
pub enum LineKind {
    /// An empty line, carrying nothing.
    Blank,
    /// A structural marker (`BEGIN:...` or `END:...`), not a field.
    Marker,
    /// A field: the name before the first ':', the value after it.
    FieldLine(Seq<char>, Seq<char>),
    /// A non-blank line without a ':' separator.
    Bad,
}

pub open spec fn line_kind(l: Seq<char>) -> LineKind {
    if l.len() == 0 {
        LineKind::Blank
    } else {
        let i = find_at(l, ':');
        if i == l.len() {
            LineKind::Bad
        } else {
            let name = l.take(i);
            if name == "BEGIN"@ || name == "END"@ {
                LineKind::Marker
            } else {
                LineKind::FieldLine(name, l.skip(i + 1))
            }
        }
    }
}

/// The fields carried by a list of lines, or `None` if some line is bad.
pub open spec fn parse_lines(ls: Seq<Seq<char>>) -> Option<Seq<(Seq<char>, Seq<char>)>>
    decreases ls.len(),
{
    if ls.len() == 0 {
        Some(Seq::empty())
    } else {
        match line_kind(ls[0]) {
            LineKind::Bad => None,
            LineKind::FieldLine(n, v) => match parse_lines(ls.drop_first()) {
                Some(rest) => Some(seq![(n, v)] + rest),
                None => None,
            },
            _ => parse_lines(ls.drop_first()),
        }
    }
}

/// The field list encoded in `t`, or `None` if some line is malformed.
pub open spec fn decode_spec(t: Seq<char>) -> Option<Seq<(Seq<char>, Seq<char>)>> {
    parse_lines(split_nl(t))
}

/// One line of the encoding: `name:value` and a terminating newline.
pub open spec fn field_line(name: Seq<char>, value: Seq<char>) -> Seq<char> {
    name + seq![':'] + value + seq!['\n']
}

pub open spec fn fields_text(fields: Seq<(Seq<char>, Seq<char>)>) -> Seq<char>
    decreases fields.len(),
{
    if fields.len() == 0 {
        Seq::empty()
    } else {
        field_line(fields[0].0, fields[0].1) + fields_text(fields.drop_first())
    }
}

/// The property-list text of a record: one line per field, between the
/// fixed record type markers.
pub open spec fn encode_spec(fields: Seq<(Seq<char>, Seq<char>)>) -> Seq<char> {
    field_line("BEGIN"@, "VCARD"@) + fields_text(fields) + field_line("END"@, "VCARD"@)
}

/// Facts about the two marker lines: no newline inside, the ':' sits right
/// after the marker name, and splitting there recovers the name.
proof fn lemma_marker_lines()
    ensures
        !("BEGIN"@ + seq![':'] + "VCARD"@).contains('\n'),
        !("END"@ + seq![':'] + "VCARD"@).contains('\n'),
        line_kind("BEGIN"@ + seq![':'] + "VCARD"@) is Marker,
        line_kind("END"@ + seq![':'] + "VCARD"@) is Marker,
{
    reveal_strlit("BEGIN");
    reveal_strlit("END");
    reveal_strlit("VCARD");
    let b = "BEGIN"@ + seq![':'] + "VCARD"@;
    let e = "END"@ + seq![':'] + "VCARD"@;
    assert forall|j: int| 0 <= j < "BEGIN"@.len() implies "BEGIN"@[j] != ':' && "BEGIN"@[j]
        != '\n' by {
        assert("BEGIN"@[0] == 'B');
        assert("BEGIN"@[1] == 'E');
        assert("BEGIN"@[2] == 'G');
        assert("BEGIN"@[3] == 'I');
        assert("BEGIN"@[4] == 'N');
    }
    assert forall|j: int| 0 <= j < "END"@.len() implies "END"@[j] != ':' && "END"@[j] != '\n' by {
        assert("END"@[0] == 'E');
        assert("END"@[1] == 'N');
        assert("END"@[2] == 'D');
    }
    assert forall|j: int| 0 <= j < "VCARD"@.len() implies "VCARD"@[j] != '\n' by {
        assert("VCARD"@[0] == 'V');
        assert("VCARD"@[1] == 'C');
        assert("VCARD"@[2] == 'A');
        assert("VCARD"@[3] == 'R');
        assert("VCARD"@[4] == 'D');
    }
    assert forall|j: int| 0 <= j < b.len() implies b[j] != '\n' by {
        if j < "BEGIN"@.len() {
            assert(b[j] == "BEGIN"@[j]);
        } else if j == "BEGIN"@.len() {
            assert(b[j] == ':');
        } else {
            assert(b[j] == "VCARD"@[j - "BEGIN"@.len() - 1]);
        }
    }
    assert forall|j: int| 0 <= j < e.len() implies e[j] != '\n' by {
        if j < "END"@.len() {
            assert(e[j] == "END"@[j]);
        } else if j == "END"@.len() {
            assert(e[j] == ':');
        } else {
            assert(e[j] == "VCARD"@[j - "END"@.len() - 1]);
        }
    }
    assert forall|j: int| 0 <= j < 5 implies b[j] != ':' by {
        assert(b[j] == "BEGIN"@[j]);
    }
    assert(b[5] == ':');
    lemma_find_at_is(b, ':', 5);
    assert(b.take(5) =~= "BEGIN"@);
    assert forall|j: int| 0 <= j < 3 implies e[j] != ':' by {
        assert(e[j] == "END"@[j]);
    }
    assert(e[3] == ':');
    lemma_find_at_is(e, ':', 3);
    assert(e.take(3) =~= "END"@);
}

/// A well-formed field line holds no newline and reads back as its field.
proof fn lemma_field_line_reads(name: Seq<char>, value: Seq<char>)
    requires
        valid_name(name),
        valid_value(value),
    ensures
        !(name + seq![':'] + value).contains('\n'),
        line_kind(name + seq![':'] + value) == LineKind::FieldLine(name, value),
{
    let l = name + seq![':'] + value;
    assert forall|j: int| 0 <= j < l.len() implies l[j] != '\n' by {
        if j < name.len() {
            assert(l[j] == name[j]);
            if name[j] == '\n' {
                assert(name.contains('\n'));
            }
        } else if j == name.len() {
            assert(l[j] == ':');
        } else {
            assert(l[j] == value[j - name.len() - 1]);
            if value[j - name.len() - 1] == '\n' {
                assert(value.contains('\n'));
            }
        }
    }
    assert forall|j: int| 0 <= j < name.len() implies l[j] != ':' by {
        assert(l[j] == name[j]);
        if name[j] == ':' {
            assert(name.contains(':'));
        }
    }
    assert(l[name.len() as int] == ':');
    lemma_find_at_is(l, ':', name.len() as int);
    assert(l.take(name.len() as int) =~= name);
    assert(l.skip(name.len() as int + 1) =~= value);
}

/// Parsing the text of a well-formed field list followed by the end marker
/// yields exactly that field list.
proof fn lemma_fields_round(fields: Seq<(Seq<char>, Seq<char>)>)
    requires
        wf_fields(fields),
    ensures
        parse_lines(split_nl(fields_text(fields) + field_line("END"@, "VCARD"@))) == Some(fields),
    decreases fields.len(),
{
    lemma_marker_lines();
    let eline = "END"@ + seq![':'] + "VCARD"@;
    let t = fields_text(fields) + field_line("END"@, "VCARD"@);
    if fields.len() == 0 {
        assert(t =~= eline + seq!['\n'] + Seq::<char>::empty());
        lemma_split_nl_line(eline, Seq::<char>::empty());
        let empty_line = Seq::<char>::empty();
        let ls = seq![eline] + split_nl(Seq::<char>::empty());
        assert(split_nl(Seq::<char>::empty()) =~~= seq![empty_line]);
        assert(ls =~~= seq![eline, empty_line]);
        assert(ls[0] == eline);
        assert(ls.drop_first() =~~= seq![empty_line]);
        assert(seq![empty_line][0] == empty_line);
        assert(line_kind(empty_line) is Blank);
        assert(seq![empty_line].drop_first() =~~= Seq::<Seq<char>>::empty());
        assert(parse_lines(Seq::<Seq<char>>::empty()) == Some(
            Seq::<(Seq<char>, Seq<char>)>::empty(),
        ));
        assert(parse_lines(seq![empty_line]) == Some(Seq::<(Seq<char>, Seq<char>)>::empty()));
        assert(parse_lines(ls) == Some(Seq::<(Seq<char>, Seq<char>)>::empty()));
        assert(fields =~= Seq::<(Seq<char>, Seq<char>)>::empty());
    } else {
        let name = fields[0].0;
        let value = fields[0].1;
        let rest = fields.drop_first();
        assert(valid_name(name) && valid_value(value));
        assert forall|i: int|
            0 <= i < rest.len() implies valid_name(#[trigger] rest[i].0) && valid_value(
            rest[i].1,
        ) by {
            assert(rest[i] == fields[i + 1]);
        }
        lemma_fields_round(rest);
        let line = name + seq![':'] + value;
        let tail = fields_text(rest) + field_line("END"@, "VCARD"@);
        assert(t =~= line + seq!['\n'] + tail);
        lemma_field_line_reads(name, value);
        lemma_split_nl_line(line, tail);
        let ls = seq![line] + split_nl(tail);
        assert(ls[0] == line);
        assert(ls.drop_first() =~~= split_nl(tail));
        assert(parse_lines(ls) == Some(seq![(name, value)] + fields.drop_first()));
        assert(seq![(name, value)] + fields.drop_first() =~= fields);
    }
}

/// The round-trip law: for every well-formed field list, decoding the
/// encoding yields exactly the same field list.
pub proof fn lemma_round_trip(fields: Seq<(Seq<char>, Seq<char>)>)
    requires
        wf_fields(fields),
    ensures
        decode_spec(encode_spec(fields)) == Some(fields),
{
    lemma_marker_lines();
    let bline = "BEGIN"@ + seq![':'] + "VCARD"@;
    let tail = fields_text(fields) + field_line("END"@, "VCARD"@);
    assert(encode_spec(fields) =~= bline + seq!['\n'] + tail);
    lemma_split_nl_line(bline, tail);
    lemma_fields_round(fields);
    let ls = seq![bline] + split_nl(tail);
    assert(ls[0] == bline);
    assert(ls.drop_first() =~~= split_nl(tail));
}

/// Serializes a record as property-list text.
pub fn encode(rec: &ContactRecord) -> (r: String)
    ensures
        r@ == encode_spec(rec.abs()),
{
    proof {
        reveal_strlit("BEGIN:VCARD\n");
        reveal_strlit("END:VCARD\n");
        reveal_strlit("BEGIN");
        reveal_strlit("END");
        reveal_strlit("VCARD");
        reveal_strlit(":");
        reveal_strlit("\n");
    }
    let mut out = String::new();
    out.append("BEGIN:VCARD\n");
    proof {
        assert(out@ =~= field_line("BEGIN"@, "VCARD"@));
    }
    let n = rec.fields.len();
    let mut i: usize = 0;
    proof {
        assert(rec.abs().skip(0) =~= rec.abs());
        assert(out@ + fields_text(rec.abs()) =~= field_line("BEGIN"@, "VCARD"@) + fields_text(
            rec.abs(),
        ));
    }
    while i < n
        invariant
            0 <= i <= n,
            n == rec.fields@.len(),
            out@ + fields_text(rec.abs().skip(i as int)) == field_line("BEGIN"@, "VCARD"@)
                + fields_text(rec.abs()),
        decreases n - i,
    {
        let ghost prior = out@;
        proof {
            reveal_strlit(":");
            reveal_strlit("\n");
            assert(rec.abs().skip(i as int)[0] == rec.abs()[i as int]);
            assert(rec.abs().skip(i as int).drop_first() =~= rec.abs().skip(i as int + 1));
        }
        out.append(rec.fields[i].name.as_str());
        out.append(":");
        out.append(rec.fields[i].value.as_str());
        out.append("\n");
        proof {
            assert(out@ =~= prior + field_line(rec.abs()[i as int].0, rec.abs()[i as int].1));
            assert(out@ + fields_text(rec.abs().skip(i as int + 1)) =~= prior + fields_text(
                rec.abs().skip(i as int),
            ));
        }
        i += 1;
    }
    out.append("END:VCARD\n");
    proof {
        assert(rec.abs().skip(n as int) =~= Seq::<(Seq<char>, Seq<char>)>::empty());
        assert(out@ =~= encode_spec(rec.abs()));
    }
    out
}

/// Reads one line: `Ok(None)` for a blank or marker line, `Ok(Some(..))`
/// for a field line, `Err(..)` for a line without a ':'.
fn parse_one_line(line: &str) -> (r: Result<Option<Field>, ParseError>)
    ensures
        match r {
            Ok(None) => line_kind(line@) is Blank || line_kind(line@) is Marker,
            Ok(Some(f)) => line_kind(line@) == LineKind::FieldLine(f.name@, f.value@),
            Err(_) => line_kind(line@) is Bad,
        },
{
    let n = line.unicode_len();
    if n == 0 {
        return Ok(None);
    }
    let i = find_char(line, ':');
    if i == n {
        return Err(ParseError::MalformedLine);
    }
    let name = substr_copy(line, 0, i);
    proof {
        assert(name@ =~= line@.take(i as int));
    }
    if str_eq(name.as_str(), "BEGIN") || str_eq(name.as_str(), "END") {
        return Ok(None);
    }
    let value = substr_copy(line, i + 1, n);
    proof {
        assert(value@ =~= line@.skip(i as int + 1));
    }
    Ok(Some(Field { name, value }))
}

/// Reads all lines of `s`, collecting the fields in order.
fn decode_lines(s: &str) -> (r: Result<Vec<Field>, ParseError>)
    ensures
        match r {
            Ok(fields) => parse_lines(split_nl(s@)) == Some(fields_abs(fields@)),
            Err(_) => parse_lines(split_nl(s@)) is None,
        },
    decreases s@.len(),
{
    let n = s.unicode_len();
    let i = find_char(s, '\n');
    proof {
        lemma_split_nl_at(s@);
    }
    if i == n {
        proof {
            assert(split_nl(s@) == seq![s@]);
            assert(seq![s@][0] == s@);
            assert(seq![s@].drop_first() =~~= Seq::<Seq<char>>::empty());
            assert(parse_lines(Seq::<Seq<char>>::empty()) == Some(
                Seq::<(Seq<char>, Seq<char>)>::empty(),
            ));
        }
        match parse_one_line(s) {
            Ok(None) => {
                let out: Vec<Field> = Vec::new();
                proof {
                    assert(fields_abs(out@) =~= Seq::<(Seq<char>, Seq<char>)>::empty());
                    assert(parse_lines(split_nl(s@)) == Some(
                        Seq::<(Seq<char>, Seq<char>)>::empty(),
                    ));
                }
                Ok(out)
            },
            Ok(Some(f)) => {
                let ghost fa = f.abs();
                proof {
                    assert(parse_lines(split_nl(s@)) == Some(seq![fa] + Seq::<
                        (Seq<char>, Seq<char>),
                    >::empty()));
                }
                let mut out: Vec<Field> = Vec::new();
                out.push(f);
                proof {
                    assert(fields_abs(out@) =~= seq![fa] + Seq::<
                        (Seq<char>, Seq<char>),
                    >::empty());
                }
                Ok(out)
            },
            Err(e) => Err(e),
        }
    } else {
        let line = s.substring_char(0, i);
        let rest = s.substring_char(i + 1, n);
        proof {
            assert(line@ =~= s@.take(i as int));
            assert(rest@ =~= s@.skip(i as int + 1));
            assert(split_nl(s@) == seq![line@] + split_nl(rest@));
            assert((seq![line@] + split_nl(rest@))[0] == line@);
            assert((seq![line@] + split_nl(rest@)).drop_first() =~~= split_nl(rest@));
        }
        let head = parse_one_line(line);
        match head {
            Err(e) => Err(e),
            Ok(opt) => {
                match decode_lines(rest) {
                    Err(e) => Err(e),
                    Ok(mut fields) => {
                        match opt {
                            None => Ok(fields),
                            Some(f) => {
                                let ghost fa = f.abs();
                                let ghost restabs = fields_abs(fields@);
                                proof {
                                    assert(parse_lines(split_nl(s@)) == Some(seq![fa] + restabs));
                                }
                                fields.insert(0, f);
                                proof {
                                    assert(fields_abs(fields@) =~= seq![fa] + restabs);
                                }
                                Ok(fields)
                            },
                        }
                    },
                }
            },
        }
    }
}

/// Parses property-list text into a record, preserving repeated field
/// names as an ordered sequence. Fails exactly when some non-blank line
/// has no ':' separator.
pub fn decode(text: &str) -> (r: Result<ContactRecord, ParseError>)
    ensures
        match r {
            Ok(rec) => decode_spec(text@) == Some(rec.abs()),
            Err(_) => decode_spec(text@) is None,
        },
{
    match decode_lines(text) {
        Ok(fields) => Ok(ContactRecord { fields }),
        Err(e) => Err(e),
    }
}

} // verus!
