//! The header extractor: finds the sender header of a raw email message
//! and splits its value into a display-name part and an address part with
//! the documented last-space heuristic.

use vstd::prelude::*;
use vstd::string::StrSliceExecFns;
use vstd::string::StringExecFns;
use crate::strutil::find_at;
use crate::strutil::find_char;
use crate::strutil::lemma_split_nl_at;
use crate::strutil::rfind_at;
use crate::strutil::rfind_char;
use crate::strutil::split_nl;
use crate::strutil::str_eq;
use crate::strutil::substr_copy;
use crate::strutil::trim_of;
use crate::strutil::trim_s;

verus! {

/// The value of the first header whose name matches `name` exactly, taken
/// from the lines before the first blank line; `None` once a blank line,
/// a malformed line, or the end of input is reached first.
pub open spec fn header_in_lines(ls: Seq<Seq<char>>, name: Seq<char>) -> Option<Seq<char>>
    decreases ls.len(),
{
    if ls.len() == 0 {
        None
    } else {
        let l = ls[0];
        if l.len() == 0 {
            None
        } else {
            let i = find_at(l, ':');
            if i == l.len() {
                None
            } else if l.take(i) == name {
                Some(trim_s(l.skip(i + 1)))
            } else {
                header_in_lines(ls.drop_first(), name)
            }
        }
    }
}

/// The sender header value of a message text, if one is found before the
/// body or a malformed line.
pub open spec fn sender_spec(t: Seq<char>) -> Option<Seq<char>> {
    header_in_lines(split_nl(t), "From"@)
}

/// Walks the message's header lines and returns the value of the first
/// `From` header, trimmed; `None` if the headers end, go malformed, or run
/// out before one is found.
pub fn read_sender_from_email(email: &str) -> (r: Option<String>)
    ensures
        match r {
            Some(v) => sender_spec(email@) == Some(v@),
            None => sender_spec(email@) is None,
        },
{
    header_of(email)
}

/// Recursive line walk behind `read_sender_from_email`.
fn header_of(s: &str) -> (r: Option<String>)
    ensures
        match r {
            Some(v) => header_in_lines(split_nl(s@), "From"@) == Some(v@),
            None => header_in_lines(split_nl(s@), "From"@) is None,
        },
    decreases s@.len(),
{
    let n = s.unicode_len();
    let i = find_char(s, '\n');
    proof {
        lemma_split_nl_at(s@);
    }
    if i == n {
        proof {
            assert(split_nl(s@) == seq![s@]);
            assert(seq![s@][0] == s@);
            assert(seq![s@].drop_first() =~~= Seq::<Seq<char>>::empty());
            assert(header_in_lines(Seq::<Seq<char>>::empty(), "From"@) is None);
        }
        match header_value(s) {
            HeaderRead::Value(v) => {
                proof {
                    assert(header_in_lines(split_nl(s@), "From"@) == Some(v@));
                }
                Some(v)
            },
            HeaderRead::Other => None,
            HeaderRead::Stop => None,
        }
    } else {
        let line = s.substring_char(0, i);
        let rest = s.substring_char(i + 1, n);
        proof {
            assert(line@ =~= s@.take(i as int));
            assert(rest@ =~= s@.skip(i as int + 1));
            assert(split_nl(s@) == seq![line@] + split_nl(rest@));
            assert((seq![line@] + split_nl(rest@))[0] == line@);
            assert((seq![line@] + split_nl(rest@)).drop_first() =~~= split_nl(rest@));
        }
        match header_value(line) {
            HeaderRead::Value(v) => {
                proof {
                    assert(header_in_lines(split_nl(s@), "From"@) == Some(v@));
                }
                Some(v)
            },
            HeaderRead::Stop => None,
            HeaderRead::Other => header_of(rest),
        }
    }
}

/// What one header line contributes to the search.
enum HeaderRead {
    /// The line is the sender header; its trimmed value.
    Value(String),
    /// A well-formed header line with another name.
    Other,
    /// A blank or malformed line: the search ends with nothing.
    Stop,
}

/// Reads one header line against the sender header name.
fn header_value(line: &str) -> (r: HeaderRead)
    ensures
        match r {
            HeaderRead::Value(v) => line@.len() > 0 && find_at(line@, ':') < line@.len()
                && line@.take(find_at(line@, ':')) == "From"@ && v@ == trim_s(
                line@.skip(find_at(line@, ':') + 1),
            ),
            HeaderRead::Other => line@.len() > 0 && find_at(line@, ':') < line@.len()
                && line@.take(find_at(line@, ':')) != "From"@,
            HeaderRead::Stop => line@.len() == 0 || find_at(line@, ':') == line@.len(),
        },
{
    let n = line.unicode_len();
    if n == 0 {
        return HeaderRead::Stop;
    }
    let i = find_char(line, ':');
    if i == n {
        return HeaderRead::Stop;
    }
    let name = substr_copy(line, 0, i);
    proof {
        assert(name@ =~= line@.take(i as int));
    }
    if str_eq(name.as_str(), "From") {
        let value = substr_copy(line, i + 1, n);
        proof {
            assert(value@ =~= line@.skip(i as int + 1));
        }
        HeaderRead::Value(trim_of(value.as_str()))
    } else {
        HeaderRead::Other
    }
}

/// `s` with one leading `<` and one trailing `>` removed, if present.
pub open spec fn strip_angles(s: Seq<char>) -> Seq<char> {
    let a = if s.len() > 0 && s[0] == '<' {
        s.skip(1)
    } else {
        s
    };
    if a.len() > 0 && a[a.len() - 1] == '>' {
        a.take(a.len() - 1)
    } else {
        a
    }
}

/// The display-name part of a sender header value: the text before the
/// last space, trimmed — absent when the value holds no space.
pub open spec fn display_name_spec(s: Seq<char>) -> Option<Seq<char>> {
    let k = rfind_at(s, ' ');
    if k < 0 {
        None
    } else {
        Some(trim_s(s.take(k)))
    }
}

/// The address part of a sender header value: the text after the last
/// space — the whole value when it holds no space — with one leading `<`
/// and one trailing `>` stripped.
pub open spec fn address_spec(s: Seq<char>) -> Seq<char> {
    let k = rfind_at(s, ' ');
    if k < 0 {
        strip_angles(s)
    } else {
        strip_angles(s.skip(k + 1))
    }
}

/// Splits a sender header value on its last space: the trailing token is
/// the address candidate, stripped of one pair of angle brackets; what
/// stands before it, trimmed, is the display name. A best-effort
/// heuristic, not a full header-grammar parse.
pub fn parse_from_header(s: &String) -> (r: (Option<String>, Option<String>))
    ensures
        match r.0 {
            Some(nm) => display_name_spec(s@) == Some(nm@),
            None => display_name_spec(s@) is None,
        },
        r.1 matches Some(a) && a@ == address_spec(s@),
{
    let n = s.as_str().unicode_len();
    match rfind_char(s.as_str(), ' ') {
        None => (None, Some(strip_angles_of(s.as_str()))),
        Some(k) => {
            let name_part = substr_copy(s.as_str(), 0, k);
            proof {
                assert(name_part@ =~= s@.take(k as int));
            }
            let addr_part = substr_copy(s.as_str(), k + 1, n);
            proof {
                assert(addr_part@ =~= s@.skip(k as int + 1));
            }
            (Some(trim_of(name_part.as_str())), Some(strip_angles_of(addr_part.as_str())))
        },
    }
}

/// Removes one leading `<` and one trailing `>` from `s`, if present.
fn strip_angles_of(s: &str) -> (r: String)
    ensures
        r@ == strip_angles(s@),
{
    let n = s.unicode_len();
    let lo: usize = if n > 0 && s.get_char(0) == '<' {
        1
    } else {
        0
    };
    let hi: usize = if n > lo && s.get_char(n - 1) == '>' {
        n - 1
    } else {
        n
    };
    proof {
        let a = if s@.len() > 0 && s@[0] == '<' {
            s@.skip(1)
        } else {
            s@
        };
        assert(a =~= s@.subrange(lo as int, s@.len() as int));
        if a.len() > 0 && a[a.len() - 1] == '>' {
            assert(strip_angles(s@) =~= s@.subrange(lo as int, hi as int));
        } else {
            assert(strip_angles(s@) =~= s@.subrange(lo as int, hi as int));
        }
    }
    substr_copy(s, lo, hi)
}

} // verus!
