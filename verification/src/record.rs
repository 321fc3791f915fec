//! Contact records: a property list of named, possibly repeated text
//! fields, kept in order, together with the field lookups the index
//! builder needs and the constructor used when a contact is added.

use vstd::prelude::*;
use vstd::string::StrSliceExecFns;
use vstd::string::StringExecFns;
use crate::strutil::str_eq;
use crate::strutil::strs_abs;

verus! {

/// One named field of a contact record.
pub struct Field {
    pub name: String,
    pub value: String,
}

impl Field {
    /// The field as the pair of character sequences the contracts speak of.
    pub open spec fn abs(self) -> (Seq<char>, Seq<char>) {
        (self.name@, self.value@)
    }
}

/// The field list of a vector of fields, as pairs of character sequences.
pub open spec fn fields_abs(v: Seq<Field>) -> Seq<(Seq<char>, Seq<char>)> {
    v.map_values(|f: Field| f.abs())
}

/// A field name the codec encodes losslessly: non-empty, free of ':' and
/// of newlines, and distinct from the structural marker names.
pub open spec fn valid_name(n: Seq<char>) -> bool {
    &&& n.len() > 0
    &&& !n.contains(':')
    &&& !n.contains('\n')
    &&& n != "BEGIN"@
    &&& n != "END"@
}

/// A field value the codec encodes losslessly: free of newlines.
pub open spec fn valid_value(v: Seq<char>) -> bool {
    !v.contains('\n')
}

/// Every field of the list has an encodable name and value.
pub open spec fn wf_fields(fields: Seq<(Seq<char>, Seq<char>)>) -> bool {
    forall|i: int|
        0 <= i < fields.len() ==> valid_name(#[trigger] fields[i].0) && valid_value(fields[i].1)
}

/// First value among the fields named `name`, if any.
pub open spec fn single_val(
    fields: Seq<(Seq<char>, Seq<char>)>,
    name: Seq<char>,
) -> Option<Seq<char>>
    decreases fields.len(),
{
    if fields.len() == 0 {
        None
    } else if fields[0].0 == name {
        Some(fields[0].1)
    } else {
        single_val(fields.drop_first(), name)
    }
}

/// All values of the fields named `name`, in field order.
pub open spec fn all_vals(fields: Seq<(Seq<char>, Seq<char>)>, name: Seq<char>) -> Seq<Seq<char>>
    decreases fields.len(),
{
    if fields.len() == 0 {
        Seq::empty()
    } else if fields[0].0 == name {
        seq![fields[0].1] + all_vals(fields.drop_first(), name)
    } else {
        all_vals(fields.drop_first(), name)
    }
}

/// One contact's structured data. A record need not have a full name or
/// any address: absence is valid and is handled by the callers.
pub struct ContactRecord {
    pub fields: Vec<Field>,
}

impl ContactRecord {
    /// The record as the field list its contracts speak of.
    pub open spec fn abs(self) -> Seq<(Seq<char>, Seq<char>)> {
        fields_abs(self.fields@)
    }

    /// All fields are encodable.
    pub open spec fn wf(self) -> bool {
        wf_fields(self.abs())
    }

    /// An empty record.
    pub fn new() -> (r: ContactRecord)
        ensures
            r.abs() == Seq::<(Seq<char>, Seq<char>)>::empty(),
    {
        let r = ContactRecord { fields: Vec::new() };
        proof {
            assert(r.abs() =~= Seq::<(Seq<char>, Seq<char>)>::empty());
        }
        r
    }

    /// Appends one field, keeping the order of earlier ones.
    pub fn push_field(&mut self, name: String, value: String)
        ensures
            final(self).abs() == old(self).abs().push((name@, value@)),
    {
        let ghost prior = self.abs();
        let ghost nv = (name@, value@);
        self.fields.push(Field { name, value });
        proof {
            assert(self.abs() =~= prior.push(nv));
        }
    }

    /// First value of the fields named `name`; `None` when the record has
    /// no such field.
    pub fn single_prop(&self, name: &str) -> (r: Option<String>)
        ensures
            match r {
                Some(v) => single_val(self.abs(), name@) == Some(v@),
                None => single_val(self.abs(), name@) is None,
            },
    {
        let n = self.fields.len();
        let mut i: usize = 0;
        proof {
            assert(self.abs().skip(0) =~= self.abs());
        }
        while i < n
            invariant
                0 <= i <= n,
                n == self.fields@.len(),
                single_val(self.abs(), name@) == single_val(self.abs().skip(i as int), name@),
            decreases n - i,
        {
            proof {
                assert(self.abs().skip(i as int)[0] == self.abs()[i as int]);
                assert(self.abs().skip(i as int).drop_first() =~= self.abs().skip(i as int + 1));
            }
            if str_eq(self.fields[i].name.as_str(), name) {
                return Some(self.fields[i].value.clone());
            }
            i += 1;
        }
        None
    }

    /// All values of the fields named `name`, in field order.
    pub fn all_props(&self, name: &str) -> (r: Vec<String>)
        ensures
            strs_abs(r@) == all_vals(self.abs(), name@),
    {
        let n = self.fields.len();
        let mut out: Vec<String> = Vec::new();
        let mut i: usize = 0;
        proof {
            assert(strs_abs(out@) =~= Seq::<Seq<char>>::empty());
            assert(self.abs().skip(0) =~= self.abs());
        }
        while i < n
            invariant
                0 <= i <= n,
                n == self.fields@.len(),
                strs_abs(out@) + all_vals(self.abs().skip(i as int), name@) == all_vals(
                    self.abs(),
                    name@,
                ),
            decreases n - i,
        {
            let ghost prior = strs_abs(out@);
            proof {
                assert(self.abs().skip(i as int)[0] == self.abs()[i as int]);
                assert(self.abs().skip(i as int).drop_first() =~= self.abs().skip(i as int + 1));
            }
            if str_eq(self.fields[i].name.as_str(), name) {
                out.push(self.fields[i].value.clone());
                proof {
                    assert(strs_abs(out@) =~= prior.push(self.abs()[i as int].1));
                    assert(prior.push(self.abs()[i as int].1) =~= prior + seq![
                        self.abs()[i as int].1,
                    ]);
                    assert(prior + seq![self.abs()[i as int].1] + all_vals(
                        self.abs().skip(i as int + 1),
                        name@,
                    ) =~= prior + (seq![self.abs()[i as int].1] + all_vals(
                        self.abs().skip(i as int + 1),
                        name@,
                    )));
                }
            }
            i += 1;
        }
        proof {
            assert(self.abs().skip(n as int) =~= Seq::<(Seq<char>, Seq<char>)>::empty());
            assert(strs_abs(out@) + Seq::<Seq<char>>::empty() =~= strs_abs(out@));
        }
        out
    }
}

/// The view of an optional borrowed string.
pub open spec fn opt_str_view(o: Option<&str>) -> Option<Seq<char>> {
    match o {
        Some(s) => Some(s@),
        None => None,
    }
}

/// The field list of a freshly generated contact: the full name if one was
/// found, the address if one was found, and always the unique identifier.
pub open spec fn contact_fields(
    uid: Seq<char>,
    fullname: Option<Seq<char>>,
    email: Option<Seq<char>>,
) -> Seq<(Seq<char>, Seq<char>)> {
    (match fullname {
        Some(f) => seq![("FN"@, f)],
        None => Seq::<(Seq<char>, Seq<char>)>::empty(),
    }) + (match email {
        Some(e) => seq![("EMAIL"@, e)],
        None => Seq::<(Seq<char>, Seq<char>)>::empty(),
    }) + seq![("UID"@, uid)]
}

/// The standard field names of a generated contact are encodable.
proof fn lemma_std_names_valid()
    ensures
        valid_name("FN"@),
        valid_name("EMAIL"@),
        valid_name("UID"@),
{
    reveal_strlit("FN");
    reveal_strlit("EMAIL");
    reveal_strlit("UID");
    reveal_strlit("BEGIN");
    reveal_strlit("END");
    assert forall|j: int| 0 <= j < "FN"@.len() implies "FN"@[j] != ':' && "FN"@[j] != '\n' by {
        assert("FN"@[0] == 'F');
        assert("FN"@[1] == 'N');
    }
    assert forall|j: int| 0 <= j < "EMAIL"@.len() implies "EMAIL"@[j] != ':' && "EMAIL"@[j]
        != '\n' by {
        assert("EMAIL"@[0] == 'E');
        assert("EMAIL"@[1] == 'M');
        assert("EMAIL"@[2] == 'A');
        assert("EMAIL"@[3] == 'I');
        assert("EMAIL"@[4] == 'L');
    }
    assert forall|j: int| 0 <= j < "UID"@.len() implies "UID"@[j] != ':' && "UID"@[j] != '\n' by {
        assert("UID"@[0] == 'U');
        assert("UID"@[1] == 'I');
        assert("UID"@[2] == 'D');
    }
    assert(!"FN"@.contains(':') && !"FN"@.contains('\n'));
    assert(!"EMAIL"@.contains(':') && !"EMAIL"@.contains('\n'));
    assert(!"UID"@.contains(':') && !"UID"@.contains('\n'));
    assert("EMAIL"@[0] != "BEGIN"@[0] && "EMAIL"@.len() != "END"@.len());
    assert("UID"@[0] != "END"@[0] && "UID"@.len() != "BEGIN"@.len());
}

/// Builds the record for a new contact. Either the name or the address may
/// be absent; the identifier is always recorded.
pub fn generate_contact(uid: String, fullname: Option<&str>, email: Option<&str>) -> (r:
    ContactRecord)
    requires
        valid_value(uid@),
        fullname matches Some(f) ==> valid_value(f@),
        email matches Some(e) ==> valid_value(e@),
    ensures
        r.abs() == contact_fields(uid@, opt_str_view(fullname), opt_str_view(email)),
        r.wf(),
{
    let ghost uidv = uid@;
    proof {
        lemma_std_names_valid();
    }
    let mut rec = ContactRecord::new();
    match fullname {
        Some(f) => rec.push_field(String::from_str("FN"), String::from_str(f)),
        None => (),
    }
    match email {
        Some(e) => rec.push_field(String::from_str("EMAIL"), String::from_str(e)),
        None => (),
    }
    rec.push_field(String::from_str("UID"), uid);
    proof {
        assert(rec.abs() =~= contact_fields(uidv, opt_str_view(fullname), opt_str_view(email)));
    }
    rec
}

} // verus!
