//! The index builder: turns decoded contact records into the flat
//! tab-separated index, one line per (contact, address) pair. A record
//! without a full name contributes nothing; a source that fails to decode
//! contributes nothing and is reported, while the scan goes on.

use vstd::prelude::*;
use vstd::string::StrSliceExecFns;
use vstd::string::StringExecFns;
use crate::codec::decode;
use crate::codec::decode_spec;
use crate::record::ContactRecord;
use crate::record::all_vals;
use crate::record::single_val;
use crate::strutil::strs_abs;

verus! {

/// One line of the index: address, name and source path, tab-separated
/// and newline-terminated.
pub open spec fn index_line(email: Seq<char>, name: Seq<char>, path: Seq<char>) -> Seq<char> {
    email + seq!['\t'] + name + seq!['\t'] + path + seq!['\n']
}

/// One index line per address value, in address order.
pub open spec fn emails_lines(vals: Seq<Seq<char>>, name: Seq<char>, path: Seq<char>) -> Seq<char>
    decreases vals.len(),
{
    if vals.len() == 0 {
        Seq::empty()
    } else {
        index_line(vals[0], name, path) + emails_lines(vals.drop_first(), name, path)
    }
}

/// What one record contributes to the index: nothing without a full name,
/// otherwise one line per address.
pub open spec fn record_lines(fields: Seq<(Seq<char>, Seq<char>)>, path: Seq<char>) -> Seq<char> {
    match single_val(fields, "FN"@) {
        None => Seq::empty(),
        Some(name) => emails_lines(all_vals(fields, "EMAIL"@), name, path),
    }
}

/// One contact file handed to the builder: its path and its text.
pub struct ContactSource {
    pub path: String,
    pub content: String,
}

impl ContactSource {
    /// The source as the pair of character sequences the contracts speak of.
    pub open spec fn abs(self) -> (Seq<char>, Seq<char>) {
        (self.path@, self.content@)
    }
}

/// The views of a list of sources.
pub open spec fn sources_abs(v: Seq<ContactSource>) -> Seq<(Seq<char>, Seq<char>)> {
    v.map_values(|s: ContactSource| s.abs())
}

/// What one source contributes to the index.
pub open spec fn entry_lines(e: (Seq<char>, Seq<char>)) -> Seq<char> {
    match decode_spec(e.1) {
        None => Seq::empty(),
        Some(fields) => record_lines(fields, e.0),
    }
}

/// The whole index: the sources' contributions in scan order.
pub open spec fn index_text(entries: Seq<(Seq<char>, Seq<char>)>) -> Seq<char>
    decreases entries.len(),
{
    if entries.len() == 0 {
        Seq::empty()
    } else {
        entry_lines(entries[0]) + index_text(entries.drop_first())
    }
}

/// The paths of the sources that fail to decode, in scan order.
pub open spec fn failed_list(entries: Seq<(Seq<char>, Seq<char>)>) -> Seq<Seq<char>>
    decreases entries.len(),
{
    if entries.len() == 0 {
        Seq::empty()
    } else {
        (if decode_spec(entries[0].1) is None {
            seq![entries[0].0]
        } else {
            Seq::empty()
        }) + failed_list(entries.drop_first())
    }
}

/// Renders the index lines of one decoded record.
pub fn render_record_lines(rec: &ContactRecord, path: &str) -> (r: String)
    ensures
        r@ == record_lines(rec.abs(), path@),
{
    proof {
        reveal_strlit("\t");
        reveal_strlit("\n");
    }
    match rec.single_prop("FN") {
        None => String::new(),
        Some(name) => {
            let emails = rec.all_props("EMAIL");
            let ghost vals = all_vals(rec.abs(), "EMAIL"@);
            let mut out = String::new();
            let n = emails.len();
            let mut i: usize = 0;
            proof {
                assert(strs_abs(emails@) == vals);
                assert(vals.skip(0) =~= vals);
                assert(out@ + emails_lines(vals, name@, path@) =~= emails_lines(
                    vals,
                    name@,
                    path@,
                ));
            }
            while i < n
                invariant
                    0 <= i <= n,
                    n == emails@.len(),
                    strs_abs(emails@) == vals,
                    out@ + emails_lines(vals.skip(i as int), name@, path@) == emails_lines(
                        vals,
                        name@,
                        path@,
                    ),
                decreases n - i,
            {
                let ghost prior = out@;
                proof {
                    reveal_strlit("\t");
                    reveal_strlit("\n");
                    assert(vals.skip(i as int)[0] == vals[i as int]);
                    assert(vals[i as int] == emails@[i as int]@);
                    assert(vals.skip(i as int).drop_first() =~= vals.skip(i as int + 1));
                }
                out.append(emails[i].as_str());
                out.append("\t");
                out.append(name.as_str());
                out.append("\t");
                out.append(path);
                out.append("\n");
                proof {
                    assert(out@ =~= prior + index_line(vals[i as int], name@, path@));
                    assert(out@ + emails_lines(vals.skip(i as int + 1), name@, path@) =~= prior
                        + emails_lines(vals.skip(i as int), name@, path@));
                }
                i += 1;
            }
            proof {
                assert(vals.skip(n as int) =~= Seq::<Seq<char>>::empty());
                assert(out@ + Seq::<char>::empty() =~= out@);
            }
            out
        },
    }
}

/// Builds the index text from the contact sources, in scan order, and
/// collects the paths of the sources that failed to decode. A failing
/// source never stops the build: every other source still contributes.
pub fn build_index_content(entries: &Vec<ContactSource>) -> (r: (String, Vec<String>))
    ensures
        r.0@ == index_text(sources_abs(entries@)),
        strs_abs(r.1@) == failed_list(sources_abs(entries@)),
{
    let ghost all = sources_abs(entries@);
    let mut out = String::new();
    let mut failed: Vec<String> = Vec::new();
    let n = entries.len();
    let mut i: usize = 0;
    proof {
        assert(all.skip(0) =~= all);
        assert(out@ + index_text(all) =~= index_text(all));
        assert(strs_abs(failed@) =~= Seq::<Seq<char>>::empty());
        assert(strs_abs(failed@) + failed_list(all) =~= failed_list(all));
    }
    while i < n
        invariant
            0 <= i <= n,
            n == entries@.len(),
            all == sources_abs(entries@),
            out@ + index_text(all.skip(i as int)) == index_text(all),
            strs_abs(failed@) + failed_list(all.skip(i as int)) == failed_list(all),
        decreases n - i,
    {
        let ghost priorout = out@;
        let ghost priorfail = strs_abs(failed@);
        proof {
            assert(all.skip(i as int)[0] == all[i as int]);
            assert(all[i as int] == entries@[i as int].abs());
            assert(all.skip(i as int).drop_first() =~= all.skip(i as int + 1));
        }
        match decode(entries[i].content.as_str()) {
            Ok(rec) => {
                let lines = render_record_lines(&rec, entries[i].path.as_str());
                out.append(lines.as_str());
                proof {
                    assert(entry_lines(all[i as int]) == record_lines(
                        rec.abs(),
                        entries@[i as int].path@,
                    ));
                    assert(out@ + index_text(all.skip(i as int + 1)) =~= priorout + index_text(
                        all.skip(i as int),
                    ));
                    assert(priorfail + failed_list(all.skip(i as int + 1)) =~= priorfail
                        + failed_list(all.skip(i as int)));
                }
            },
            Err(_) => {
                failed.push(entries[i].path.clone());
                proof {
                    assert(entry_lines(all[i as int]) =~= Seq::<char>::empty());
                    assert(out@ + index_text(all.skip(i as int + 1)) =~= priorout + index_text(
                        all.skip(i as int),
                    ));
                    assert(strs_abs(failed@) =~= priorfail.push(entries@[i as int].path@));
                    assert(strs_abs(failed@) + failed_list(all.skip(i as int + 1)) =~= priorfail
                        + (seq![all[i as int].0] + failed_list(all.skip(i as int + 1))));
                }
            },
        }
        i += 1;
    }
    proof {
        assert(all.skip(n as int) =~= Seq::<(Seq<char>, Seq<char>)>::empty());
        assert(out@ + Seq::<char>::empty() =~= out@);
        assert(strs_abs(failed@) + Seq::<Seq<char>>::empty() =~= strs_abs(failed@));
    }
    (out, failed)
}

/// A source whose text fails to decode contributes no index lines — the
/// index reads as if the source were absent — and its path is reported.
pub proof fn lemma_bad_source_skipped(entries: Seq<(Seq<char>, Seq<char>)>, i: int)
    requires
        0 <= i < entries.len(),
        decode_spec(entries[i].1) is None,
    ensures
        index_text(entries) == index_text(entries.remove(i)),
        failed_list(entries).contains(entries[i].0),
    decreases entries.len(),
{
    if i == 0 {
        assert(entries.remove(0) =~= entries.drop_first());
        assert(entry_lines(entries[0]) == Seq::<char>::empty());
        assert(Seq::<char>::empty() + index_text(entries.drop_first()) =~= index_text(
            entries.drop_first(),
        ));
        assert(failed_list(entries)[0] == entries[0].0);
    } else {
        let d = entries.drop_first();
        assert(d[i - 1] == entries[i]);
        lemma_bad_source_skipped(d, i - 1);
        assert(entries.remove(i)[0] == entries[0]);
        assert(entries.remove(i).drop_first() =~= d.remove(i - 1));
        let c0 = if decode_spec(entries[0].1) is None {
            seq![entries[0].0]
        } else {
            Seq::<Seq<char>>::empty()
        };
        assert(failed_list(entries) == c0 + failed_list(d));
        let w = choose|w: int|
            0 <= w < failed_list(d).len() && failed_list(d)[w] == entries[i].0;
        assert(failed_list(entries)[c0.len() + w] == entries[i].0);
    }
}

} // verus!
