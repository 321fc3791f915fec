//! The query engine's parsing side: filter output is split into lines,
//! each non-empty line is read back as an index row of up to three
//! tab-separated fields (missing trailing fields default to empty, never
//! an error), and three projections select what each output form shows.

use vstd::prelude::*;
use vstd::string::StrSliceExecFns;
use vstd::string::StringExecFns;
use crate::strutil::find_at;
use crate::strutil::find_char;
use crate::strutil::lemma_split_nl_at;
use crate::strutil::split_nl;
use crate::strutil::strs_abs;
use crate::strutil::substr_copy;

verus! {

/// The three fields of one index row: address, name, file path. Splitting
/// stops at the third field; anything after a third tab is dropped.
pub open spec fn item_fields(l: Seq<char>) -> (Seq<char>, Seq<char>, Seq<char>) {
    let i = find_at(l, '\t');
    if i == l.len() {
        (l, Seq::<char>::empty(), Seq::<char>::empty())
    } else {
        let rest = l.skip(i + 1);
        let j = find_at(rest, '\t');
        if j == rest.len() {
            (l.take(i), rest, Seq::<char>::empty())
        } else {
            let rest2 = rest.skip(j + 1);
            (l.take(i), rest.take(j), rest2.take(find_at(rest2, '\t')))
        }
    }
}

/// One parsed row of filter output.
pub struct IndexItem {
    pub email: String,
    pub name: String,
    pub filepath: String,
}

impl IndexItem {
    /// The row as the triple of character sequences the contracts speak of.
    pub open spec fn abs(self) -> (Seq<char>, Seq<char>, Seq<char>) {
        (self.email@, self.name@, self.filepath@)
    }

    /// Parses one line into a row: up to three tab-separated fields in
    /// order; missing trailing fields are empty strings.
    pub fn new(line: String) -> (r: IndexItem)
        ensures
            r.abs() == item_fields(line@),
    {
        let s = line.as_str();
        let n = s.unicode_len();
        let i = find_char(s, '\t');
        if i == n {
            let email = substr_copy(s, 0, n);
            proof {
                assert(email@ =~= line@);
            }
            IndexItem { email, name: String::new(), filepath: String::new() }
        } else {
            let email = substr_copy(s, 0, i);
            let rest = s.substring_char(i + 1, n);
            proof {
                assert(email@ =~= line@.take(i as int));
                assert(rest@ =~= line@.skip(i as int + 1));
            }
            let m = rest.unicode_len();
            let j = find_char(rest, '\t');
            if j == m {
                let name = substr_copy(rest, 0, m);
                proof {
                    assert(name@ =~= rest@);
                }
                IndexItem { email, name, filepath: String::new() }
            } else {
                let name = substr_copy(rest, 0, j);
                let rest2 = rest.substring_char(j + 1, m);
                proof {
                    assert(name@ =~= rest@.take(j as int));
                    assert(rest2@ =~= rest@.skip(j as int + 1));
                }
                let k = find_char(rest2, '\t');
                let filepath = substr_copy(rest2, 0, k);
                proof {
                    assert(filepath@ =~= rest2@.take(find_at(rest2@, '\t')));
                }
                IndexItem { email, name, filepath }
            }
        }
    }
}

/// The non-empty lines of a list, in order.
pub open spec fn keep_nonempty(ls: Seq<Seq<char>>) -> Seq<Seq<char>>
    decreases ls.len(),
{
    if ls.len() == 0 {
        Seq::empty()
    } else {
        (if ls[0].len() > 0 {
            seq![ls[0]]
        } else {
            Seq::<Seq<char>>::empty()
        }) + keep_nonempty(ls.drop_first())
    }
}

/// The parsed rows of one query, taken line by line from the back of the
/// captured filter output. Empty lines are dropped; rows therefore come
/// out in reverse output order, a choice no consumer depends on.
pub struct IndexIterator {
    pub linebuffer: Vec<String>,
}

impl IndexIterator {
    /// The remaining lines, oldest first.
    pub open spec fn abs(self) -> Seq<Seq<char>> {
        strs_abs(self.linebuffer@)
    }

    /// Splits captured filter output into its non-empty lines. An empty
    /// output — a filter that matched nothing — yields no lines and is
    /// not an error.
    pub fn new(output: &String) -> (r: IndexIterator)
        ensures
            r.abs() == keep_nonempty(split_nl(output@)),
    {
        IndexIterator { linebuffer: nonempty_lines(output.as_str()) }
    }

    /// Takes the next line from the back of the buffer and parses it.
    pub fn next(&mut self) -> (r: Option<IndexItem>)
        ensures
            old(self).abs().len() == 0 ==> r is None && final(self).abs() == old(self).abs(),
            old(self).abs().len() > 0 ==> final(self).abs() == old(self).abs().drop_last() && (
            r matches Some(it) && it.abs() == item_fields(old(self).abs().last())),
    {
        let ghost prior = strs_abs(self.linebuffer@);
        match self.linebuffer.pop() {
            Some(line) => {
                proof {
                    assert(strs_abs(self.linebuffer@) =~= prior.drop_last());
                    assert(line@ == prior.last());
                }
                Some(IndexItem::new(line))
            },
            None => {
                proof {
                    assert(strs_abs(self.linebuffer@) =~= prior);
                }
                None
            },
        }
    }
}

/// The non-empty lines of `s`, in order.
fn nonempty_lines(s: &str) -> (r: Vec<String>)
    ensures
        strs_abs(r@) == keep_nonempty(split_nl(s@)),
    decreases s@.len(),
{
    let n = s.unicode_len();
    let i = find_char(s, '\n');
    proof {
        lemma_split_nl_at(s@);
    }
    if i == n {
        proof {
            assert(split_nl(s@) == seq![s@]);
            assert(seq![s@][0] == s@);
            assert(seq![s@].drop_first() =~~= Seq::<Seq<char>>::empty());
            assert(keep_nonempty(Seq::<Seq<char>>::empty()) == Seq::<Seq<char>>::empty());
            assert(keep_nonempty(split_nl(s@)) == (if s@.len() > 0 {
                seq![s@]
            } else {
                Seq::<Seq<char>>::empty()
            }) + Seq::<Seq<char>>::empty());
        }
        let mut out: Vec<String> = Vec::new();
        if n > 0 {
            out.push(substr_copy(s, 0, n));
            proof {
                assert(out@[0]@ =~= s@);
                assert(strs_abs(out@) =~= seq![s@] + Seq::<Seq<char>>::empty());
            }
        } else {
            proof {
                assert(strs_abs(out@) =~= Seq::<Seq<char>>::empty());
                assert(strs_abs(out@) =~= keep_nonempty(split_nl(s@)));
            }
        }
        out
    } else {
        let line = s.substring_char(0, i);
        let rest = s.substring_char(i + 1, n);
        proof {
            assert(line@ =~= s@.take(i as int));
            assert(rest@ =~= s@.skip(i as int + 1));
            assert(split_nl(s@) == seq![line@] + split_nl(rest@));
            assert((seq![line@] + split_nl(rest@))[0] == line@);
            assert((seq![line@] + split_nl(rest@)).drop_first() =~~= split_nl(rest@));
            assert(keep_nonempty(split_nl(s@)) == (if line@.len() > 0 {
                seq![line@]
            } else {
                Seq::<Seq<char>>::empty()
            }) + keep_nonempty(split_nl(rest@)));
        }
        let mut out = nonempty_lines(rest);
        let ghost restabs = strs_abs(out@);
        if line.unicode_len() > 0 {
            let owned = substr_copy(line, 0, line.unicode_len());
            proof {
                assert(owned@ =~= line@);
            }
            out.insert(0, owned);
            proof {
                assert(strs_abs(out@) =~= seq![line@] + restabs);
            }
        } else {
            proof {
                assert(Seq::<Seq<char>>::empty() + restabs =~= restabs);
            }
        }
        out
    }
}

/// The views of a list of rows.
pub open spec fn items_abs(v: Seq<IndexItem>) -> Seq<(Seq<char>, Seq<char>, Seq<char>)> {
    v.map_values(|it: IndexItem| it.abs())
}

/// The full-triple projection: rows with a non-empty address and name, as
/// tab-separated lines.
pub open spec fn mutt_sel(items: Seq<(Seq<char>, Seq<char>, Seq<char>)>) -> Seq<Seq<char>>
    decreases items.len(),
{
    if items.len() == 0 {
        Seq::empty()
    } else {
        (if items[0].0.len() > 0 && items[0].1.len() > 0 {
            seq![items[0].0 + seq!['\t'] + items[0].1 + seq!['\t'] + items[0].2]
        } else {
            Seq::<Seq<char>>::empty()
        }) + mutt_sel(items.drop_first())
    }
}

/// The filepath-only projection: rows with a non-empty file path.
pub open spec fn file_sel(items: Seq<(Seq<char>, Seq<char>, Seq<char>)>) -> Seq<Seq<char>>
    decreases items.len(),
{
    if items.len() == 0 {
        Seq::empty()
    } else {
        (if items[0].2.len() > 0 {
            seq![items[0].2]
        } else {
            Seq::<Seq<char>>::empty()
        }) + file_sel(items.drop_first())
    }
}

/// The `name <address>` projection: rows with a non-empty name and address.
pub open spec fn email_sel(items: Seq<(Seq<char>, Seq<char>, Seq<char>)>) -> Seq<Seq<char>>
    decreases items.len(),
{
    if items.len() == 0 {
        Seq::empty()
    } else {
        (if items[0].0.len() > 0 && items[0].1.len() > 0 {
            seq![items[0].1 + seq![' ', '<'] + items[0].0 + seq!['>']]
        } else {
            Seq::<Seq<char>>::empty()
        }) + email_sel(items.drop_first())
    }
}

/// Renders the full-triple projection of the rows, skipping rows that lack
/// an address or a name.
pub fn mutt_lines(items: &Vec<IndexItem>) -> (r: Vec<String>)
    ensures
        strs_abs(r@) == mutt_sel(items_abs(items@)),
{
    proof {
        reveal_strlit("\t");
    }
    let ghost all = items_abs(items@);
    let mut out: Vec<String> = Vec::new();
    let n = items.len();
    let mut i: usize = 0;
    proof {
        assert(all.skip(0) =~= all);
        assert(strs_abs(out@) =~= Seq::<Seq<char>>::empty());
        assert(strs_abs(out@) + mutt_sel(all) =~= mutt_sel(all));
    }
    while i < n
        invariant
            0 <= i <= n,
            n == items@.len(),
            all == items_abs(items@),
            strs_abs(out@) + mutt_sel(all.skip(i as int)) == mutt_sel(all),
        decreases n - i,
    {
        let ghost prior = strs_abs(out@);
        proof {
            reveal_strlit("\t");
            assert(all.skip(i as int)[0] == all[i as int]);
            assert(all[i as int] == items@[i as int].abs());
            assert(all.skip(i as int).drop_first() =~= all.skip(i as int + 1));
        }
        if items[i].email.unicode_len() > 0 && items[i].name.unicode_len() > 0 {
            let mut line = String::new();
            line.append(items[i].email.as_str());
            line.append("\t");
            line.append(items[i].name.as_str());
            line.append("\t");
            line.append(items[i].filepath.as_str());
            proof {
                assert(line@ =~= all[i as int].0 + seq!['\t'] + all[i as int].1 + seq!['\t']
                    + all[i as int].2);
            }
            out.push(line);
            proof {
                assert(strs_abs(out@) =~= prior.push(line@));
                assert(strs_abs(out@) + mutt_sel(all.skip(i as int + 1)) =~= prior + mutt_sel(
                    all.skip(i as int),
                ));
            }
        } else {
            proof {
                assert(strs_abs(out@) + mutt_sel(all.skip(i as int + 1)) =~= prior + mutt_sel(
                    all.skip(i as int),
                ));
            }
        }
        i += 1;
    }
    proof {
        assert(all.skip(n as int) =~= Seq::<(Seq<char>, Seq<char>, Seq<char>)>::empty());
        assert(strs_abs(out@) + Seq::<Seq<char>>::empty() =~= strs_abs(out@));
    }
    out
}

/// Renders the filepath-only projection, skipping rows without a path.
pub fn file_lines(items: &Vec<IndexItem>) -> (r: Vec<String>)
    ensures
        strs_abs(r@) == file_sel(items_abs(items@)),
{
    let ghost all = items_abs(items@);
    let mut out: Vec<String> = Vec::new();
    let n = items.len();
    let mut i: usize = 0;
    proof {
        assert(all.skip(0) =~= all);
        assert(strs_abs(out@) =~= Seq::<Seq<char>>::empty());
        assert(strs_abs(out@) + file_sel(all) =~= file_sel(all));
    }
    while i < n
        invariant
            0 <= i <= n,
            n == items@.len(),
            all == items_abs(items@),
            strs_abs(out@) + file_sel(all.skip(i as int)) == file_sel(all),
        decreases n - i,
    {
        let ghost prior = strs_abs(out@);
        proof {
            assert(all.skip(i as int)[0] == all[i as int]);
            assert(all[i as int] == items@[i as int].abs());
            assert(all.skip(i as int).drop_first() =~= all.skip(i as int + 1));
        }
        if items[i].filepath.unicode_len() > 0 {
            out.push(items[i].filepath.clone());
            proof {
                assert(strs_abs(out@) =~= prior.push(all[i as int].2));
                assert(strs_abs(out@) + file_sel(all.skip(i as int + 1)) =~= prior + file_sel(
                    all.skip(i as int),
                ));
            }
        } else {
            proof {
                assert(strs_abs(out@) + file_sel(all.skip(i as int + 1)) =~= prior + file_sel(
                    all.skip(i as int),
                ));
            }
        }
        i += 1;
    }
    proof {
        assert(all.skip(n as int) =~= Seq::<(Seq<char>, Seq<char>, Seq<char>)>::empty());
        assert(strs_abs(out@) + Seq::<Seq<char>>::empty() =~= strs_abs(out@));
    }
    out
}

/// Renders the `name <address>` projection, skipping rows that lack an
/// address or a name.
pub fn email_lines(items: &Vec<IndexItem>) -> (r: Vec<String>)
    ensures
        strs_abs(r@) == email_sel(items_abs(items@)),
{
    proof {
        reveal_strlit(" <");
        reveal_strlit(">");
    }
    let ghost all = items_abs(items@);
    let mut out: Vec<String> = Vec::new();
    let n = items.len();
    let mut i: usize = 0;
    proof {
        assert(all.skip(0) =~= all);
        assert(strs_abs(out@) =~= Seq::<Seq<char>>::empty());
        assert(strs_abs(out@) + email_sel(all) =~= email_sel(all));
    }
    while i < n
        invariant
            0 <= i <= n,
            n == items@.len(),
            all == items_abs(items@),
            strs_abs(out@) + email_sel(all.skip(i as int)) == email_sel(all),
        decreases n - i,
    {
        let ghost prior = strs_abs(out@);
        proof {
            reveal_strlit(" <");
            reveal_strlit(">");
            assert(all.skip(i as int)[0] == all[i as int]);
            assert(all[i as int] == items@[i as int].abs());
            assert(all.skip(i as int).drop_first() =~= all.skip(i as int + 1));
        }
        if items[i].email.unicode_len() > 0 && items[i].name.unicode_len() > 0 {
            let mut line = String::new();
            line.append(items[i].name.as_str());
            line.append(" <");
            line.append(items[i].email.as_str());
            line.append(">");
            proof {
                assert(line@ =~= all[i as int].1 + seq![' ', '<'] + all[i as int].0 + seq!['>']);
            }
            out.push(line);
            proof {
                assert(strs_abs(out@) =~= prior.push(line@));
                assert(strs_abs(out@) + email_sel(all.skip(i as int + 1)) =~= prior + email_sel(
                    all.skip(i as int),
                ));
            }
        } else {
            proof {
                assert(strs_abs(out@) + email_sel(all.skip(i as int + 1)) =~= prior + email_sel(
                    all.skip(i as int),
                ));
            }
        }
        i += 1;
    }
    proof {
        assert(all.skip(n as int) =~= Seq::<(Seq<char>, Seq<char>, Seq<char>)>::empty());
        assert(strs_abs(out@) + Seq::<Seq<char>>::empty() =~= strs_abs(out@));
    }
    out
}

} // verus!
