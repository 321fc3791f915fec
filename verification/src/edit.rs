//! The decisions of the edit workflow: which file a query resolves to,
//! and what the file's content after the editor exits means — an
//! all-whitespace file stands for deletion, a distinct outcome rather
//! than an error.

use vstd::prelude::*;
use vstd::string::StrSliceExecFns;
use crate::strutil::is_ws;
use crate::strutil::is_ws_char;
use crate::strutil::ltrim_s;
use crate::strutil::rtrim_s;
use crate::strutil::strs_abs;
use crate::strutil::trim_s;

verus! {

/// Where an edit query leads.
pub enum Resolution {
    /// Exactly one file: edit it.
    Target(String),
    /// Nothing matched: there is no such contact.
    NoMatch,
    /// Several files matched: the query is ambiguous, and every candidate
    /// is listed rather than one silently chosen.
    Ambiguous(Vec<String>),
}

/// Resolves the edit target: a query naming an existing file directly
/// under the contact directory wins without a search; otherwise the
/// query's file matches decide, and only exactly one match is accepted.
pub fn resolve_edit_target(query_is_file: bool, query: &String, found: &Vec<String>) -> (r:
    Resolution)
    ensures
        query_is_file ==> (r matches Resolution::Target(p) && p@ == query@),
        !query_is_file && found@.len() == 0 ==> r is NoMatch,
        !query_is_file && found@.len() == 1 ==> (r matches Resolution::Target(p) && p@
            == found@[0]@),
        !query_is_file && found@.len() > 1 ==> (r matches Resolution::Ambiguous(c) && strs_abs(c@)
            == strs_abs(found@)),
{
    if query_is_file {
        Resolution::Target(query.clone())
    } else if found.len() == 0 {
        Resolution::NoMatch
    } else if found.len() == 1 {
        Resolution::Target(found[0].clone())
    } else {
        let n = found.len();
        let mut c: Vec<String> = Vec::new();
        let mut i: usize = 0;
        while i < n
            invariant
                0 <= i <= n,
                n == found@.len(),
                c@.len() == i,
                forall|j: int| 0 <= j < i ==> (#[trigger] c@[j])@ == found@[j]@,
            decreases n - i,
        {
            c.push(found[i].clone());
            i += 1;
        }
        proof {
            assert(strs_abs(c@) =~= strs_abs(found@));
        }
        Resolution::Ambiguous(c)
    }
}

/// Every character of `s` is whitespace.
pub open spec fn all_ws(s: Seq<char>) -> bool {
    forall|i: int| 0 <= i < s.len() ==> is_ws(#[trigger] s[i])
}

proof fn lemma_ltrim_all(s: Seq<char>)
    ensures
        all_ws(s) ==> ltrim_s(s).len() == 0,
        !all_ws(s) ==> !all_ws(ltrim_s(s)),
    decreases s.len(),
{
    if s.len() > 0 && is_ws(s[0]) {
        let d = s.drop_first();
        lemma_ltrim_all(d);
        if all_ws(s) {
            assert forall|i: int| 0 <= i < d.len() implies is_ws(#[trigger] d[i]) by {
                assert(d[i] == s[i + 1]);
            }
        } else {
            let w = choose|w: int| 0 <= w < s.len() && !is_ws(s[w]);
            assert(d[w - 1] == s[w]);
            assert(!all_ws(d));
        }
    }
}

proof fn lemma_rtrim_all(s: Seq<char>)
    ensures
        all_ws(s) ==> rtrim_s(s).len() == 0,
        !all_ws(s) ==> rtrim_s(s).len() > 0,
    decreases s.len(),
{
    if s.len() > 0 && is_ws(s[s.len() - 1]) {
        let d = s.drop_last();
        lemma_rtrim_all(d);
        if all_ws(s) {
            assert forall|i: int| 0 <= i < d.len() implies is_ws(#[trigger] d[i]) by {
                assert(d[i] == s[i]);
            }
        } else {
            let w = choose|w: int| 0 <= w < s.len() && !is_ws(s[w]);
            assert(d[w] == s[w]);
            assert(!all_ws(d));
        }
    }
}

/// The trimmed text is empty exactly when every character is whitespace.
pub proof fn lemma_trim_empty(s: Seq<char>)
    ensures
        trim_s(s).len() == 0 <==> all_ws(s),
{
    lemma_ltrim_all(s);
    lemma_rtrim_all(ltrim_s(s));
    if all_ws(s) {
        assert(all_ws(ltrim_s(s)));
    }
}

/// What the file left behind by the editor means.
#[derive(PartialEq, Eq, Structural, Debug)]
pub enum EditOutcome {
    /// The file was emptied: the contact is removed.
    Removed,
    /// The file still has content: the contact stays as edited.
    Kept,
}

/// Reads the post-edit content: a file whose trimmed content is empty
/// signals removal; anything else keeps the contact.
pub fn after_edit_outcome(content: &str) -> (r: EditOutcome)
    ensures
        r == EditOutcome::Removed <==> trim_s(content@).len() == 0,
{
    proof {
        lemma_trim_empty(content@);
    }
    let n = content.unicode_len();
    let mut i: usize = 0;
    while i < n
        invariant
            0 <= i <= n,
            n == content@.len(),
            forall|j: int| 0 <= j < i ==> is_ws(#[trigger] content@[j]),
        decreases n - i,
    {
        if !is_ws_char(content.get_char(i)) {
            proof {
                assert(!is_ws(content@[i as int]));
                assert(!all_ws(content@));
                lemma_trim_empty(content@);
            }
            return EditOutcome::Kept;
        }
        i += 1;
    }
    EditOutcome::Removed
}

} // verus!
