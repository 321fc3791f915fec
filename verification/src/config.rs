//! Configuration lookup: the tool's locations and commands arrive as
//! plain environment entries, and a required one must be present.

use vstd::prelude::*;
use vstd::string::StrSliceExecFns;
use crate::strutil::str_eq;

verus! {

/// One environment entry, as plain values.
pub struct EnvEntry {
    pub key: String,
    pub value: String,
}

impl EnvEntry {
    /// The entry as the pair of character sequences the contracts speak of.
    pub open spec fn abs(self) -> (Seq<char>, Seq<char>) {
        (self.key@, self.value@)
    }
}

/// The views of a list of entries.
pub open spec fn env_abs(v: Seq<EnvEntry>) -> Seq<(Seq<char>, Seq<char>)> {
    v.map_values(|e: EnvEntry| e.abs())
}

/// The value of the first entry whose key is `key`, if any.
pub open spec fn lookup_env(env: Seq<(Seq<char>, Seq<char>)>, key: Seq<char>) -> Option<Seq<char>>
    decreases env.len(),
{
    if env.len() == 0 {
        None
    } else if env[0].0 == key {
        Some(env[0].1)
    } else {
        lookup_env(env.drop_first(), key)
    }
}

/// The value of a required environment entry. A missing required entry
/// stops the tool at its outer boundary, so a caller here must only ask
/// for a key it knows to be present.
pub fn expect_env(env: &Vec<EnvEntry>, key: &str) -> (r: String)
    requires
        lookup_env(env_abs(env@), key@) is Some,
    ensures
        Some(r@) == lookup_env(env_abs(env@), key@),
{
    let ghost all = env_abs(env@);
    let n = env.len();
    let mut i: usize = 0;
    proof {
        assert(all.skip(0) =~= all);
    }
    while i < n
        invariant
            0 <= i <= n,
            n == env@.len(),
            all == env_abs(env@),
            lookup_env(all, key@) == lookup_env(all.skip(i as int), key@),
        decreases n - i,
    {
        proof {
            assert(all.skip(i as int)[0] == all[i as int]);
            assert(all[i as int] == env@[i as int].abs());
            assert(all.skip(i as int).drop_first() =~= all.skip(i as int + 1));
        }
        if str_eq(env[i].key.as_str(), key) {
            return env[i].value.clone();
        }
        i += 1;
    }
    proof {
        assert(all.skip(n as int) =~= Seq::<(Seq<char>, Seq<char>)>::empty());
    }
    vstd::pervasive::unreached()
}

} // verus!
