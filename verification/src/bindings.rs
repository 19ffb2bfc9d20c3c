//! The variable table read at evaluation time: names bound to numbers.
//!
//! Viewed as a map from name (sequence of characters) to mathematical
//! value; an entry added later shadows an older one of the same name.

use vstd::prelude::*;
use crate::num::{Num, Rat};

verus! {

/// The map that a sequence of entries denotes: the earliest entry of a
/// name wins.
pub open spec fn map_of(s: Seq<(String, Num)>) -> Map<Seq<char>, Rat>
    decreases s.len(),
{
    if s.len() == 0 {
        Map::empty()
    } else {
        map_of(s.skip(1)).insert(s[0].0@, s[0].1@)
    }
}

/// Every value of the table is a well-formed number.
pub open spec fn env_wf(m: Map<Seq<char>, Rat>) -> bool {
    forall|k: Seq<char>| m.contains_key(k) ==> (#[trigger] m[k]).d > 0
}

spec fn find(m: Map<Seq<char>, Rat>, k: Seq<char>) -> Option<Rat> {
    if m.contains_key(k) {
        Some(m[k])
    } else {
        None
    }
}

/// A read-only table of variable bindings.
pub struct Bindings {
    entries: Vec<(String, Num)>,
}

impl View for Bindings {
    type V = Map<Seq<char>, Rat>;

    closed spec fn view(&self) -> Map<Seq<char>, Rat> {
        map_of(self.entries@)
    }
}

/// Character-for-character string comparison.
pub fn str_eq(a: &str, b: &str) -> (r: bool)
    ensures
        r == (a@ == b@),
{
    let la = a.unicode_len();
    let lb = b.unicode_len();
    if la != lb {
        proof {
            assert(a@ != b@);
        }
        return false;
    }
    let mut i: usize = 0;
    while i < la
        invariant
            la == a@.len() == b@.len(),
            i <= la,
            forall|j: int| 0 <= j < i ==> a@[j] == b@[j],
        decreases la - i,
    {
        if a.get_char(i) != b.get_char(i) {
            return false;
        }
        i = i + 1;
    }
    proof {
        assert(a@ =~= b@);
    }
    true
}

impl Bindings {
    /// Well-formed: every bound value has a positive denominator.
    pub open spec fn wf(&self) -> bool {
        env_wf(self@)
    }

    /// An empty table: no name is bound.
    pub fn new() -> (r: Bindings)
        ensures
            r@ == Map::<Seq<char>, Rat>::empty(),
            r.wf(),
    {
        Bindings { entries: Vec::new() }
    }

    /// Binds `name` to `value`, shadowing any earlier binding of `name`.
    pub fn insert(&mut self, name: String, value: Num)
        requires
            value.wf(),
        ensures
            final(self)@ == old(self)@.insert(name@, value@),
            old(self).wf() ==> final(self).wf(),
    {
        let ghost old_entries = self.entries@;
        self.entries.insert(0, (name, value));
        proof {
            assert(self.entries@.skip(1) =~= old_entries);
        }
    }

    /// Looks the name up: `Some` exactly when the table binds it, with
    /// the value of its most recent binding.
    pub fn get(&self, name: &str) -> (r: Option<Num>)
        ensures
            match r {
                Some(v) => self@.contains_key(name@) && self@[name@] == v@,
                None => !self@.contains_key(name@),
            },
    {
        let n = self.entries.len();
        proof {
            assert(self.entries@.skip(0) =~= self.entries@);
        }
        let mut i: usize = 0;
        while i < n
            invariant
                n == self.entries@.len(),
                i <= n,
                find(map_of(self.entries@), name@) == find(
                    map_of(self.entries@.skip(i as int)),
                    name@,
                ),
            decreases n - i,
        {
            let ghost pre = self.entries@.skip(i as int);
            proof {
                assert(pre[0] == self.entries@[i as int]);
                assert(pre.skip(1) =~= self.entries@.skip(i as int + 1));
            }
            if str_eq(self.entries[i].0.as_str(), name) {
                return Some(self.entries[i].1);
            }
            i = i + 1;
        }
        proof {
            assert(self.entries@.skip(n as int) =~= Seq::<(String, Num)>::empty());
        }
        None
    }
}

} // verus!
