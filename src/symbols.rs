//! Interning of identifiers: each distinct spelling gets one key, and the
//! spelling stays available for diagnostics.
use vstd::prelude::*;
use vstd::string::StringExecFns;
use crate::time::Id;

verus! {

/// The spellings of the interned identifiers; an identifier's key is its
/// position here.
pub struct Symbols {
    pub names: Vec<String>,
}

impl Symbols {
    /// No spelling appears twice.
    pub open spec fn wf(&self) -> bool {
        forall|i: int, j: int| 0 <= i < j < self.names.len() ==> self.names@[i]@ != self.names@[j]@
    }

    pub fn new() -> (r: Symbols)
        ensures
            r.wf(),
            r.names@.len() == 0,
    {
        Symbols { names: Vec::new() }
    }

    /// The identifier spelled `name`: the one interned before, or a new key.
    pub fn intern(&mut self, name: &str) -> (r: Id)
        requires
            old(self).wf(),
            old(self).names.len() < u64::MAX,
        ensures
            final(self).wf(),
            r.key < final(self).names.len(),
            final(self).names@[r.key as int]@ == name@,
            (exists|i: int| 0 <= i < old(self).names.len() && old(self).names@[i]@ == name@) ==> final(self).names@
                == old(self).names@,
            !(exists|i: int| 0 <= i < old(self).names.len() && old(self).names@[i]@ == name@) ==> (
            final(self).names@.len() == old(self).names@.len() + 1 && final(self).names@.drop_last()
                == old(self).names@ && r.key == old(self).names.len()),
    {
        let owned = String::from_str(name);
        let mut i: usize = 0;
        while i < self.names.len()
            invariant
                i <= self.names.len(),
                self.names@ == old(self).names@,
                self.wf(),
                owned@ == name@,
                forall|k: int| 0 <= k < i ==> self.names@[k]@ != name@,
            decreases self.names.len() - i,
        {
            if self.names[i] == owned {
                return Id { key: i as u64 };
            }
            i += 1;
        }
        let key = self.names.len() as u64;
        self.names.push(owned);
        assert(self.names@.drop_last() =~= old(self).names@);
        Id { key }
    }

    /// The spelling of `id`, if it was interned here.
    pub fn name(&self, id: Id) -> (r: Option<&String>)
        ensures
            id.key < self.names.len() ==> r == Some(&self.names@[id.key as int]),
            id.key >= self.names.len() ==> r is None,
    {
        if id.key < self.names.len() as u64 {
            Some(&self.names[id.key as usize])
        } else {
            None
        }
    }
}

} // verus!
