//! Model of the dynamically-typed values that the host runtime hands across
//! the boundary: an object is a list of named entries, each holding a text,
//! an integer, a flag, a list of texts, or a nested object.

use vstd::prelude::*;

verus! {

/// A dynamically-typed value supplied by the host runtime.
pub enum HostValue {
    /// A text value.
    Text(String),
    /// An integer value.
    Int(i64),
    /// A boolean value.
    Flag(bool),
    /// A sequence of text values.
    TextList(Vec<String>),
    /// A nested object.
    Object(HostObject),
}

/// One named entry of a host object.
pub struct HostEntry {
    pub key: String,
    pub value: HostValue,
}

/// A dynamically-typed host object: a list of named entries.
/// Lookup takes the first entry whose key matches.
pub struct HostObject {
    pub entries: Vec<HostEntry>,
}

/// First entry of `entries` whose key reads `key`, if any.
pub open spec fn lookup_entries(entries: Seq<HostEntry>, key: Seq<char>) -> Option<HostValue>
    decreases entries.len(),
{
    if entries.len() == 0 {
        None
    } else if entries[0].key@ == key {
        Some(entries[0].value)
    } else {
        lookup_entries(entries.skip(1), key)
    }
}

impl HostObject {
    /// The value stored under `key`, if the object has such an entry.
    pub open spec fn spec_lookup(self, key: Seq<char>) -> Option<HostValue> {
        lookup_entries(self.entries@, key)
    }

    /// Looks a key up in the object.
    pub fn lookup<'a>(&'a self, key: &str) -> (r: Option<&'a HostValue>)
        ensures
            match r {
                Some(v) => self.spec_lookup(key@) == Some(*v),
                None => self.spec_lookup(key@) is None,
            },
    {
        let owned_key: String = key.to_owned();
        let n = self.entries.len();
        let mut i: usize = 0;
        proof {
            assert(self.entries@.skip(0) =~= self.entries@);
        }
        while i < n
            invariant
                n == self.entries@.len(),
                i <= n,
                lookup_entries(self.entries@.skip(i as int), key@) == self.spec_lookup(key@),
                owned_key@ == key@,
            decreases n - i,
        {
            proof {
                assert(self.entries@.skip(i as int)[0] == self.entries@[i as int]);
            }
            if self.entries[i].key == owned_key {
                return Some(&self.entries[i].value);
            }
            proof {
                assert(self.entries@.skip(i as int).skip(1) =~= self.entries@.skip(i + 1));
            }
            i += 1;
        }
        None
    }
}

} // verus!
