//! Events: the keyed inputs a ruleset is evaluated against. An event maps
//! field names to values; it is supplied per evaluation call and never
//! mutated by the engine.

use vstd::prelude::*;
use crate::value::{Value, ValueModel};

verus! {

/// An event: an ordered list of `(field name, value)` entries. When a name
/// occurs more than once, the earliest entry is the one a lookup finds.
pub struct Event {
    pub entries: Vec<(String, Value)>,
}

/// The first value bound to `name` in `fields`, if any.
pub open spec fn lookup(fields: Seq<(Seq<char>, ValueModel)>, name: Seq<char>) -> Option<
    ValueModel,
>
    decreases fields.len(),
{
    if fields.len() == 0 {
        None
    } else if fields[0].0 == name {
        Some(fields[0].1)
    } else {
        lookup(fields.drop_first(), name)
    }
}

impl Event {
    /// The mathematical model of this event: its entries, in order, with
    /// names as character sequences and values as value models.
    pub open spec fn model(self) -> Seq<(Seq<char>, ValueModel)> {
        crate::value::entries_model(self.entries@)
    }

    /// An event with no fields.
    pub fn new() -> (r: Event)
        ensures
            r.model() =~= Seq::<(Seq<char>, ValueModel)>::empty(),
    {
        Event { entries: Vec::new() }
    }

    /// Binds `name` to `value` after all existing entries.
    pub fn push(&mut self, name: String, value: Value)
        ensures
            final(self).model() =~= old(self).model().push((name@, value.model())),
    {
        self.entries.push((name, value));
    }

    /// Looks `name` up among the entries; the first binding wins.
    pub fn get<'a>(&'a self, name: &String) -> (r: Option<&'a Value>)
        ensures
            match r {
                Some(v) => lookup(self.model(), name@) == Some(v.model()),
                None => lookup(self.model(), name@) is None,
            },
    {
        let n = self.entries.len();
        proof {
            assert(self.model().skip(0) =~= self.model());
        }
        let mut i: usize = 0;
        while i < n
            invariant
                i <= n,
                n == self.entries@.len(),
                lookup(self.model(), name@) == lookup(self.model().skip(i as int), name@),
            decreases n - i,
        {
            if self.entries[i].0 == *name {
                proof {
                    let m = self.model();
                    assert(m.skip(i as int)[0] == m[i as int]);
                    assert(m[i as int].0 == self.entries@[i as int].0@);
                    assert(lookup(m.skip(i as int), name@) == Some(m[i as int].1));
                }
                return Some(&self.entries[i].1);
            }
            proof {
                let m = self.model();
                assert(m.skip(i as int)[0] == m[i as int]);
                assert(m[i as int].0 == self.entries@[i as int].0@);
                assert(m.skip(i as int).drop_first() =~= m.skip(i as int + 1));
                assert(lookup(m.skip(i as int), name@) == lookup(m.skip(i as int + 1), name@));
            }
            i += 1;
        }
        proof {
            assert(self.model().skip(n as int) =~= Seq::<(Seq<char>, ValueModel)>::empty());
        }
        None
    }
}

} // verus!
