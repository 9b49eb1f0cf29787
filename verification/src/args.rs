//! The caller-supplied argument mapping: names to string values, built per
//! render call. Modelled as an association list in which the first match
//! wins, so a later `insert` of the same name shadows the earlier one.

use vstd::prelude::*;

verus! {

/// A mapping from argument name to string value.
pub struct ArgMap {
    pairs: Vec<(String, String)>,
}

impl View for ArgMap {
    type V = Seq<(Seq<char>, Seq<char>)>;

    closed spec fn view(&self) -> Seq<(Seq<char>, Seq<char>)> {
        self.pairs@.map_values(|p: (String, String)| (p.0@, p.1@))
    }
}

/// The value bound to `name`: that of the first pair carrying it, if any.
pub open spec fn arg_lookup(pairs: Seq<(Seq<char>, Seq<char>)>, name: Seq<char>) -> Option<
    Seq<char>,
>
    decreases pairs.len(),
{
    if pairs.len() == 0 {
        None
    } else if pairs[0].0 == name {
        Some(pairs[0].1)
    } else {
        arg_lookup(pairs.drop_first(), name)
    }
}

impl ArgMap {
    /// An empty mapping: every lookup misses.
    pub fn new() -> (r: ArgMap)
        ensures
            r@ == Seq::<(Seq<char>, Seq<char>)>::empty(),
    {
        let r = ArgMap { pairs: Vec::new() };
        proof {
            assert(r@ =~= Seq::<(Seq<char>, Seq<char>)>::empty());
        }
        r
    }

    /// Binds `name` to `value`, shadowing any earlier binding of `name`.
    pub fn insert(&mut self, name: String, value: String)
        ensures
            final(self)@ == seq![(name@, value@)] + old(self)@,
    {
        let ghost name_view = name@;
        let ghost value_view = value@;
        let ghost before = self@;
        self.pairs.insert(0, (name, value));
        proof {
            assert(self@ =~= seq![(name_view, value_view)] + before);
        }
    }

    /// The value bound to `name`, if the mapping holds one.
    pub fn get<'a>(&'a self, name: &str) -> (r: Option<&'a String>)
        ensures
            match r {
                Some(v) => arg_lookup(self@, name@) == Some(v@),
                None => arg_lookup(self@, name@) is None,
            },
    {
        let wanted: String = name.to_owned();
        let n = self.pairs.len();
        let mut i: usize = 0;
        proof {
            assert(self@.skip(0) =~= self@);
        }
        while i < n
            invariant
                i <= n,
                n == self.pairs.len(),
                wanted@ == name@,
                arg_lookup(self@, name@) == arg_lookup(self@.skip(i as int), name@),
            decreases n - i,
        {
            proof {
                assert(self@.skip(i as int)[0] == self@[i as int]);
                assert(self@.skip(i as int).drop_first() =~= self@.skip(i + 1));
            }
            if self.pairs[i].0 == wanted {
                return Some(&self.pairs[i].1);
            }
            i = i + 1;
        }
        proof {
            assert(self@.skip(n as int).len() == 0);
        }
        None
    }
}

} // verus!
