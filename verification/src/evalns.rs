use vstd::prelude::*;

use crate::error::Error;
use crate::grammar::Value;
use crate::grammar::constant_of;

verus! {

/// First-match lookup over name/value pairs.
pub open spec fn lookup_pairs(pairs: Seq<(Seq<char>, u64)>, name: Seq<char>) -> Option<u64>
    decreases pairs.len(),
{
    if pairs.len() == 0 {
        None
    } else if pairs[0].0 == name {
        Some(pairs[0].1)
    } else {
        lookup_pairs(pairs.drop_first(), name)
    }
}

/// The view of a binding list: each name as its character sequence.
pub open spec fn pairs_view(bindings: Seq<(String, u64)>) -> Seq<(Seq<char>, u64)> {
    bindings.map_values(|p: (String, u64)| (p.0@, p.1))
}

/// The namespace collaborator: resolves operand leaves and raw names to
/// scalars. A namespace is either backed by an explicit list of name
/// bindings, or it is a recording stub that never supplies a value and
/// instead remembers every name it was asked for (the mechanism behind
/// variable-name collection).
pub struct EvalNS {
    bindings: Vec<(String, u64)>,
    recording: bool,
    recorded: Vec<String>,
}

impl EvalNS {
    /// Whether this namespace is a recording stub.
    pub closed spec fn is_recording(&self) -> bool {
        self.recording
    }

    /// The bindings this namespace resolves names through.
    pub closed spec fn bindings_view(&self) -> Seq<(Seq<char>, u64)> {
        pairs_view(self.bindings@)
    }

    /// The names recorded so far, in first-seen order, without repeats.
    pub closed spec fn recorded_names(&self) -> Seq<Seq<char>> {
        self.recorded.deep_view()
    }

    /// A namespace resolving names through the given bindings; on a name
    /// bound more than once, the first binding wins.
    pub fn new(bindings: Vec<(String, u64)>) -> (ns: EvalNS)
        ensures
            !ns.is_recording(),
            ns.bindings_view() == pairs_view(bindings@),
            ns.recorded_names() =~= Seq::<Seq<char>>::empty(),
    {
        EvalNS { bindings, recording: false, recorded: Vec::new() }
    }

    /// A recording stub: it never supplies a value, and remembers every
    /// name it is asked to resolve.
    pub fn recorder() -> (ns: EvalNS)
        ensures
            ns.is_recording(),
            ns.recorded_names() =~= Seq::<Seq<char>>::empty(),
    {
        EvalNS { bindings: Vec::new(), recording: true, recorded: Vec::new() }
    }

    /// Raw name lookup. A binding-backed namespace answers from its
    /// bindings; a recording stub records the name (once) and answers with
    /// nothing.
    pub fn get(&mut self, name: &str) -> (r: Option<u64>)
        ensures
            final(self).is_recording() == old(self).is_recording(),
            final(self).bindings_view() == old(self).bindings_view(),
            !old(self).is_recording() ==> {
                &&& r == lookup_pairs(old(self).bindings_view(), name@)
                &&& final(self).recorded_names() == old(self).recorded_names()
            },
            old(self).is_recording() ==> {
                &&& r is None
                &&& final(self).recorded_names() =~= (if old(self).recorded_names().contains(
                    name@,
                ) {
                    old(self).recorded_names()
                } else {
                    old(self).recorded_names().push(name@)
                })
            },
    {
        if self.recording {
            if !contains_name(&self.recorded, name) {
                self.recorded.push(name.to_owned());
            }
            None
        } else {
            let owned = name.to_owned();
            let mut k: usize = 0;
            while k < self.bindings.len()
                invariant
                    k <= self.bindings@.len(),
                    owned@ == name@,
                    *self == *old(self),
                    !self.recording,
                    forall|j: int| 0 <= j < k ==> self.bindings@[j].0@ != name@,
                decreases self.bindings@.len() - k,
            {
                if self.bindings[k].0 == owned {
                    proof {
                        lemma_lookup_pairs_found(pairs_view(self.bindings@), name@, k as int);
                    }
                    return Some(self.bindings[k].1);
                }
                k += 1;
            }
            proof {
                lemma_lookup_pairs_missing(pairs_view(self.bindings@), name@);
            }
            None
        }
    }

    /// Resolves an operand leaf. A constant resolves to its own scalar and
    /// never consults the bindings, so resolution cannot fail here.
    pub fn eval_bubble(&mut self, val: &Value) -> (r: Result<u64, Error>)
        ensures
            *final(self) == *old(self),
            r == Ok::<u64, Error>(constant_of(*val)),
    {
        match val {
            Value::EConstant(c) => Ok(c.0),
        }
    }

    /// The names recorded while acting as a recording stub.
    pub fn into_recorded(self) -> (names: Vec<String>)
        ensures
            names.deep_view() =~= self.recorded_names(),
    {
        self.recorded
    }
}

/// Whether one of the strings has exactly the given characters.
fn contains_name(names: &Vec<String>, name: &str) -> (b: bool)
    ensures
        b == names.deep_view().contains(name@),
{
    let owned = name.to_owned();
    let mut k: usize = 0;
    while k < names.len()
        invariant
            k <= names@.len(),
            owned@ == name@,
            forall|j: int| 0 <= j < k ==> names.deep_view()[j] != name@,
        decreases names@.len() - k,
    {
        if names[k] == owned {
            proof {
                assert(names.deep_view()[k as int] == name@);
            }
            return true;
        }
        k += 1;
    }
    proof {
        assert(!names.deep_view().contains(name@));
    }
    false
}

/// If the first match among the bindings is at position `k`, lookup returns
/// that binding's value.
proof fn lemma_lookup_pairs_found(pairs: Seq<(Seq<char>, u64)>, name: Seq<char>, k: int)
    requires
        0 <= k < pairs.len(),
        pairs[k].0 == name,
        forall|j: int| 0 <= j < k ==> pairs[j].0 != name,
    ensures
        lookup_pairs(pairs, name) == Some(pairs[k].1),
    decreases k,
{
    if k == 0 {
    } else {
        lemma_lookup_pairs_found(pairs.drop_first(), name, k - 1);
    }
}

/// If no binding carries the name, lookup returns nothing.
proof fn lemma_lookup_pairs_missing(pairs: Seq<(Seq<char>, u64)>, name: Seq<char>)
    requires
        forall|j: int| 0 <= j < pairs.len() ==> pairs[j].0 != name,
    ensures
        lookup_pairs(pairs, name) is None,
    decreases pairs.len(),
{
    if pairs.len() == 0 {
    } else {
        lemma_lookup_pairs_missing(pairs.drop_first(), name);
    }
}

} // verus!
