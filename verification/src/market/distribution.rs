//! Book-keeping of the tick distributor: which consumers are registered
//! (each name once) and how many deliveries were made.  The channels
//! themselves are held by the caller, keyed by the same names.
use vstd::prelude::*;

use crate::text::{chars_eq, chars_of};

verus! {

/// Statistics of the tick distributor.
pub struct TickDistributorStats {
    /// Number of registered consumers.
    pub consumer_count: usize,
    /// Deliveries made so far (one per consumer per tick).
    pub total_distributed: u64,
    /// Names of the registered consumers.
    pub consumers: Vec<String>,
}

/// Registered consumer names and the delivery count.
pub struct ConsumerRegistry {
    names: Vec<String>,
    total: u64,
}

/// The texts of a list of strings.
pub open spec fn texts(v: Seq<String>) -> Seq<Seq<char>> {
    v.map_values(|s: String| s@)
}

/// No text occurs twice.
pub open spec fn distinct(s: Seq<Seq<char>>) -> bool {
    forall|i: int, j: int| 0 <= i < j < s.len() ==> s[i] != s[j]
}

impl View for ConsumerRegistry {
    type V = (Seq<Seq<char>>, u64);

    closed spec fn view(&self) -> (Seq<Seq<char>>, u64) {
        (texts(self.names@), self.total)
    }
}

impl ConsumerRegistry {
    #[verifier::type_invariant]
    spec fn names_distinct(&self) -> bool {
        distinct(texts(self.names@))
    }

    /// No consumers, nothing delivered.
    pub fn new() -> (r: Self)
        ensures
            r@.0.len() == 0,
            r@.1 == 0,
    {
        let r = ConsumerRegistry { names: Vec::new(), total: 0 };
        assert(texts(r.names@) =~= Seq::empty());
        r
    }

    /// The position of a name, if registered.
    fn position(&self, name: &str) -> (r: Option<usize>)
        ensures
            match r {
                Some(i) => i < self@.0.len() && self@.0[i as int] == name@,
                None => !self@.0.contains(name@),
            },
    {
        let key = chars_of(name);
        let mut i: usize = 0;
        while i < self.names.len()
            invariant
                i <= self.names@.len(),
                key@ == name@,
                forall|k: int| 0 <= k < i ==> texts(self.names@)[k] != name@,
            decreases self.names.len() - i,
        {
            let c = chars_of(self.names[i].as_str());
            if chars_eq(&c, &key) {
                return Some(i);
            }
            i = i + 1;
        }
        None
    }

    /// Register a consumer; a name already registered stays once (its
    /// channel is replaced by the caller).
    pub fn register(&mut self, name: String)
        ensures
            final(self)@.1 == old(self)@.1,
            final(self)@.0 == (if old(self)@.0.contains(name@) {
                old(self)@.0
            } else {
                old(self)@.0.push(name@)
            }),
    {
        proof {
            use_type_invariant(&*self);
        }
        match self.position(name.as_str()) {
            Some(_) => {},
            None => {
                let ghost before = texts(self.names@);
                let mut names: Vec<String> = Vec::new();
                std::mem::swap(&mut names, &mut self.names);
                names.push(name);
                proof {
                    assert(texts(names@) =~= before.push(name@));
                }
                self.names = names;
            },
        }
    }

    /// Unregister a consumer; whether it was registered.
    pub fn unregister(&mut self, name: &str) -> (removed: bool)
        ensures
            removed == old(self)@.0.contains(name@),
            final(self)@.1 == old(self)@.1,
            !final(self)@.0.contains(name@),
            forall|t: Seq<char>| t != name@ ==> (final(self)@.0.contains(t) <==> old(self)@.0.contains(t)),
    {
        proof {
            use_type_invariant(&*self);
        }
        match self.position(name) {
            Some(i) => {
                let ghost before = texts(self.names@);
                let mut names: Vec<String> = Vec::new();
                std::mem::swap(&mut names, &mut self.names);
                names.remove(i);
                proof {
                    assert(texts(names@) =~= before.remove(i as int));
                    assert forall|t: Seq<char>| t != name@ implies (texts(names@).contains(t)
                        <==> before.contains(t)) by {
                        if before.contains(t) {
                            let k = choose|k: int| 0 <= k < before.len() && before[k] == t;
                            if k < i {
                                assert(texts(names@)[k] == t);
                            } else {
                                assert(texts(names@)[k - 1] == t);
                            }
                        }
                    }
                    assert forall|k: int| 0 <= k < texts(names@).len() implies texts(names@)[k]
                        != name@ by {
                        if k < i {
                            assert(before[k] != before[i as int]);
                        } else {
                            assert(before[k + 1] != before[i as int]);
                        }
                    }
                }
                self.names = names;
                true
            },
            None => false,
        }
    }

    /// A tick was handed to every registered consumer: the delivery count
    /// grows by their number (wrapping, like an atomic counter).
    pub fn record_broadcast(&mut self)
        ensures
            final(self)@.0 == old(self)@.0,
            final(self)@.1 == (old(self)@.1 + old(self)@.0.len()) % 0x1_0000_0000_0000_0000,
    {
        proof {
            use_type_invariant(&*self);
        }
        let n = self.names.len() as u64;
        self.total = self.total.wrapping_add(n);
    }

    /// The names registered, in registration order.
    pub fn names(&self) -> (r: Vec<String>)
        ensures
            texts(r@) == self@.0,
    {
        let mut out: Vec<String> = Vec::new();
        let mut i: usize = 0;
        while i < self.names.len()
            invariant
                i <= self.names@.len(),
                out@.len() == i,
                forall|k: int| 0 <= k < i ==> (#[trigger] out@[k])@ == self.names@[k]@,
            decreases self.names.len() - i,
        {
            out.push(self.names[i].clone());
            i = i + 1;
        }
        assert(texts(out@) =~= texts(self.names@));
        out
    }

    /// The statistics: consumer count, deliveries, names.
    pub fn get_stats(&self) -> (r: TickDistributorStats)
        ensures
            r.consumer_count == self@.0.len(),
            r.total_distributed == self@.1,
            texts(r.consumers@) == self@.0,
    {
        let consumers = self.names();
        TickDistributorStats { consumer_count: consumers.len(), total_distributed: self.total, consumers }
    }
}

} // verus!
