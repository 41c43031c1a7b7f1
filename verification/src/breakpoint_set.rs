//! Membership-only breakpoint bookkeeping: the same adaptive representation
//! as the id-carrying table, but tracking only which addresses hold a
//! breakpoint.

use vstd::prelude::*;
use std::collections::HashSet;

verus! {

broadcast use vstd::std_specs::hash::group_hash_axioms;

/// Whether `addr` stands in the list.
pub open spec fn seq_has(s: Seq<usize>, addr: usize) -> bool {
    exists|i: int| 0 <= i < s.len() && s[i] == addr
}

/// No address stands in the list twice.
pub open spec fn distinct_seq(s: Seq<usize>) -> bool {
    forall|i: int, j: int| 0 <= i < j < s.len() ==> s[i] != s[j]
}

/// Adaptive set of breakpoint addresses: a short list of addresses, migrated
/// for good to a hash set once an insertion would pass the threshold.
pub enum BreakpointTable {
    Few(Vec<usize>),
    Many(HashSet<usize>),
}

impl BreakpointTable {
    /// The mathematical model of the table: the set of addresses it holds.
    pub open spec fn view(&self) -> Set<usize> {
        match self {
            BreakpointTable::Few(addrs) => Set::new(|a: usize| seq_has(addrs@, a)),
            BreakpointTable::Many(set) => set@,
        }
    }

    /// Whether the table has migrated to the hash representation.
    pub open spec fn is_many(&self) -> bool {
        self is Many
    }

    /// The number of entries the representation holds.
    pub open spec fn count(&self) -> nat {
        match self {
            BreakpointTable::Few(addrs) => addrs@.len(),
            BreakpointTable::Many(set) => set@.len(),
        }
    }

    /// The list representation carries no duplicate address.
    pub open spec fn wf(&self) -> bool {
        match self {
            BreakpointTable::Few(addrs) => distinct_seq(addrs@),
            BreakpointTable::Many(_) => true,
        }
    }

    /// Whether the table currently uses the hash representation.
    pub fn uses_hash(&self) -> (r: bool)
        ensures
            r == self.is_many(),
    {
        match self {
            BreakpointTable::Few(_) => false,
            BreakpointTable::Many(_) => true,
        }
    }

    /// An empty table, in the list representation.
    pub fn new() -> (r: Self)
        ensures
            r.wf(),
            r@ == Set::<usize>::empty(),
            !r.is_many(),
            r.count() == 0,
    {
        let r = BreakpointTable::Few(Vec::new());
        proof {
            assert(r@ =~= Set::<usize>::empty());
        }
        r
    }

    /// Whether a breakpoint is set at `addr`.
    #[verifier::loop_isolation(false)]
    pub fn check_breakpoint(&self, addr: usize) -> (r: bool)
        requires
            self.wf(),
        ensures
            r == self@.contains(addr),
    {
        match self {
            BreakpointTable::Few(addrs) => {
                let mut i: usize = 0;
                while i < addrs.len()
                    invariant
                        i <= addrs@.len(),
                        forall|j: int| 0 <= j < i ==> addrs@[j] != addr,
                    decreases addrs@.len() - i,
                {
                    if addrs[i] == addr {
                        return true;
                    }
                    i = i + 1;
                }
                false
            },
            BreakpointTable::Many(set) => set.contains(&addr),
        }
    }

    /// Places a breakpoint at `addr`; an address already present stays as it
    /// is. Where the insertion would push the list past the threshold, the
    /// table migrates to the hash representation for good.
    #[verifier::loop_isolation(false)]
    pub fn set_breakpoint(&mut self, addr: usize)
        requires
            old(self).wf(),
        ensures
            final(self).wf(),
            final(self)@ == old(self)@.insert(addr),
            final(self).is_many() <==> (old(self).is_many() || (!old(self)@.contains(addr) && old(
                self,
            ).count() >= crate::breakpoints::BRKPT_MAP_THRESH)),
    {
        let ghost old_view = self@;
        match self {
            BreakpointTable::Few(addrs) => {
                let ghost s0 = addrs@;
                let mut i: usize = 0;
                while i < addrs.len()
                    invariant
                        i <= s0.len(),
                        addrs@ == s0,
                        forall|j: int| 0 <= j < i ==> s0[j] != addr,
                    decreases s0.len() - i,
                {
                    if addrs[i] == addr {
                        proof {
                            assert(self@ =~= old_view.insert(addr));
                        }
                        return ;
                    }
                    i = i + 1;
                }
                assert(!seq_has(s0, addr));
                if addrs.len() < crate::breakpoints::BRKPT_MAP_THRESH {
                    addrs.push(addr);
                    proof {
                        assert(distinct_seq(addrs@)) by {
                            assert(forall|j: int| 0 <= j < s0.len() ==> addrs@[j] == s0[j]);
                            assert(addrs@[s0.len() as int] == addr);
                        }
                        assert(self@ =~= old_view.insert(addr)) by {
                            assert(forall|a: usize|
                                seq_has(addrs@, a) <==> (seq_has(s0, a) || a == addr)) by {
                                assert forall|a: usize|
                                    seq_has(addrs@, a) implies (seq_has(s0, a) || a == addr) by {
                                    let j = choose|j: int|
                                        0 <= j < addrs@.len() && addrs@[j] == a;
                                    if j < s0.len() {
                                        assert(seq_has(s0, a));
                                    }
                                }
                                assert forall|a: usize|
                                    (seq_has(s0, a) || a == addr) implies seq_has(addrs@, a) by {
                                    if seq_has(s0, a) {
                                        let j = choose|j: int| 0 <= j < s0.len() && s0[j] == a;
                                        assert(addrs@[j] == a);
                                    } else {
                                        assert(addrs@[s0.len() as int] == a);
                                    }
                                }
                            }
                        }
                    }
                } else {
                    let mut set: HashSet<usize> = HashSet::new();
                    let mut k: usize = 0;
                    while k < addrs.len()
                        invariant
                            k <= s0.len(),
                            addrs@ == s0,
                            forall|a: usize| #[trigger]
                                set@.contains(a) <==> seq_has(s0.take(k as int), a),
                        decreases s0.len() - k,
                    {
                        let a = addrs[k];
                        set.insert(a);
                        proof {
                            assert forall|b: usize| #[trigger]
                                set@.contains(b) <==> seq_has(s0.take(k as int + 1), b) by {
                                if seq_has(s0.take(k as int + 1), b) {
                                    let j = choose|j: int|
                                        0 <= j < k as int + 1 && #[trigger] s0.take(
                                            k as int + 1,
                                        )[j] == b;
                                    if j < k as int {
                                        assert(s0.take(k as int)[j] == b);
                                    }
                                } else {
                                    assert(!seq_has(s0.take(k as int), b)) by {
                                        if seq_has(s0.take(k as int), b) {
                                            let j = choose|j: int|
                                                0 <= j < k as int && s0.take(k as int)[j] == b;
                                            assert(s0.take(k as int + 1)[j] == b);
                                        }
                                    }
                                    assert(b != s0[k as int] ==> !set@.contains(b));
                                    assert(b == s0[k as int] ==> seq_has(
                                        s0.take(k as int + 1),
                                        b,
                                    )) by {
                                        assert(s0.take(k as int + 1)[k as int] == s0[k as int]);
                                    }
                                }
                            }
                        }
                        k = k + 1;
                    }
                    proof {
                        assert(s0.take(s0.len() as int) =~= s0);
                    }
                    set.insert(addr);
                    proof {
                        assert(set@ =~= old_view.insert(addr));
                    }
                    *self = BreakpointTable::Many(set);
                }
            },
            BreakpointTable::Many(set) => {
                set.insert(addr);
                proof {
                    assert(set@ =~= old_view.insert(addr));
                }
            },
        }
    }

    /// Removes the breakpoint at `addr`; removing an absent address changes
    /// nothing. The representation never migrates on removal.
    #[verifier::loop_isolation(false)]
    pub fn remove_breakpoint(&mut self, addr: usize)
        requires
            old(self).wf(),
        ensures
            final(self).wf(),
            final(self)@ == old(self)@.remove(addr),
            final(self).is_many() == old(self).is_many(),
    {
        let ghost old_view = self@;
        match self {
            BreakpointTable::Few(addrs) => {
                let ghost s0 = addrs@;
                let mut i: usize = 0;
                while i < addrs.len()
                    invariant
                        i <= s0.len(),
                        addrs@ == s0,
                        forall|j: int| 0 <= j < i ==> s0[j] != addr,
                    decreases s0.len() - i,
                {
                    if addrs[i] == addr {
                        addrs.remove(i);
                        proof {
                            let t = s0.remove(i as int);
                            assert(distinct_seq(t)) by {
                                assert forall|x: int, y: int|
                                    0 <= x < y < t.len() implies t[x] != t[y] by {
                                    let x0 = if x < i as int {
                                        x
                                    } else {
                                        x + 1
                                    };
                                    let y0 = if y < i as int {
                                        y
                                    } else {
                                        y + 1
                                    };
                                    assert(t[x] == s0[x0] && t[y] == s0[y0]);
                                }
                            }
                            assert(self@ =~= old_view.remove(addr)) by {
                                assert forall|a: usize|
                                    seq_has(t, a) <==> (seq_has(s0, a) && a != addr) by {
                                    if seq_has(t, a) {
                                        let j = choose|j: int| 0 <= j < t.len() && t[j] == a;
                                        let j0 = if j < i as int {
                                            j
                                        } else {
                                            j + 1
                                        };
                                        assert(s0[j0] == a);
                                        assert(j0 != i ==> s0[j0] != s0[i as int]);
                                    } else if seq_has(s0, a) && a != addr {
                                        let j = choose|j: int| 0 <= j < s0.len() && s0[j] == a;
                                        if j < i as int {
                                            assert(t[j] == a);
                                        } else {
                                            assert(t[j - 1] == a);
                                        }
                                    }
                                }
                            }
                        }
                        return ;
                    }
                    i = i + 1;
                }
                proof {
                    assert(!seq_has(s0, addr));
                    assert(self@ =~= old_view.remove(addr));
                }
            },
            BreakpointTable::Many(set) => {
                set.remove(&addr);
                proof {
                    assert(set@ =~= old_view.remove(addr));
                }
            },
        }
    }
}

} // verus!
