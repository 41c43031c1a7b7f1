//! Breakpoint bookkeeping: a table from addresses to breakpoint ids with an
//! adaptive representation. Few entries sit in an ordered list; once an
//! insertion would push the count past the threshold the table migrates to a
//! hash map and stays there, even if entries are later removed.

use vstd::prelude::*;
use std::collections::HashMap;

verus! {

broadcast use vstd::std_specs::hash::group_hash_axioms;

/// The list representation holds at most this many entries; an insertion
/// that would exceed it migrates the table to the hash representation.
pub const BRKPT_MAP_THRESH: usize = 30;

/// Looks an address up in a list of `(address, id)` pairs, front first.
pub open spec fn seq_find(s: Seq<(usize, i32)>, addr: usize) -> Option<i32>
    decreases s.len(),
{
    if s.len() == 0 {
        None
    } else if s[0].0 == addr {
        Some(s[0].1)
    } else {
        seq_find(s.drop_first(), addr)
    }
}

/// No two pairs of the list carry the same address.
pub open spec fn distinct_addrs(s: Seq<(usize, i32)>) -> bool {
    forall|i: int, j: int| 0 <= i < j < s.len() ==> (#[trigger] s[i]).0 != (#[trigger] s[j]).0
}

/// Adaptive table of breakpoints: address to id, at most one id per address.
pub enum BreakpointTable {
    Few(Vec<(usize, i32)>),
    Many(HashMap<usize, i32>),
}

impl BreakpointTable {
    /// The mathematical model of the table: a map from address to id.
    pub open spec fn view(&self) -> Map<usize, i32> {
        match self {
            BreakpointTable::Few(pairs) => Map::new(
                |a: usize| seq_find(pairs@, a) is Some,
                |a: usize| seq_find(pairs@, a)->0,
            ),
            BreakpointTable::Many(map) => map@,
        }
    }

    /// Whether the table has migrated to the hash representation.
    pub open spec fn is_many(&self) -> bool {
        self is Many
    }

    /// The number of entries the representation holds.
    pub open spec fn count(&self) -> nat {
        match self {
            BreakpointTable::Few(pairs) => pairs@.len(),
            BreakpointTable::Many(map) => map@.dom().len(),
        }
    }

    /// The list representation carries no duplicate address.
    pub open spec fn wf(&self) -> bool {
        match self {
            BreakpointTable::Few(pairs) => distinct_addrs(pairs@),
            BreakpointTable::Many(_) => true,
        }
    }

    /// Whether the table currently uses the hash representation.
    pub fn uses_hash(&self) -> (r: bool)
        ensures
            r == self.is_many(),
    {
        match self {
            BreakpointTable::Few(_) => false,
            BreakpointTable::Many(_) => true,
        }
    }

    /// An empty table, in the list representation.
    pub fn new() -> (r: Self)
        ensures
            r.wf(),
            r@ == Map::<usize, i32>::empty(),
            !r.is_many(),
            r.count() == 0,
    {
        let r = BreakpointTable::Few(Vec::new());
        proof {
            assert(r@ =~= Map::<usize, i32>::empty());
        }
        r
    }

    /// The id of the breakpoint at `pc`, where one is set.
    #[verifier::loop_isolation(false)]
    pub fn check_brkpt(&self, pc: usize) -> (r: Option<i32>)
        requires
            self.wf(),
        ensures
            r is Some <==> self@.contains_key(pc),
            r is Some ==> r->0 == self@[pc],
    {
        match self {
            BreakpointTable::Few(pairs) => {
                let mut i: usize = 0;
                proof {
                    assert(pairs@.skip(0) =~= pairs@);
                }
                while i < pairs.len()
                    invariant
                        i <= pairs@.len(),
                        seq_find(pairs@, pc) == seq_find(pairs@.skip(i as int), pc),
                    decreases pairs@.len() - i,
                {
                    proof {
                        let t = pairs@.skip(i as int);
                        assert(t[0] == pairs@[i as int]);
                        assert(t.drop_first() =~= pairs@.skip(i as int + 1));
                    }
                    let (addr, num) = pairs[i];
                    if addr == pc {
                        return Some(num);
                    }
                    i = i + 1;
                }
                proof {
                    assert(pairs@.skip(pairs@.len() as int) =~= Seq::<(usize, i32)>::empty());
                }
                None
            },
            BreakpointTable::Many(map) => {
                match map.get(&pc) {
                    Some(num) => Some(*num),
                    None => None,
                }
            },
        }
    }

    /// Sets the breakpoint at `pc` to carry `brkpt_num`: inserts the pair, or
    /// overwrites the id of an address already present. Where the insertion
    /// would push the list past the threshold, the table migrates to the
    /// hash representation for good.
    #[verifier::loop_isolation(false)]
    pub fn set_brkpt(&mut self, pc: usize, brkpt_num: i32)
        requires
            old(self).wf(),
        ensures
            final(self).wf(),
            final(self)@ == old(self)@.insert(pc, brkpt_num),
            final(self).is_many() <==> (old(self).is_many() || (!old(self)@.contains_key(pc)
                && old(self).count() >= BRKPT_MAP_THRESH)),
    {
        let ghost old_view = self@;
        match self {
            BreakpointTable::Few(pairs) => {
                let ghost s0 = pairs@;
                let mut i: usize = 0;
                proof {
                    assert(s0.skip(0) =~= s0);
                }
                while i < pairs.len()
                    invariant
                        i <= s0.len(),
                        pairs@ == s0,
                        seq_find(s0, pc) == seq_find(s0.skip(i as int), pc),
                        forall|j: int| 0 <= j < i ==> (#[trigger] s0[j]).0 != pc,
                    decreases s0.len() - i,
                {
                    proof {
                        let t = s0.skip(i as int);
                        assert(t[0] == s0[i as int]);
                        assert(t.drop_first() =~= s0.skip(i as int + 1));
                    }
                    if pairs[i].0 == pc {
                        pairs[i] = (pc, brkpt_num);
                        proof {
                            lemma_seq_find_update(s0, i as int, (pc, brkpt_num));
                            assert forall|x: int, y: int|
                                0 <= x < y < pairs@.len() implies (#[trigger] pairs@[x]).0 != (
                            #[trigger] pairs@[y]).0 by {
                                assert(pairs@[x].0 == s0[x].0 && pairs@[y].0 == s0[y].0);
                            }
                            assert(self@ =~= old_view.insert(pc, brkpt_num)) by {
                                assert(forall|a: usize|
                                    #[trigger] seq_find(pairs@, a) == if a == pc {
                                        Some(brkpt_num)
                                    } else {
                                        seq_find(s0, a)
                                    });
                            }
                        }
                        return ;
                    }
                    i = i + 1;
                }
                proof {
                    assert(s0.skip(s0.len() as int) =~= Seq::<(usize, i32)>::empty());
                    assert(seq_find(s0, pc) is None);
                    assert(!old_view.contains_key(pc));
                }
                if pairs.len() < BRKPT_MAP_THRESH {
                    pairs.push((pc, brkpt_num));
                    proof {
                        lemma_seq_find_push(s0, (pc, brkpt_num));
                        assert(distinct_addrs(pairs@)) by {
                            lemma_seq_find_none(s0, pc);
                            assert(forall|j: int|
                                0 <= j < s0.len() ==> #[trigger] pairs@[j] == s0[j]);
                            assert(pairs@[s0.len() as int].0 == pc);
                        }
                        assert(self@ =~= old_view.insert(pc, brkpt_num)) by {
                            assert(forall|a: usize|
                                #[trigger] seq_find(pairs@, a) == if a == pc {
                                    Some(brkpt_num)
                                } else {
                                    seq_find(s0, a)
                                });
                        }
                    }
                } else {
                    let mut map: HashMap<usize, i32> = HashMap::new();
                    let mut k: usize = 0;
                    while k < pairs.len()
                        invariant
                            k <= s0.len(),
                            pairs@ == s0,
                            distinct_addrs(s0),
                            forall|a: usize| #[trigger]
                                map@.contains_key(a) <==> seq_find(s0.take(k as int), a) is Some,
                            forall|a: usize|
                                map@.contains_key(a) ==> #[trigger] map@[a] == seq_find(
                                    s0.take(k as int),
                                    a,
                                )->0,
                        decreases s0.len() - k,
                    {
                        let (addr, num) = pairs[k];
                        proof {
                            lemma_take_is_push(s0, k as int);
                            lemma_distinct_take_find_none(s0, k as int);
                            lemma_seq_find_push(s0.take(k as int), s0[k as int]);
                        }
                        map.insert(addr, num);
                        k = k + 1;
                    }
                    proof {
                        assert(s0.take(s0.len() as int) =~= s0);
                    }
                    map.insert(pc, brkpt_num);
                    proof {
                        assert(map@ =~= old_view.insert(pc, brkpt_num));
                    }
                    *self = BreakpointTable::Many(map);
                }
            },
            BreakpointTable::Many(map) => {
                map.insert(pc, brkpt_num);
                proof {
                    assert(map@ =~= old_view.insert(pc, brkpt_num));
                }
            },
        }
    }

    /// Removes the breakpoint at `pc`; removing an absent address changes
    /// nothing. The representation never migrates on removal.
    #[verifier::loop_isolation(false)]
    pub fn remove_brkpt(&mut self, pc: usize)
        requires
            old(self).wf(),
        ensures
            final(self).wf(),
            final(self)@ == old(self)@.remove(pc),
            final(self).is_many() == old(self).is_many(),
    {
        let ghost old_view = self@;
        match self {
            BreakpointTable::Few(pairs) => {
                let ghost s0 = pairs@;
                let mut i: usize = 0;
                proof {
                    assert(s0.skip(0) =~= s0);
                }
                while i < pairs.len()
                    invariant
                        i <= s0.len(),
                        pairs@ == s0,
                        seq_find(s0, pc) == seq_find(s0.skip(i as int), pc),
                        forall|j: int| 0 <= j < i ==> (#[trigger] s0[j]).0 != pc,
                    decreases s0.len() - i,
                {
                    proof {
                        let t = s0.skip(i as int);
                        assert(t[0] == s0[i as int]);
                        assert(t.drop_first() =~= s0.skip(i as int + 1));
                    }
                    if pairs[i].0 == pc {
                        pairs.remove(i);
                        proof {
                            lemma_seq_find_remove(s0, i as int, pc);
                            lemma_distinct_remove(s0, i as int);
                            assert(self@ =~= old_view.remove(pc)) by {
                                assert(forall|a: usize|
                                    #[trigger] seq_find(pairs@, a) == if a == pc {
                                        None::<i32>
                                    } else {
                                        seq_find(s0, a)
                                    });
                            }
                        }
                        return ;
                    }
                    i = i + 1;
                }
                proof {
                    assert(s0.skip(s0.len() as int) =~= Seq::<(usize, i32)>::empty());
                    lemma_seq_find_none(s0, pc);
                    assert(self@ =~= old_view.remove(pc));
                }
            },
            BreakpointTable::Many(map) => {
                map.remove(&pc);
                proof {
                    assert(map@ =~= old_view.remove(pc));
                }
            },
        }
    }
}

proof fn lemma_seq_find_none(s: Seq<(usize, i32)>, addr: usize)
    ensures
        seq_find(s, addr) is None <==> (forall|i: int| 0 <= i < s.len() ==> (#[trigger] s[i]).0
            != addr),
    decreases s.len(),
{
    if s.len() > 0 {
        lemma_seq_find_none(s.drop_first(), addr);
        assert(forall|i: int|
            1 <= i < s.len() ==> (#[trigger] s[i]).0 == s.drop_first()[i - 1].0);
        if s[0].0 != addr && seq_find(s.drop_first(), addr) is None {
            assert(forall|i: int| 0 <= i < s.len() ==> (#[trigger] s[i]).0 != addr) by {
                assert(forall|i: int|
                    1 <= i < s.len() ==> (#[trigger] s[i]).0 == s.drop_first()[i - 1].0 && s.drop_first()[i
                        - 1].0 != addr);
            }
        }
    }
}

proof fn lemma_seq_find_update(s: Seq<(usize, i32)>, i: int, p: (usize, i32))
    requires
        0 <= i < s.len(),
        distinct_addrs(s),
        s[i].0 == p.0,
    ensures
        forall|a: usize|
            #[trigger] seq_find(s.update(i, p), a) == if a == p.0 {
                Some(p.1)
            } else {
                seq_find(s, a)
            },
    decreases s.len(),
{
    let t = s.update(i, p);
    if i == 0 {
        assert(t.drop_first() =~= s.drop_first());
        assert(t[0] == p);
        assert forall|a: usize|
            #[trigger] seq_find(t, a) == if a == p.0 {
                Some(p.1)
            } else {
                seq_find(s, a)
            } by {
            if a == p.0 {
            } else {
                assert(seq_find(t, a) == seq_find(t.drop_first(), a));
                assert(seq_find(s, a) == seq_find(s.drop_first(), a));
            }
        }
    } else {
        assert(t[0] == s[0]);
        assert(t.drop_first() =~= s.drop_first().update(i - 1, p));
        assert(distinct_addrs(s.drop_first())) by {
            assert(forall|x: int, y: int|
                0 <= x < y < s.drop_first().len() ==> (#[trigger] s.drop_first()[x]).0 != (
                #[trigger] s.drop_first()[y]).0) by {
                assert(forall|x: int|
                    0 <= x < s.drop_first().len() ==> #[trigger] s.drop_first()[x] == s[x + 1]);
            }
        }
        assert(s.drop_first()[i - 1].0 == p.0);
        lemma_seq_find_update(s.drop_first(), i - 1, p);
        assert(s[0].0 != p.0);
        assert forall|a: usize|
            #[trigger] seq_find(t, a) == if a == p.0 {
                Some(p.1)
            } else {
                seq_find(s, a)
            } by {
            if s[0].0 == a {
            } else {
                assert(seq_find(t, a) == seq_find(t.drop_first(), a));
                assert(seq_find(s, a) == seq_find(s.drop_first(), a));
            }
        }
    }
}

proof fn lemma_seq_find_push(s: Seq<(usize, i32)>, p: (usize, i32))
    requires
        seq_find(s, p.0) is None,
    ensures
        forall|a: usize|
            #[trigger] seq_find(s.push(p), a) == if a == p.0 {
                Some(p.1)
            } else {
                seq_find(s, a)
            },
    decreases s.len(),
{
    let t = s.push(p);
    if s.len() == 0 {
        assert(t.drop_first() =~= Seq::<(usize, i32)>::empty());
        assert forall|a: usize|
            #[trigger] seq_find(t, a) == if a == p.0 {
                Some(p.1)
            } else {
                seq_find(s, a)
            } by {
            assert(t[0] == p);
            if a == p.0 {
                assert(seq_find(t, a) == Some(p.1));
            } else {
                assert(seq_find(t, a) == seq_find(t.drop_first(), a));
                assert(seq_find(t.drop_first(), a) is None);
                assert(seq_find(s, a) is None);
            }
        }
    } else {
        assert(t[0] == s[0]);
        assert(t.drop_first() =~= s.drop_first().push(p));
        lemma_seq_find_push(s.drop_first(), p);
        assert forall|a: usize|
            #[trigger] seq_find(t, a) == if a == p.0 {
                Some(p.1)
            } else {
                seq_find(s, a)
            } by {
            if s[0].0 == a {
            } else {
                assert(seq_find(t, a) == seq_find(t.drop_first(), a));
            }
        }
    }
}

proof fn lemma_seq_find_remove(s: Seq<(usize, i32)>, i: int, addr: usize)
    requires
        0 <= i < s.len(),
        distinct_addrs(s),
        s[i].0 == addr,
    ensures
        forall|a: usize|
            #[trigger] seq_find(s.remove(i), a) == if a == addr {
                None::<i32>
            } else {
                seq_find(s, a)
            },
    decreases s.len(),
{
    let t = s.remove(i);
    if i == 0 {
        assert(t =~= s.drop_first());
        lemma_seq_find_none(s.drop_first(), addr);
        assert(forall|j: int|
            0 <= j < s.drop_first().len() ==> (#[trigger] s.drop_first()[j]).0 == s[j + 1].0 && s[j
                + 1].0 != addr);
    } else {
        assert(t[0] == s[0]);
        assert(t.drop_first() =~= s.drop_first().remove(i - 1));
        assert(distinct_addrs(s.drop_first())) by {
            assert(forall|x: int|
                0 <= x < s.drop_first().len() ==> #[trigger] s.drop_first()[x] == s[x + 1]);
        }
        assert(s.drop_first()[i - 1].0 == addr);
        lemma_seq_find_remove(s.drop_first(), i - 1, addr);
        assert(s[0].0 != addr);
        assert forall|a: usize|
            #[trigger] seq_find(t, a) == if a == addr {
                None::<i32>
            } else {
                seq_find(s, a)
            } by {
            if s[0].0 == a {
            } else {
                assert(seq_find(t, a) == seq_find(t.drop_first(), a));
                assert(seq_find(s, a) == seq_find(s.drop_first(), a));
            }
        }
    }
}

proof fn lemma_distinct_remove(s: Seq<(usize, i32)>, i: int)
    requires
        0 <= i < s.len(),
        distinct_addrs(s),
    ensures
        distinct_addrs(s.remove(i)),
{
    let t = s.remove(i);
    assert forall|x: int, y: int|
        0 <= x < y < t.len() implies (#[trigger] t[x]).0 != (#[trigger] t[y]).0 by {
        let x0 = if x < i {
            x
        } else {
            x + 1
        };
        let y0 = if y < i {
            y
        } else {
            y + 1
        };
        assert(t[x] == s[x0] && t[y] == s[y0]);
    }
}

proof fn lemma_take_is_push(s: Seq<(usize, i32)>, k: int)
    requires
        0 <= k < s.len(),
    ensures
        s.take(k + 1) =~= s.take(k).push(s[k]),
{
}

proof fn lemma_distinct_take_find_none(s: Seq<(usize, i32)>, k: int)
    requires
        0 <= k < s.len(),
        distinct_addrs(s),
    ensures
        seq_find(s.take(k), s[k].0) is None,
{
    lemma_seq_find_none(s.take(k), s[k].0);
    assert(forall|j: int| 0 <= j < k ==> (#[trigger] s.take(k)[j]).0 == s[j].0 && s[j].0 != s[k].0);
}

} // verus!
