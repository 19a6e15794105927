//! Tables from a key or button code to the destination that received its press.

use vstd::prelude::*;
use std::collections::HashMap;
use crate::text::str_eq;
use vstd::std_specs::iter::IteratorSpec;

verus! {

broadcast use {vstd::std_specs::hash::group_hash_axioms, vstd::seq_lib::group_seq_properties};

/// Abstract contents of a code table: code -> destination name.
pub open spec fn table_view(m: Map<u16, String>) -> Map<u16, Seq<char>> {
    m.map_values(|s: String| s@)
}

/// A released entry seen abstractly.
pub open spec fn pairs_view(v: Seq<(u16, String)>) -> Seq<(u16, Seq<char>)> {
    v.map_values(|p: (u16, String)| (p.0, p.1@))
}

/// No code occurs twice in a list of released entries.
pub open spec fn codes_unique(s: Seq<(u16, Seq<char>)>) -> bool {
    forall|i: int, j: int| 0 <= i < s.len() && 0 <= j < s.len() && i != j ==> s[i].0 != s[j].0
}

/// The table that a duplicate-free list of entries stands for.
pub open spec fn pairs_map(s: Seq<(u16, Seq<char>)>) -> Map<u16, Seq<char>> {
    Map::new(
        |k: u16| exists|i: int| 0 <= i < s.len() && s[i].0 == k,
        |k: u16| s[choose|i: int| 0 <= i < s.len() && s[i].0 == k].1,
    )
}

/// The entries of `t` whose destination is `dest`.
pub open spec fn entries_to(t: Map<u16, Seq<char>>, dest: Seq<char>) -> Map<u16, Seq<char>> {
    t.restrict(t.dom().filter(|k: u16| t[k] == dest))
}

/// The entries of `t` whose destination is not `dest`.
pub open spec fn entries_not_to(t: Map<u16, Seq<char>>, dest: Seq<char>) -> Map<u16, Seq<char>> {
    t.restrict(t.dom().filter(|k: u16| t[k] != dest))
}

/// The codes present in a table, each once.
pub fn table_codes(m: &HashMap<u16, String>) -> (ks: Vec<u16>)
    ensures
        ks@.no_duplicates(),
        ks@.to_set() == m@.dom(),
{
    let mut ks: Vec<u16> = Vec::new();
    let ghost all = vstd::std_specs::hash::spec_keys_iter(m).remaining().unref();
    for k in it: m.keys()
        invariant
            it.seq().unref() == all,
            ks@ == all.take(it.index() as int),
    {
        ks.push(*k);
        proof {
            assert(all.take(it.index() as int + 1) =~= all.take(it.index() as int).push(*k));
        }
    }
    assert(ks@ =~= all);
    ks
}

/// Entries listed by code, each code once, values taken from `t`.
pub open spec fn listed(ks: Seq<u16>, t: Map<u16, Seq<char>>) -> Seq<(u16, Seq<char>)> {
    ks.map_values(|k: u16| (k, t[k]))
}

proof fn lemma_listed_map(ks: Seq<u16>, t: Map<u16, Seq<char>>)
    requires
        ks.no_duplicates(),
        ks.to_set() == t.dom(),
    ensures
        codes_unique(listed(ks, t)),
        pairs_map(listed(ks, t)) == t,
{
    let l = listed(ks, t);
    assert forall|i: int, j: int| 0 <= i < l.len() && 0 <= j < l.len() && i != j implies l[i].0 != l[j].0 by {
        assert(l[i].0 == ks[i]);
        assert(l[j].0 == ks[j]);
    }
    assert forall|k: u16| #[trigger] t.dom().contains(k) implies pairs_map(l).dom().contains(k) && pairs_map(l)[k] == t[k] by {
        assert(ks.to_set().contains(k));
        let i = choose|i: int| 0 <= i < ks.len() && ks[i] == k;
        assert(l[i].0 == k);
        let c = choose|c: int| 0 <= c < l.len() && l[c].0 == k;
        assert(l[c].0 == ks[c]);
        assert(c == i);
    }
    assert forall|k: u16| pairs_map(l).dom().contains(k) implies #[trigger] t.dom().contains(k) by {
        let i = choose|i: int| 0 <= i < l.len() && l[i].0 == k;
        assert(ks[i] == k);
        assert(ks.to_set().contains(ks[i]));
    }
    assert(pairs_map(l) =~= t);
}

/// Empties a table, handing back every entry once.
pub fn drain_table(m: &mut HashMap<u16, String>) -> (out: Vec<(u16, String)>)
    ensures
        final(m)@ == Map::<u16, String>::empty(),
        codes_unique(pairs_view(out@)),
        pairs_map(pairs_view(out@)) == table_view(old(m)@),
{
    let ks = table_codes(m);
    let ghost t = table_view(m@);
    let ghost orig = m@;
    let mut out: Vec<(u16, String)> = Vec::new();
    let n = ks.len();
    for i in 0..n
        invariant
            n == ks@.len(),
            ks@.no_duplicates(),
            ks@.to_set() == orig.dom(),
            t == table_view(orig),
            m@ == orig.remove_keys(ks@.take(i as int).to_set()),
            pairs_view(out@) == listed(ks@.take(i as int), t),
    {
        let k = ks[i];
        proof {
            assert(orig.dom().contains(k)) by {
                assert(ks@.to_set().contains(ks@[i as int]));
            }
            assert(!ks@.take(i as int).contains(k)) by {
                if ks@.take(i as int).contains(k) {
                    let j = choose|j: int| 0 <= j < i && ks@.take(i as int)[j] == k;
                    assert(ks@[j] == ks@[i as int]);
                }
            }
            assert(!ks@.take(i as int).to_set().contains(k));
        }
        let v = m.remove(&k);
        match v {
            Some(v) => {
                proof {
                    assert(ks@.take(i as int + 1) =~= ks@.take(i as int).push(k));
                    assert(ks@.take(i as int + 1).to_set() =~= ks@.take(i as int).to_set().insert(k)) by {
                        let a = ks@.take(i as int + 1);
                        let b = ks@.take(i as int);
                        assert forall|x: u16| a.to_set().contains(x) implies b.to_set().insert(k).contains(x) by {
                            let j = choose|j: int| 0 <= j < a.len() && a[j] == x;
                            if j < i { assert(b[j] == x); }
                        }
                        assert forall|x: u16| b.to_set().insert(k).contains(x) implies a.to_set().contains(x) by {
                            if x == k { assert(a[i as int] == k); } else {
                                let j = choose|j: int| 0 <= j < b.len() && b[j] == x;
                                assert(a[j] == x);
                            }
                        }
                    }
                    assert(m@ =~= orig.remove_keys(ks@.take(i as int + 1).to_set()));
                    assert(v@ == t[k]);
                }
                let ghost prev = out@;
                let ghost vv = v@;
                out.push((k, v));
                proof {
                    assert(pairs_view(prev).len() == i);
                    assert(prev.len() == i);
                    assert(out@.len() == i + 1);
                    assert(out@[i as int].0 == k);
                    assert(out@.len() == i + 1);
                    let l = listed(ks@.take(i as int + 1), t);
                    let pv = pairs_view(out@);
                    assert(pv.len() == l.len());
                    assert forall|j: int| 0 <= j < pv.len() implies pv[j] == l[j] by {
                        if j < i {
                            assert(out@[j] == prev[j]);
                            assert(pv[j] == pairs_view(prev)[j]);
                            assert(pv[j] == listed(ks@.take(i as int), t)[j]);
                        } else {
                            assert(out@[j].1@ == vv);
                        }
                    }
                    assert(pv =~= l);
                }
            },
            None => {
                proof { assert(false); }
            },
        }
    }
    proof {
        assert(ks@.take(n as int) =~= ks@);
        assert(m@ =~= Map::<u16, String>::empty());
        assert(t.dom() =~= orig.dom());
        lemma_listed_map(ks@, t);
    }
    out
}

/// Removes and hands back, each once, the entries whose destination is `dest`.
pub fn take_to(m: &mut HashMap<u16, String>, dest: &str) -> (out: Vec<(u16, String)>)
    ensures
        table_view(final(m)@) == entries_not_to(table_view(old(m)@), dest@),
        codes_unique(pairs_view(out@)),
        pairs_map(pairs_view(out@)) == entries_to(table_view(old(m)@), dest@),
{
    let ks = table_codes(m);
    let ghost t = table_view(m@);
    let ghost orig = m@;
    let ghost d = dest@;
    let mut out: Vec<(u16, String)> = Vec::new();
    let n = ks.len();
    for i in 0..n
        invariant
            n == ks@.len(),
            ks@.no_duplicates(),
            ks@.to_set() == orig.dom(),
            t == table_view(orig),
            d == dest@,
            m@ == orig.remove_keys(ks@.take(i as int).to_set().filter(|k: u16| t[k] == d)),
            codes_unique(pairs_view(out@)),
            forall|j: int| 0 <= j < out@.len() ==> {
                &&& (#[trigger] pairs_view(out@)[j]).1 == d
                &&& t[pairs_view(out@)[j].0] == d
                &&& ks@.take(i as int).contains(pairs_view(out@)[j].0)
            },
            forall|k: u16| ks@.take(i as int).contains(k) && t[k] == d ==> exists|j: int|
                0 <= j < out@.len() && (#[trigger] pairs_view(out@)[j]).0 == k,
    {
        let k = ks[i];
        let ghost before = ks@.take(i as int);
        let ghost after = ks@.take(i as int + 1);
        proof {
            assert(after =~= before.push(k));
            assert(orig.dom().contains(k)) by {
                assert(ks@.to_set().contains(ks@[i as int]));
            }
            assert(!before.contains(k)) by {
                if before.contains(k) {
                    let j = choose|j: int| 0 <= j < i && before[j] == k;
                    assert(ks@[j] == ks@[i as int]);
                }
            }
            assert forall|x: u16| after.contains(x) <==> before.contains(x) || x == k by {
                if after.contains(x) {
                    let j = choose|j: int| 0 <= j < after.len() && after[j] == x;
                    if j < i { assert(before[j] == x); }
                }
                if before.contains(x) {
                    let j = choose|j: int| 0 <= j < before.len() && before[j] == x;
                    assert(after[j] == x);
                }
                if x == k { assert(after[i as int] == k); }
            }
        }
        let matches = match m.get(&k) {
            Some(v) => str_eq(v.as_str(), dest),
            None => false,
        };
        proof {
            assert(m@.contains_key(k));
            assert(m@[k] == orig[k]);
            assert(matches == (t[k] == d));
        }
        if matches {
            let removed = m.remove(&k);
            match removed {
                Some(v) => {
                    let ghost prev = out@;
                    proof {
                        assert(v@ == d);
                        assert(m@ =~= orig.remove_keys(after.to_set().filter(|x: u16| t[x] == d)));
                    }
                    out.push((k, v));
                    proof {
                        let pv = pairs_view(out@);
                        assert(pairs_view(prev).len() == prev.len());
                        assert(pv.len() == prev.len() + 1);
                        assert(forall|j: int| 0 <= j < prev.len() ==> pv[j] == pairs_view(prev)[j]);
                        assert(pv[prev.len() as int] == (k, d));
                        assert forall|x: int, y: int| 0 <= x < pv.len() && 0 <= y < pv.len() && x != y implies pv[x].0 != pv[y].0 by {
                            if x < prev.len() && y < prev.len() {
                                assert(pv[x] == pairs_view(prev)[x]);
                                assert(pv[y] == pairs_view(prev)[y]);
                            } else if x < prev.len() {
                                assert(pv[x] == pairs_view(prev)[x]);
                                assert(before.contains(pairs_view(prev)[x].0));
                            } else if y < prev.len() {
                                assert(pv[y] == pairs_view(prev)[y]);
                                assert(before.contains(pairs_view(prev)[y].0));
                            }
                        }
                        assert forall|j: int| 0 <= j < out@.len() implies {
                            &&& (#[trigger] pairs_view(out@)[j]).1 == d
                            &&& t[pairs_view(out@)[j].0] == d
                            &&& after.contains(pairs_view(out@)[j].0)
                        } by {
                            if j < prev.len() {
                                assert(pv[j] == pairs_view(prev)[j]);
                            }
                        }
                        assert forall|x: u16| after.contains(x) && t[x] == d implies exists|j: int|
                            0 <= j < out@.len() && (#[trigger] pairs_view(out@)[j]).0 == x by {
                            if x == k {
                                assert(pv[prev.len() as int].0 == k);
                            } else {
                                assert(before.contains(x));
                                let j = choose|j: int| 0 <= j < prev.len() && (#[trigger] pairs_view(prev)[j]).0 == x;
                                assert(pv[j] == pairs_view(prev)[j]);
                            }
                        }
                    }
                },
                None => {
                    proof { assert(false); }
                },
            }
        } else {
            proof {
                assert(m@ =~= orig.remove_keys(after.to_set().filter(|x: u16| t[x] == d)));
                let pv = pairs_view(out@);
                assert forall|x: u16| after.contains(x) && t[x] == d implies exists|j: int|
                    0 <= j < out@.len() && (#[trigger] pairs_view(out@)[j]).0 == x by {
                    assert(before.contains(x));
                }
            }
        }
    }
    proof {
        assert(ks@.take(n as int) =~= ks@);
        let pv = pairs_view(out@);
        let want = entries_to(t, d);
        assert(t.dom() =~= orig.dom());
        assert forall|x: u16| #[trigger] want.dom().contains(x) implies pairs_map(pv).dom().contains(x) && pairs_map(pv)[x] == want[x] by {
            assert(ks@.to_set().contains(x));
            let j = choose|j: int| 0 <= j < out@.len() && (#[trigger] pairs_view(out@)[j]).0 == x;
            let c = choose|c: int| 0 <= c < pv.len() && pv[c].0 == x;
            assert(c == j);
        }
        assert forall|x: u16| pairs_map(pv).dom().contains(x) implies #[trigger] want.dom().contains(x) by {
            let j = choose|j: int| 0 <= j < pv.len() && pv[j].0 == x;
            assert(pv[j] == pairs_view(out@)[j]);
            assert(ks@.to_set().contains(x));
        }
        assert(pairs_map(pv) =~= want);
        assert(table_view(m@) =~= entries_not_to(t, d));
    }
    out
}

} // verus!
