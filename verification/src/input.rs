//! Held keys and buttons, each remembered with the destination that got its press.

use vstd::prelude::*;
use std::collections::HashMap;
use crate::held::{codes_unique, drain_table, pairs_map, pairs_view, table_view};

verus! {

broadcast use vstd::std_specs::hash::group_hash_axioms;

/// Abstract state: held keys and held buttons, each mapped to a destination.
pub struct InputView {
    pub keys: Map<u16, Seq<char>>,
    pub buttons: Map<u16, Seq<char>>,
}

/// Which destination received the press of every key and button still held.
#[derive(Debug)]
pub struct InputState {
    keys: HashMap<u16, String>,
    buttons: HashMap<u16, String>,
}

impl View for InputState {
    type V = InputView;

    closed spec fn view(&self) -> InputView {
        InputView { keys: table_view(self.keys@), buttons: table_view(self.buttons@) }
    }
}

/// A drained entry with its kind dropped (`true` for a button).
pub open spec fn triple_pairs(s: Seq<(u16, String, bool)>) -> Seq<(u16, Seq<char>)> {
    s.map_values(|t: (u16, String, bool)| (t.0, t.1@))
}

impl InputState {
    /// Nothing held.
    pub fn new() -> (s: InputState)
        ensures
            s@.keys == Map::<u16, Seq<char>>::empty(),
            s@.buttons == Map::<u16, Seq<char>>::empty(),
    {
        let s = InputState { keys: HashMap::new(), buttons: HashMap::new() };
        proof {
            assert(table_view(s.keys@) =~= Map::<u16, Seq<char>>::empty());
            assert(table_view(s.buttons@) =~= Map::<u16, Seq<char>>::empty());
        }
        s
    }

    /// Records that key `code` went down towards `dest`.
    pub fn press_key(&mut self, code: u16, dest: String)
        ensures
            final(self)@.keys == old(self)@.keys.insert(code, dest@),
            final(self)@.buttons == old(self)@.buttons,
    {
        let ghost d = dest@;
        self.keys.insert(code, dest);
        proof {
            assert(table_view(self.keys@) =~= table_view(old(self).keys@).insert(code, d));
        }
    }

    /// Forgets key `code`, giving back where its press went.
    pub fn release_key(&mut self, code: u16) -> (r: Option<String>)
        ensures
            final(self)@.keys == old(self)@.keys.remove(code),
            final(self)@.buttons == old(self)@.buttons,
            match r {
                Some(d) => old(self)@.keys.contains_key(code) && d@ == old(self)@.keys[code],
                None => !old(self)@.keys.contains_key(code),
            },
    {
        let r = self.keys.remove(&code);
        proof {
            assert(table_view(self.keys@) =~= table_view(old(self).keys@).remove(code));
        }
        r
    }

    /// Records that button `code` went down towards `dest`.
    pub fn press_button(&mut self, code: u16, dest: String)
        ensures
            final(self)@.buttons == old(self)@.buttons.insert(code, dest@),
            final(self)@.keys == old(self)@.keys,
    {
        let ghost d = dest@;
        self.buttons.insert(code, dest);
        proof {
            assert(table_view(self.buttons@) =~= table_view(old(self).buttons@).insert(code, d));
        }
    }

    /// Forgets button `code`, giving back where its press went.
    pub fn release_button(&mut self, code: u16) -> (r: Option<String>)
        ensures
            final(self)@.buttons == old(self)@.buttons.remove(code),
            final(self)@.keys == old(self)@.keys,
            match r {
                Some(d) => old(self)@.buttons.contains_key(code) && d@ == old(self)@.buttons[code],
                None => !old(self)@.buttons.contains_key(code),
            },
    {
        let r = self.buttons.remove(&code);
        proof {
            assert(table_view(self.buttons@) =~= table_view(old(self).buttons@).remove(code));
        }
        r
    }

    /// Forgets everything held: first every key (`false`), then every button (`true`),
    /// each once with the destination of its press.
    pub fn drain(&mut self) -> (out: Vec<(u16, String, bool)>)
        ensures
            final(self)@.keys == Map::<u16, Seq<char>>::empty(),
            final(self)@.buttons == Map::<u16, Seq<char>>::empty(),
            exists|split: int| {
                &&& 0 <= split <= out@.len()
                &&& forall|j: int| 0 <= j < out@.len() ==> ((#[trigger] out@[j]).2 <==> j >= split)
                &&& codes_unique(triple_pairs(out@.take(split)))
                &&& pairs_map(triple_pairs(out@.take(split))) == old(self)@.keys
                &&& codes_unique(triple_pairs(out@.skip(split)))
                &&& pairs_map(triple_pairs(out@.skip(split))) == old(self)@.buttons
            },
    {
        let ks = drain_table(&mut self.keys);
        let bs = drain_table(&mut self.buttons);
        let mut out: Vec<(u16, String, bool)> = Vec::new();
        let ghost kv = pairs_view(ks@);
        let ghost bv = pairs_view(bs@);
        let nk = ks.len();
        for p in it: ks
            invariant
                nk == kv.len(),
                kv == pairs_view(it.seq()),
                out@.len() == it.index(),
                forall|j: int| 0 <= j < out@.len() ==> (out@[j].0, out@[j].1@) == kv[j] && !out@[j].2,
        {
            let (c, d) = p;
            out.push((c, d, false));
        }
        for p in it2: bs
            invariant
                nk == kv.len(),
                bv == pairs_view(it2.seq()),
                out@.len() == nk + it2.index(),
                forall|j: int| 0 <= j < nk ==> (out@[j].0, out@[j].1@) == kv[j] && !out@[j].2,
                forall|j: int| nk <= j < out@.len() ==> (out@[j].0, out@[j].1@) == bv[j - nk] && out@[j].2,
        {
            let (c, d) = p;
            out.push((c, d, true));
        }
        proof {
            assert(triple_pairs(out@.take(nk as int)) =~= kv);
            assert(triple_pairs(out@.skip(nk as int)) =~= bv);
            assert(table_view(self.keys@) =~= Map::<u16, Seq<char>>::empty());
            assert(table_view(self.buttons@) =~= Map::<u16, Seq<char>>::empty());
            assert forall|j: int| 0 <= j < out@.len() implies ((#[trigger] out@[j]).2 <==> j >= nk) by {
                if j < nk {
                    assert((out@[j].0, out@[j].1@) == kv[j] && !out@[j].2);
                } else {
                    assert((out@[j].0, out@[j].1@) == bv[j - nk] && out@[j].2);
                }
            }
        }
        out
    }

    /// Nothing is held.
    pub fn is_clear(&self) -> (r: bool)
        ensures
            r == (self@.keys.is_empty() && self@.buttons.is_empty()),
    {
        let a = self.keys.is_empty();
        let b = self.buttons.is_empty();
        proof {
            assert(self@.keys.dom() =~= self.keys@.dom());
            assert(self@.buttons.dom() =~= self.buttons@.dom());
        }
        a && b
    }
}

impl Default for InputState {
    fn default() -> (s: InputState)
        ensures
            s@.keys == Map::<u16, Seq<char>>::empty(),
            s@.buttons == Map::<u16, Seq<char>>::empty(),
    {
        InputState::new()
    }
}

} // verus!
