//! The switch shortcut: which switch keys are down, when the chord is complete and
//! the destination moves on, which of the chord's own events are withheld, and when
//! the chord is over.

use vstd::prelude::*;

verus! {

/// The shortcut's state seen abstractly: the switch keys that are down, and whether
/// the chord has been engaged (completed once) since it was last fully released.
pub struct ChordView {
    pub pressed: Set<u16>,
    pub engaged: bool,
}

/// What one key event means for the shortcut.
#[derive(Debug, Clone, Copy, PartialEq, Eq)]
pub struct ChordAction {
    /// The key is one of the switch keys (a sync event follows it when it is routed).
    pub switch_key: bool,
    /// Every switch key is down: the destination moves on now.
    pub switch_now: bool,
    /// The event belongs to the engaged chord and is withheld.
    pub suppress: bool,
    /// The event released the last switch key: once it is routed, the chord is over.
    pub finish_chord: bool,
}

/// The shortcut after one key event, and what the event means for it.
pub open spec fn chord_next(c: ChordView, switch_keys: Seq<u16>, key: u16, down: bool, propagate: bool) -> (ChordView, ChordAction) {
    let is_sk = switch_keys.contains(key);
    let pressed = if !is_sk {
        c.pressed
    } else if down {
        c.pressed.insert(key)
    } else {
        c.pressed.remove(key)
    };
    let switch_now = is_sk && pressed.len() == switch_keys.len();
    let finish = is_sk && pressed.len() == 0;
    let a = ChordAction {
        switch_key: is_sk,
        switch_now,
        suppress: is_sk && !propagate && (c.engaged || switch_now),
        finish_chord: finish,
    };
    let engaged = if finish { false } else { c.engaged || switch_now };
    (ChordView { pressed, engaged }, a)
}

/// The switch keys that are down, and whether the chord is engaged.
#[derive(Debug)]
pub struct ChordState {
    pressed: Vec<u16>,
    chord_active: bool,
}

impl View for ChordState {
    type V = ChordView;

    closed spec fn view(&self) -> ChordView {
        ChordView { pressed: self.pressed@.to_set(), engaged: self.chord_active }
    }
}

fn position_of(v: &Vec<u16>, key: u16) -> (r: Option<usize>)
    ensures
        r matches Some(i) ==> i < v@.len() && v@[i as int] == key,
        r is None ==> !v@.contains(key),
{
    let mut i: usize = 0;
    while i < v.len()
        invariant
            i <= v@.len(),
            forall|j: int| 0 <= j < i ==> v@[j] != key,
        decreases v@.len() - i,
    {
        if v[i] == key {
            return Some(i);
        }
        i = i + 1;
    }
    None
}

impl ChordState {
    /// Every pressed switch key is recorded once and is one of `switch_keys`.
    pub closed spec fn wf(&self, switch_keys: Seq<u16>) -> bool {
        &&& self.pressed@.no_duplicates()
        &&& forall|i: int| 0 <= i < self.pressed@.len() ==> switch_keys.contains(#[trigger] self.pressed@[i])
    }

    /// No switch key down, the chord not engaged.
    pub fn new() -> (st: Self)
        ensures
            forall|switch_keys: Seq<u16>| #[trigger] st.wf(switch_keys),
            st@.pressed == Set::<u16>::empty(),
            !st@.engaged,
    {
        let st = ChordState { pressed: Vec::new(), chord_active: false };
        assert(st.pressed@.to_set() =~= Set::<u16>::empty());
        st
    }

    /// The switch keys down are a subset of the switch keys.
    pub proof fn lemma_pressed_within(&self, switch_keys: Seq<u16>)
        requires
            self.wf(switch_keys),
        ensures
            self@.pressed.subset_of(switch_keys.to_set()),
            self@.pressed.finite(),
    {
    }
}

impl Default for ChordState {
    fn default() -> (st: Self)
        ensures
            forall|switch_keys: Seq<u16>| #[trigger] st.wf(switch_keys),
            st@.pressed == Set::<u16>::empty(),
            !st@.engaged,
    {
        ChordState::new()
    }
}

/// Takes one key event into the shortcut's state and says what it means: whether
/// the destination moves on now, whether the event is withheld (the engaged chord's
/// own keys, unless they are to be propagated), and whether the chord is over once
/// the event is routed.
pub fn chord_step(st: &mut ChordState, switch_keys: &Vec<u16>, key: u16, down: bool, propagate: bool) -> (a: ChordAction)
    requires
        old(st).wf(switch_keys@),
        switch_keys@.no_duplicates(),
    ensures
        final(st).wf(switch_keys@),
        (final(st)@, a) == chord_next(old(st)@, switch_keys@, key, down, propagate),
        a.switch_now <==> (switch_keys@.contains(key) && final(st)@.pressed == switch_keys@.to_set()),
{
    proof {
        old(st).lemma_pressed_within(switch_keys@);
        law_chord_fires_only_when_complete(old(st)@, switch_keys@, key, down, propagate);
    }
    let ghost old_seq = st.pressed@;
    let is_sk = position_of(switch_keys, key).is_some();
    if is_sk {
        match position_of(&st.pressed, key) {
            Some(i) => {
                if !down {
                    st.pressed.remove(i);
                    proof {
                        let s = st.pressed@;
                        assert(s =~= old_seq.remove(i as int));
                        assert forall|x: u16| #[trigger] s.to_set().contains(x) <==> old_seq.to_set().remove(key).contains(x) by {
                            if s.contains(x) {
                                let j = choose|j: int| 0 <= j < s.len() && s[j] == x;
                                if j < i {
                                    assert(old_seq[j] == x);
                                } else {
                                    assert(old_seq[j + 1] == x);
                                }
                            }
                            if x != key && old_seq.contains(x) {
                                let j = choose|j: int| 0 <= j < old_seq.len() && old_seq[j] == x;
                                if j < i {
                                    assert(s[j] == x);
                                } else {
                                    assert(j != i);
                                    assert(s[j - 1] == x);
                                }
                            }
                        }
                        assert(s.to_set() =~= old_seq.to_set().remove(key));
                        assert forall|a: int, b: int| 0 <= a < b < s.len() implies s[a] != s[b] by {
                            let a2 = if a < i { a } else { a + 1 };
                            let b2 = if b < i { b } else { b + 1 };
                            assert(s[a] == old_seq[a2]);
                            assert(s[b] == old_seq[b2]);
                        }
                        assert forall|j: int| 0 <= j < s.len() implies switch_keys@.contains(#[trigger] s[j]) by {
                            let j2 = if j < i { j } else { j + 1 };
                            assert(s[j] == old_seq[j2]);
                        }
                    }
                } else {
                    proof {
                        assert(old_seq.to_set().insert(key) =~= old_seq.to_set());
                    }
                }
            },
            None => {
                if down {
                    st.pressed.push(key);
                    proof {
                        let s = st.pressed@;
                        assert(s =~= old_seq.push(key));
                        assert(s.to_set() =~= old_seq.to_set().insert(key)) by {
                            assert forall|x: u16| #[trigger] s.to_set().contains(x) <==> old_seq.to_set().insert(key).contains(x) by {
                                if s.contains(x) {
                                    let j = choose|j: int| 0 <= j < s.len() && s[j] == x;
                                    if j < old_seq.len() {
                                        assert(old_seq[j] == x);
                                    }
                                }
                                if old_seq.contains(x) {
                                    let j = choose|j: int| 0 <= j < old_seq.len() && old_seq[j] == x;
                                    assert(s[j] == x);
                                }
                                if x == key {
                                    assert(s[old_seq.len() as int] == x);
                                }
                            }
                        }
                        assert forall|j: int| 0 <= j < s.len() implies switch_keys@.contains(#[trigger] s[j]) by {
                            if j < old_seq.len() {
                                assert(s[j] == old_seq[j]);
                            }
                        }
                    }
                } else {
                    proof {
                        assert(old_seq.to_set().remove(key) =~= old_seq.to_set());
                    }
                }
            },
        }
    }
    proof {
        st.pressed@.unique_seq_to_set();
        switch_keys@.unique_seq_to_set();
    }
    let n = st.pressed.len();
    let switch_now = is_sk && n == switch_keys.len();
    let finish = is_sk && n == 0;
    let suppress = is_sk && !propagate && (st.chord_active || switch_now);
    if switch_now {
        st.chord_active = true;
    }
    if finish {
        st.chord_active = false;
    }
    ChordAction { switch_key: is_sk, switch_now, suppress, finish_chord: finish }
}

/// Only switch keys touch the shortcut: any other key is never withheld and leaves
/// the shortcut as it was. Propagated chords are never withheld. Completing the chord
/// engages it, and releasing its last key leaves nothing pressed and disengages it.
pub proof fn law_chord_basics(c: ChordView, switch_keys: Seq<u16>, key: u16, down: bool, propagate: bool)
    ensures
        ({
            let (n, a) = chord_next(c, switch_keys, key, down, propagate);
            &&& (!switch_keys.contains(key) ==> n == c && !a.suppress && !a.switch_now && !a.finish_chord)
            &&& (propagate ==> !a.suppress)
            &&& (a.switch_now ==> n.engaged && n.pressed.contains(key) == down)
            &&& (a.finish_chord ==> n.pressed.len() == 0 && !n.engaged)
        }),
{
}

/// The chord fires exactly when the event leaves every configured switch key down:
/// while some switch key is still up the destination never moves, however many of
/// the others are held. The keys counted as down stay among the switch keys.
pub proof fn law_chord_fires_only_when_complete(c: ChordView, switch_keys: Seq<u16>, key: u16, down: bool, propagate: bool)
    requires
        c.pressed.subset_of(switch_keys.to_set()),
        switch_keys.no_duplicates(),
    ensures
        ({
            let (n, a) = chord_next(c, switch_keys, key, down, propagate);
            &&& n.pressed.subset_of(switch_keys.to_set())
            &&& a.switch_now <==> (switch_keys.contains(key) && n.pressed == switch_keys.to_set())
        }),
{
    broadcast use vstd::seq_lib::seq_to_set_is_finite;
    let all = switch_keys.to_set();
    let (n, a) = chord_next(c, switch_keys, key, down, propagate);
    switch_keys.unique_seq_to_set();
    assert(all.finite());
    assert(n.pressed.subset_of(all));
    vstd::set_lib::lemma_len_subset(n.pressed, all);
    if a.switch_now {
        vstd::set_lib::lemma_subset_equality(n.pressed, all);
    }
}

} // verus!
