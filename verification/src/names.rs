//! File-name hygiene for received clipboard files: a name from a peer can only
//! ever denote a path inside the local inbox.

use vstd::prelude::*;
use crate::text::{chars_of, string_of};

verus! {

pub open spec fn is_sep(c: char, backslash: bool) -> bool {
    c == '/' || (backslash && c == '\\')
}

/// Pieces of `s` between separators, empty pieces included (as `str::split` gives them).
pub open spec fn split_by(s: Seq<char>, backslash: bool) -> Seq<Seq<char>>
    decreases s.len(),
{
    if s.len() == 0 {
        seq![Seq::empty()]
    } else {
        let r = split_by(s.drop_last(), backslash);
        if is_sep(s.last(), backslash) {
            r.push(Seq::empty())
        } else {
            r.update(r.len() - 1, r.last().push(s.last()))
        }
    }
}

pub open spec fn dot() -> Seq<char> {
    seq!['.']
}

pub open spec fn dotdot() -> Seq<char> {
    seq!['.', '.']
}

/// A piece that names something: not empty and not `.`.
pub open spec fn is_named(p: Seq<char>) -> bool {
    p.len() > 0 && p != dot()
}

/// The last piece that names something, if any (the final component of a path).
pub open spec fn last_named(ps: Seq<Seq<char>>) -> Option<Seq<char>>
    decreases ps.len(),
{
    if ps.len() == 0 {
        None
    } else if is_named(ps.last()) {
        Some(ps.last())
    } else {
        last_named(ps.drop_last())
    }
}

/// Characters kept in a file name; every other becomes `_`.
pub open spec fn keep_char(c: char) -> bool {
    ('0' <= c && c <= '9') || ('a' <= c && c <= 'z') || ('A' <= c && c <= 'Z') || c == '.' || c
        == '-' || c == '_' || c == ' '
}

pub open spec fn clean_char(c: char) -> char {
    if keep_char(c) {
        c
    } else {
        '_'
    }
}

/// A base name with unsafe characters replaced, cut to 128 characters.
pub open spec fn cleaned(b: Seq<char>) -> Seq<char> {
    let c = b.map_values(|x: char| clean_char(x));
    if c.len() > 128 {
        c.take(128)
    } else {
        c
    }
}

pub open spec fn all_spaces(c: Seq<char>) -> bool {
    forall|i: int| 0 <= i < c.len() ==> c[i] == ' '
}

/// The safe name made from a base name, if it yields one.
pub open spec fn name_from_base(b: Seq<char>) -> Option<Seq<char>> {
    if b == dotdot() {
        None
    } else if all_spaces(cleaned(b)) {
        None
    } else {
        Some(cleaned(b))
    }
}

/// Final component of `name` (a `/`-separated path), made safe.
pub open spec fn spec_safe_file_name(name: Seq<char>) -> Option<Seq<char>> {
    match last_named(split_by(name, false)) {
        None => None,
        Some(b) => name_from_base(b),
    }
}

/// Safe components of a relative path, or `None` when a `..` or an unusable
/// component occurs.
pub open spec fn rel_parts(ps: Seq<Seq<char>>) -> Option<Seq<Seq<char>>>
    decreases ps.len(),
{
    if ps.len() == 0 {
        Some(Seq::empty())
    } else {
        match rel_parts(ps.drop_last()) {
            None => None,
            Some(done) => {
                let p = ps.last();
                if !is_named(p) {
                    Some(done)
                } else if p == dotdot() {
                    None
                } else {
                    match spec_safe_file_name(p) {
                        None => None,
                        Some(c) => Some(done.push(c)),
                    }
                }
            },
        }
    }
}

/// Pieces joined by `/`.
pub open spec fn join_slash(ps: Seq<Seq<char>>) -> Seq<char>
    decreases ps.len(),
{
    if ps.len() == 0 {
        Seq::empty()
    } else if ps.len() == 1 {
        ps[0]
    } else {
        join_slash(ps.drop_last()) + seq!['/'] + ps.last()
    }
}

pub open spec fn spec_safe_rel_path(name: Seq<char>) -> Option<Seq<char>> {
    match rel_parts(split_by(name, true)) {
        None => None,
        Some(ps) => if ps.len() == 0 {
            None
        } else {
            Some(join_slash(ps))
        },
    }
}

/// A relative path that stays below the directory it is joined to: it is not empty,
/// does not start at the root, holds no backslash, and each `/`-separated component
/// is a non-empty name other than `.` and `..`, of safe characters only.
pub open spec fn confined_rel(r: Seq<char>) -> bool {
    &&& r.len() > 0
    &&& r[0] != '/'
    &&& forall|i: int| 0 <= i < r.len() ==> keep_char(r[i]) || r[i] == '/'
    &&& forall|k: int| 0 <= k < split_by(r, false).len() ==> {
        let p = #[trigger] split_by(r, false)[k];
        &&& is_named(p)
        &&& p != dotdot()
    }
}

pub open spec fn pieces_view(v: Seq<Vec<char>>) -> Seq<Seq<char>> {
    v.map_values(|p: Vec<char>| p@)
}

pub proof fn lemma_split_len(s: Seq<char>, backslash: bool)
    ensures
        split_by(s, backslash).len() >= 1,
    decreases s.len(),
{
    if s.len() > 0 {
        lemma_split_len(s.drop_last(), backslash);
    }
}

pub(crate) fn split_chars(v: &Vec<char>, backslash: bool) -> (segs: Vec<Vec<char>>)
    ensures
        pieces_view(segs@) == split_by(v@, backslash),
{
    let mut segs: Vec<Vec<char>> = Vec::new();
    let mut cur: Vec<char> = Vec::new();
    let n = v.len();
    for i in 0..n
        invariant
            n == v@.len(),
            pieces_view(segs@).push(cur@) == split_by(v@.take(i as int), backslash),
    {
        let c = v[i];
        let ghost before = v@.take(i as int);
        proof {
            assert(v@.take(i as int + 1).drop_last() =~= before);
            assert(v@.take(i as int + 1).last() == c);
            lemma_split_len(before, backslash);
        }
        let ghost prev_segs = pieces_view(segs@);
        let ghost prev_cur = cur@;
        if c == '/' || (backslash && c == '\\') {
            let mut done: Vec<char> = Vec::new();
            std::mem::swap(&mut done, &mut cur);
            segs.push(done);
            proof {
                assert(pieces_view(segs@) =~= prev_segs.push(prev_cur));
                assert(pieces_view(segs@).push(cur@) =~= split_by(v@.take(i as int + 1), backslash));
            }
        } else {
            cur.push(c);
            proof {
                let r = split_by(before, backslash);
                assert(r == prev_segs.push(prev_cur));
                assert(pieces_view(segs@).push(cur@) =~= r.update(r.len() - 1, r.last().push(c)));
            }
        }
    }
    proof {
        assert(v@.take(n as int) =~= v@);
    }
    let ghost prev_segs = pieces_view(segs@);
    let ghost prev_cur = cur@;
    segs.push(cur);
    proof {
        assert(pieces_view(segs@) =~= prev_segs.push(prev_cur));
    }
    segs
}

fn is_dot(p: &Vec<char>) -> (r: bool)
    ensures
        r == (p@ == dot()),
{
    if p.len() == 1 && p[0] == '.' {
        assert(p@ =~= dot());
        true
    } else {
        false
    }
}

fn is_dotdot(p: &Vec<char>) -> (r: bool)
    ensures
        r == (p@ == dotdot()),
{
    if p.len() == 2 && p[0] == '.' && p[1] == '.' {
        assert(p@ =~= dotdot());
        true
    } else {
        false
    }
}

fn is_keep(c: char) -> (r: bool)
    ensures
        r == keep_char(c),
{
    ('0' <= c && c <= '9') || ('a' <= c && c <= 'z') || ('A' <= c && c <= 'Z') || c == '.' || c
        == '-' || c == '_' || c == ' '
}

fn name_from_base_exec(b: &Vec<char>) -> (r: Option<Vec<char>>)
    ensures
        match r {
            None => name_from_base(b@) is None,
            Some(c) => name_from_base(b@) == Some(c@),
        },
{
    if is_dotdot(b) {
        return None;
    }
    let mut c: Vec<char> = Vec::new();
    let n = b.len();
    let lim: usize = if n > 128 { 128 } else { n };
    let mut spaces = true;
    for i in 0..lim
        invariant
            n == b@.len(),
            lim <= n,
            lim == (if n > 128 { 128 } else { n }),
            c@ == b@.map_values(|x: char| clean_char(x)).take(i as int),
            spaces == all_spaces(c@),
    {
        let x = b[i];
        let y = if is_keep(x) { x } else { '_' };
        let ghost prev = c@;
        c.push(y);
        proof {
            assert(c@ =~= b@.map_values(|x: char| clean_char(x)).take(i as int + 1));
        }
        if y != ' ' {
            spaces = false;
        }
        proof {
            if y != ' ' {
                assert(c@[i as int] == y);
            }
            if spaces {
                assert forall|j: int| 0 <= j < c@.len() implies c@[j] == ' ' by {
                    if j < i {
                        assert(c@[j] == prev[j]);
                    }
                }
            } else if y == ' ' {
                assert(!all_spaces(prev));
                let j = choose|j: int| 0 <= j < prev.len() && prev[j] != ' ';
                assert(c@[j] == prev[j]);
            }
        }
    }
    proof {
        let m = b@.map_values(|x: char| clean_char(x));
        if n <= 128 {
            assert(m.take(lim as int) =~= m);
        }
        assert(c@ == cleaned(b@));
    }
    if spaces {
        None
    } else {
        Some(c)
    }
}

pub(crate) proof fn lemma_last_named_found(ps: Seq<Seq<char>>, i: int)
    requires
        0 <= i < ps.len(),
        is_named(ps[i]),
        forall|k: int| i < k < ps.len() ==> !is_named(ps[k]),
    ensures
        last_named(ps) == Some(ps[i]),
    decreases ps.len(),
{
    if i < ps.len() - 1 {
        let d = ps.drop_last();
        assert(d[i] == ps[i]);
        assert forall|k: int| i < k < d.len() implies !is_named(d[k]) by {
            assert(d[k] == ps[k]);
        }
        lemma_last_named_found(d, i);
    }
}

pub(crate) proof fn lemma_last_named_none(ps: Seq<Seq<char>>)
    requires
        forall|k: int| 0 <= k < ps.len() ==> !is_named(ps[k]),
    ensures
        last_named(ps) is None,
    decreases ps.len(),
{
    if ps.len() > 0 {
        let d = ps.drop_last();
        assert forall|k: int| 0 <= k < d.len() implies !is_named(d[k]) by {
            assert(d[k] == ps[k]);
        }
        lemma_last_named_none(d);
    }
}

fn file_name_chars(v: &Vec<char>) -> (r: Option<Vec<char>>)
    ensures
        match r {
            None => spec_safe_file_name(v@) is None,
            Some(c) => spec_safe_file_name(v@) == Some(c@),
        },
{
    let segs = split_chars(v, false);
    let mut i = segs.len();
    while i > 0
        invariant
            i <= segs@.len(),
            pieces_view(segs@) == split_by(v@, false),
            forall|k: int| i <= k < segs@.len() ==> !is_named(pieces_view(segs@)[k]),
        decreases i,
    {
        let p = &segs[i - 1];
        if p.len() > 0 && !is_dot(p) {
            proof {
                assert(pieces_view(segs@)[i - 1] == p@);
                lemma_last_named_found(pieces_view(segs@), i - 1);
            }
            return name_from_base_exec(p);
        }
        proof {
            assert(pieces_view(segs@)[i - 1] == p@);
        }
        i = i - 1;
    }
    proof {
        lemma_last_named_none(pieces_view(segs@));
    }
    None
}

/// The final component of a `/`-separated path, with every character other than
/// ASCII letters, digits, `.`, `-`, `_` and space replaced by `_` and cut to 128
/// characters. `None` when there is no final name, when it is `..`, or when only
/// spaces would remain.
pub fn safe_file_name(name: &str) -> (r: Option<String>)
    ensures
        match r {
            None => spec_safe_file_name(name@) is None,
            Some(s) => spec_safe_file_name(name@) == Some(s@),
        },
{
    let v = chars_of(name);
    match file_name_chars(&v) {
        None => None,
        Some(c) => Some(string_of(&c)),
    }
}

pub proof fn lemma_split_no_sep(s: Seq<char>, backslash: bool)
    requires
        forall|i: int| 0 <= i < s.len() ==> !is_sep(s[i], backslash),
    ensures
        split_by(s, backslash) == seq![s],
    decreases s.len(),
{
    if s.len() > 0 {
        lemma_split_no_sep(s.drop_last(), backslash);
        assert(s.drop_last().push(s.last()) =~= s);
        assert(!is_sep(s[s.len() - 1], backslash));
        let r = split_by(s.drop_last(), backslash);
        assert(r.update(r.len() - 1, r.last().push(s.last())) =~= seq![s]);
    } else {
        assert(s =~= Seq::<char>::empty());
    }
}

fn join_pieces(ps: &Vec<Vec<char>>) -> (r: Vec<char>)
    ensures
        r@ == join_slash(pieces_view(ps@)),
{
    let mut r: Vec<char> = Vec::new();
    let n = ps.len();
    for i in 0..n
        invariant
            n == ps@.len(),
            r@ == join_slash(pieces_view(ps@).take(i as int)),
    {
        let ghost pv = pieces_view(ps@).take(i as int + 1);
        proof {
            assert(pv.drop_last() =~= pieces_view(ps@).take(i as int));
            assert(pv.last() == ps@[i as int]@);
        }
        if i > 0 {
            r.push('/');
        }
        let p = &ps[i];
        let m = p.len();
        let ghost start = r@;
        for j in 0..m
            invariant
                m == p@.len(),
                r@ == start + p@.take(j as int),
        {
            r.push(p[j]);
            proof {
                assert(p@.take(j as int + 1) =~= p@.take(j as int).push(p@[j as int]));
            }
        }
        proof {
            assert(p@.take(m as int) =~= p@);
            if i == 0 {
                assert(r@ =~= p@);
                assert(pv.len() == 1);
            }
        }
    }
    proof {
        assert(pieces_view(ps@).take(n as int) =~= pieces_view(ps@));
    }
    r
}

/// A relative path with `/` separators, each component made safe as by
/// [`safe_file_name`]. `/` and `\\` both separate; empty and `.` components are
/// dropped. `None` for a `..` component, for an unusable component, or when
/// nothing remains; so a leading `/` is dropped rather than kept.
pub fn safe_rel_path(name: &str) -> (r: Option<String>)
    ensures
        match r {
            None => spec_safe_rel_path(name@) is None,
            Some(s) => spec_safe_rel_path(name@) == Some(s@),
        },
{
    let v = chars_of(name);
    let segs = split_chars(&v, true);
    let mut parts: Vec<Vec<char>> = Vec::new();
    let n = segs.len();
    for i in 0..n
        invariant
            n == segs@.len(),
            v@ == name@,
            pieces_view(segs@) == split_by(v@, true),
            rel_parts(pieces_view(segs@).take(i as int)) == Some(pieces_view(parts@)),
    {
        let ghost t = pieces_view(segs@).take(i as int + 1);
        proof {
            assert(t.drop_last() =~= pieces_view(segs@).take(i as int));
            assert(t.last() == segs@[i as int]@);
        }
        let p = &segs[i];
        if p.len() == 0 || is_dot(p) {
        } else if is_dotdot(p) {
            proof {
                assert(rel_parts(t) is None);
                lemma_rel_parts_none_stays(pieces_view(segs@), i as int + 1);
            }
            return None;
        } else {
        proof {
            lemma_split_pieces_have_no_sep(v@, true, i as int);
            assert(forall|k: int| 0 <= k < p@.len() ==> !is_sep(p@[k], true));
            assert(forall|k: int| 0 <= k < p@.len() ==> !is_sep(p@[k], false));
            lemma_split_no_sep(p@, false);
            lemma_last_named_found(seq![p@], 0);
        }
        match name_from_base_exec(p) {
            None => {
                proof {
                    assert(rel_parts(t) is None);
                    lemma_rel_parts_none_stays(pieces_view(segs@), i as int + 1);
                }
                return None;
            },
            Some(c) => {
                let ghost prev = pieces_view(parts@);
                parts.push(c);
                proof {
                    assert(pieces_view(parts@) =~= prev.push(c@));
                }
            },
        }
        }
    }
    proof {
        assert(pieces_view(segs@).take(n as int) =~= pieces_view(segs@));
    }
    if parts.len() == 0 {
        return None;
    }
    let j = join_pieces(&parts);
    Some(string_of(&j))
}

proof fn lemma_rel_parts_none_stays(ps: Seq<Seq<char>>, i: int)
    requires
        0 < i <= ps.len(),
        rel_parts(ps.take(i)) is None,
    ensures
        rel_parts(ps) is None,
    decreases ps.len() - i,
{
    if i < ps.len() {
        assert(ps.take(i + 1).drop_last() =~= ps.take(i));
        lemma_rel_parts_none_stays(ps, i + 1);
    } else {
        assert(ps.take(i) =~= ps);
    }
}

proof fn lemma_split_pieces_have_no_sep(s: Seq<char>, backslash: bool, k: int)
    requires
        0 <= k < split_by(s, backslash).len(),
    ensures
        forall|j: int| 0 <= j < split_by(s, backslash)[k].len() ==> !is_sep(
            #[trigger] split_by(s, backslash)[k][j],
            backslash,
        ),
    decreases s.len(),
{
    if s.len() > 0 {
        let r = split_by(s.drop_last(), backslash);
        lemma_split_len(s.drop_last(), backslash);
        if is_sep(s.last(), backslash) {
            if k < r.len() {
                lemma_split_pieces_have_no_sep(s.drop_last(), backslash, k);
            }
        } else {
            lemma_split_pieces_have_no_sep(s.drop_last(), backslash, k);
            if k == r.len() - 1 {
                lemma_split_pieces_have_no_sep(s.drop_last(), backslash, r.len() - 1);
            }
        }
    }
}

/// A component produced by the sanitizer.
pub open spec fn good_part(c: Seq<char>) -> bool {
    &&& c.len() > 0
    &&& c != dot()
    &&& c != dotdot()
    &&& forall|i: int| 0 <= i < c.len() ==> keep_char(c[i])
}

proof fn lemma_cleaned_good(b: Seq<char>)
    requires
        is_named(b),
        b != dotdot(),
    ensures
        good_part(cleaned(b)),
{
    let m = b.map_values(|x: char| clean_char(x));
    let c = cleaned(b);
    assert(forall|i: int| 0 <= i < c.len() ==> c[i] == m[i]);
    assert(forall|i: int| 0 <= i < m.len() ==> m[i] == clean_char(b[i]));
    assert(m.len() == b.len());
    if m.len() > 128 {
        assert(c.len() == 128);
    }
    if c == dot() {
        assert(c.len() == 1);
        assert(b.len() == 1);
        assert(c[0] == '.');
        assert(c[0] == m[0]);
        assert(clean_char(b[0]) == '.');
        assert(b =~= dot());
    }
    if c == dotdot() {
        assert(c.len() == 2);
        assert(b.len() == 2);
        assert(c[0] == '.' && c[1] == '.');
        assert(c[0] == m[0] && c[1] == m[1]);
        assert(clean_char(b[0]) == '.');
        assert(clean_char(b[1]) == '.');
        assert(b =~= dotdot());
    }
}

proof fn lemma_last_named_is_named(ps: Seq<Seq<char>>)
    ensures
        last_named(ps) matches Some(b) ==> is_named(b),
    decreases ps.len(),
{
    if ps.len() > 0 && !is_named(ps.last()) {
        lemma_last_named_is_named(ps.drop_last());
    }
}

proof fn lemma_file_name_good(name: Seq<char>)
    ensures
        spec_safe_file_name(name) matches Some(c) ==> good_part(c),
{
    lemma_last_named_is_named(split_by(name, false));
    if let Some(b) = last_named(split_by(name, false)) {
        if b != dotdot() {
            lemma_cleaned_good(b);
        }
    }
}

proof fn lemma_rel_parts_good(ps: Seq<Seq<char>>)
    ensures
        rel_parts(ps) matches Some(done) ==> forall|k: int| 0 <= k < done.len() ==> good_part(
            #[trigger] done[k],
        ),
    decreases ps.len(),
{
    if ps.len() > 0 {
        lemma_rel_parts_good(ps.drop_last());
        lemma_file_name_good(ps.last());
    }
}

pub proof fn lemma_split_append(x: Seq<char>, y: Seq<char>)
    requires
        forall|i: int| 0 <= i < y.len() ==> !is_sep(y[i], false),
    ensures
        split_by(x.push('/') + y, false) == split_by(x, false).push(y),
    decreases y.len(),
{
    if y.len() == 0 {
        assert(y =~= Seq::<char>::empty());
        assert(x.push('/') + y =~= x.push('/'));
        assert(x.push('/').drop_last() =~= x);
        assert(x.push('/').last() == '/');
    } else {
        assert(!is_sep(y[y.len() - 1], false));
        let y1 = y.drop_last();
        lemma_split_append(x, y1);
        let z = x.push('/') + y;
        assert(z.drop_last() =~= x.push('/') + y1);
        assert(z.last() == y.last());
        assert(y1.push(y.last()) =~= y);
        let r = split_by(x, false).push(y1);
        assert(r.update(r.len() - 1, r.last().push(y.last())) =~= split_by(x, false).push(y));
    }
}

proof fn lemma_join_split(ps: Seq<Seq<char>>)
    requires
        ps.len() > 0,
        forall|k: int| 0 <= k < ps.len() ==> good_part(#[trigger] ps[k]),
    ensures
        split_by(join_slash(ps), false) == ps,
        join_slash(ps).len() > 0,
        join_slash(ps)[0] == ps[0][0],
        forall|i: int| 0 <= i < join_slash(ps).len() ==> keep_char(#[trigger] join_slash(ps)[i])
            || join_slash(ps)[i] == '/',
    decreases ps.len(),
{
    let l = ps.last();
    assert(good_part(ps[ps.len() - 1]));
    assert(forall|i: int| 0 <= i < l.len() ==> !is_sep(l[i], false));
    if ps.len() == 1 {
        lemma_split_no_sep(ps[0], false);
        assert(seq![ps[0]] =~= ps);
    } else {
        let d = ps.drop_last();
        assert forall|k: int| 0 <= k < d.len() implies good_part(#[trigger] d[k]) by {
            assert(d[k] == ps[k]);
        }
        lemma_join_split(d);
        let j = join_slash(d);
        assert(j + seq!['/'] + l =~= j.push('/') + l);
        lemma_split_append(j, l);
        assert(d.push(l) =~= ps);
        let all = j.push('/') + l;
        assert forall|i: int| 0 <= i < all.len() implies keep_char(#[trigger] all[i]) || all[i] == '/' by {
            if i < j.len() {
                assert(all[i] == j[i]);
            } else if i > j.len() {
                assert(all[i] == l[i - j.len() - 1]);
            }
        }
        assert(d[0] == ps[0]);
    }
}

/// A path from [`safe_rel_path`] never leaves the directory it is joined to: it is
/// relative, holds no backslash, and has no empty, `.` or `..` component.
pub proof fn law_safe_rel_path_confined(name: Seq<char>)
    ensures
        spec_safe_rel_path(name) matches Some(r) ==> confined_rel(r),
{
    lemma_rel_parts_good(split_by(name, true));
    if let Some(ps) = rel_parts(split_by(name, true)) {
        if ps.len() > 0 {
            lemma_join_split(ps);
            let r = join_slash(ps);
            assert(good_part(ps[0]));
            assert(keep_char(ps[0][0]));
            assert forall|k: int| 0 <= k < split_by(r, false).len() implies {
                let p = #[trigger] split_by(r, false)[k];
                &&& is_named(p)
                &&& p != dotdot()
            } by {
                assert(good_part(ps[k]));
            }
        }
    }
}

/// A name from [`safe_file_name`] is a single safe component: non-empty, not `.` or
/// `..`, of ASCII letters, digits, `.`, `-`, `_` and spaces only, at most 128 long.
pub proof fn law_safe_file_name_single_component(name: Seq<char>)
    ensures
        spec_safe_file_name(name) matches Some(c) ==> good_part(c) && c.len() <= 128,
{
    lemma_file_name_good(name);
}

proof fn lemma_good_part_fixed(c: Seq<char>)
    requires
        good_part(c),
        c.len() <= 128,
        !all_spaces(c),
    ensures
        spec_safe_file_name(c) == Some(c),
{
    assert forall|i: int| 0 <= i < c.len() implies !is_sep(c[i], false) by {
        assert(keep_char(c[i]));
    }
    lemma_split_no_sep(c, false);
    assert(seq![c].last() == c);
    assert(last_named(seq![c]) == Some(c));
    assert(c.map_values(|x: char| clean_char(x)) =~= c);
    assert(cleaned(c) == c);
}

/// Making a name safe twice changes nothing: a name from [`safe_file_name`] is its own
/// safe name, and it is never blank.
pub proof fn law_safe_file_name_idempotent(name: Seq<char>)
    ensures
        spec_safe_file_name(name) matches Some(c) ==> spec_safe_file_name(c) == Some(c) && !all_spaces(c),
{
    lemma_file_name_good(name);
    if let Some(c) = spec_safe_file_name(name) {
        lemma_good_part_fixed(c);
    }
}

proof fn lemma_split_without_backslash(s: Seq<char>)
    requires
        forall|i: int| 0 <= i < s.len() ==> s[i] != '\\',
    ensures
        split_by(s, true) == split_by(s, false),
    decreases s.len(),
{
    if s.len() > 0 {
        lemma_split_without_backslash(s.drop_last());
        assert(s[s.len() - 1] != '\\');
    }
}

proof fn lemma_rel_parts_fixed(ps: Seq<Seq<char>>)
    requires
        forall|k: int| 0 <= k < ps.len() ==> good_part(#[trigger] ps[k]) && ps[k].len() <= 128
            && !all_spaces(ps[k]),
    ensures
        rel_parts(ps) == Some(ps),
    decreases ps.len(),
{
    if ps.len() > 0 {
        let d = ps.drop_last();
        assert forall|k: int| 0 <= k < d.len() implies good_part(#[trigger] d[k]) && d[k].len() <= 128
            && !all_spaces(d[k]) by {
            assert(d[k] == ps[k]);
        }
        lemma_rel_parts_fixed(d);
        let l = ps.last();
        assert(good_part(ps[ps.len() - 1]) && ps[ps.len() - 1].len() <= 128 && !all_spaces(ps[ps.len() - 1]));
        lemma_good_part_fixed(l);
        assert(d.push(l) =~= ps);
    }
}

proof fn lemma_rel_parts_clean(ps: Seq<Seq<char>>)
    ensures
        rel_parts(ps) matches Some(done) ==> forall|k: int| 0 <= k < done.len() ==> (#[trigger] done[k]).len() <= 128
            && !all_spaces(done[k]),
    decreases ps.len(),
{
    if ps.len() > 0 {
        lemma_rel_parts_clean(ps.drop_last());
        if let Some(done) = rel_parts(ps) {
            if let Some(prev) = rel_parts(ps.drop_last()) {
                let p = ps.last();
                if is_named(p) && p != dotdot() {
                    if let Some(c) = spec_safe_file_name(p) {
                        assert(done == prev.push(c));
                        assert forall|k: int| 0 <= k < done.len() implies (#[trigger] done[k]).len() <= 128
                            && !all_spaces(done[k]) by {
                            if k < prev.len() {
                                assert(done[k] == prev[k]);
                            }
                        }
                    }
                }
            }
        }
    }
}

/// Cleaning a relative path twice changes nothing: a path from [`safe_rel_path`] is
/// its own safe form.
pub proof fn law_safe_rel_path_idempotent(name: Seq<char>)
    ensures
        spec_safe_rel_path(name) matches Some(r) ==> spec_safe_rel_path(r) == Some(r),
{
    lemma_rel_parts_good(split_by(name, true));
    lemma_rel_parts_clean(split_by(name, true));
    if let Some(ps) = rel_parts(split_by(name, true)) {
        if ps.len() > 0 {
            lemma_join_split(ps);
            let r = join_slash(ps);
            assert forall|i: int| 0 <= i < r.len() implies r[i] != '\\' by {
                assert(keep_char(r[i]) || r[i] == '/');
            }
            lemma_split_without_backslash(r);
            assert forall|k: int| 0 <= k < ps.len() implies good_part(#[trigger] ps[k]) && ps[k].len() <= 128
                && !all_spaces(ps[k]) by {
            }
            lemma_rel_parts_fixed(ps);
        }
    }
}

} // verus!
