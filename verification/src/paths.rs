//! Paths as '/'-separated text.
//!
//! The library reasons about paths as plain text: a path is split at '/'
//! into its segments, `join` puts a single '/' between a base and a relative
//! name, and a name that starts with '/' replaces the base (as `Path::join`
//! does for an absolute argument).

use vstd::prelude::*;
use crate::keys::join_with;
use crate::text::{append_chars, chars_of, string_of};

verus! {

/// `base` joined with `name`.
pub open spec fn join(base: Seq<char>, name: Seq<char>) -> Seq<char> {
    if name.len() > 0 && name[0] == '/' {
        name
    } else if base.len() == 0 {
        name
    } else if base.last() == '/' {
        base + name
    } else {
        base + seq!['/'] + name
    }
}

pub fn join_path(base: &str, name: &str) -> (r: String)
    ensures
        r@ == join(base@, name@),
{
    let b: Vec<char> = chars_of(base);
    let n: Vec<char> = chars_of(name);
    if n.len() > 0 && n[0] == '/' {
        return string_of(&n);
    }
    if b.len() == 0 {
        return string_of(&n);
    }
    let mut out: Vec<char> = b;
    if out[out.len() - 1] != '/' {
        out.push('/');
    }
    append_chars(&mut out, &n);
    string_of(&out)
}

/// Index of the last '/' in `s`, if any.
pub open spec fn last_slash(s: Seq<char>) -> Option<int>
    decreases s.len(),
{
    if s.len() == 0 {
        None
    } else if s.last() == '/' {
        Some(s.len() - 1)
    } else {
        last_slash(s.drop_last())
    }
}

pub proof fn lemma_last_slash(s: Seq<char>)
    ensures
        last_slash(s) matches Some(i) ==> 0 <= i < s.len() && s[i] == '/' && forall|j: int|
            i < j < s.len() ==> s[j] != '/',
        last_slash(s) is None ==> forall|j: int| 0 <= j < s.len() ==> s[j] != '/',
    decreases s.len(),
{
    if s.len() > 0 {
        lemma_last_slash(s.drop_last());
        assert forall|j: int| 0 <= j < s.len() - 1 implies s.drop_last()[j] == s[j] by {}
    }
}

/// The last segment of `p` (the text after its last '/').
pub open spec fn base_name(p: Seq<char>) -> Seq<char> {
    match last_slash(p) {
        Some(i) => p.subrange(i + 1, p.len() as int),
        None => p,
    }
}

/// The last segment of a path joined onto a non-empty base is the joined
/// name, when that name holds no '/'.
pub proof fn lemma_base_name_join(base: Seq<char>, name: Seq<char>)
    requires
        base.len() > 0,
        !name.contains('/'),
    ensures
        base_name(join(base, name)) == name,
{
    let s = join(base, name);
    let pre = if base.last() == '/' {
        base
    } else {
        base + seq!['/']
    };
    assert(name.len() > 0 ==> name[0] != '/') by {
        if name.len() > 0 {
            assert(name.contains(name[0]));
        }
    }
    assert(s =~= pre + name);
    let k = pre.len() - 1;
    assert(s[k] == '/');
    lemma_last_slash(s);
    match last_slash(s) {
        Some(i) => {
            if i < k {
                assert(s[k] != '/');
            } else if i > k {
                assert(s[i] == name[i - pre.len()]);
                assert(name.contains(s[i]));
            }
            assert(i == k);
            assert(s.subrange(i + 1, s.len() as int) =~= name);
        },
        None => {
            assert(s[k] != '/');
        },
    }
}

/// The last segment of a path holds no '/'.
pub proof fn lemma_base_name_has_no_slash(p: Seq<char>)
    ensures
        !base_name(p).contains('/'),
{
    lemma_last_slash(p);
    let b = base_name(p);
    if b.contains('/') {
        let j = choose|j: int| 0 <= j < b.len() && b[j] == '/';
        match last_slash(p) {
            Some(i) => {
                assert(b[j] == p[i + 1 + j]);
            },
            None => {
                assert(b[j] == p[j]);
            },
        }
    }
}

/// A name joined onto a base that is not empty and does not end in '/' has
/// that base as its parent, when the name holds no '/'.
pub proof fn lemma_parent_of_join(base: Seq<char>, name: Seq<char>)
    requires
        base.len() > 0,
        base.last() != '/',
        !name.contains('/'),
    ensures
        parent_of(join(base, name)) == Some(base),
{
    let s = join(base, name);
    assert(name.len() > 0 ==> name[0] != '/') by {
        if name.len() > 0 {
            assert(name.contains(name[0]));
        }
    }
    let k = base.len() as int;
    assert(s =~= base + seq!['/'] + name);
    assert(s[k] == '/');
    lemma_last_slash(s);
    match last_slash(s) {
        Some(i) => {
            if i < k {
                assert(s[k] != '/');
            } else if i > k {
                assert(s[i] == name[i - k - 1]);
                assert(name.contains(s[i]));
            }
            assert(i == k);
            assert(s.subrange(0, i) =~= base);
        },
        None => {
            assert(s[k] != '/');
        },
    }
}

/// `p` without its last segment (the text before its last '/'), if it has a
/// '/' at all.
pub open spec fn parent_of(p: Seq<char>) -> Option<Seq<char>> {
    match last_slash(p) {
        Some(i) => Some(p.subrange(0, i)),
        None => None,
    }
}

pub fn last_slash_exec(v: &Vec<char>) -> (r: Option<usize>)
    ensures
        match r {
            Some(i) => last_slash(v@) == Some(i as int),
            None => last_slash(v@) is None,
        },
{
    let mut i: usize = v.len();
    assert(v@.subrange(0, v.len() as int) =~= v@);
    while i > 0 && v[i - 1] != '/'
        invariant
            i <= v.len(),
            last_slash(v@) == last_slash(v@.subrange(0, i as int)),
        decreases i,
    {
        assert(v@.subrange(0, i as int).drop_last() =~= v@.subrange(0, i - 1));
        i = i - 1;
    }
    assert(v@.subrange(0, v.len() as int) =~= v@);
    if i == 0 {
        None
    } else {
        Some(i - 1)
    }
}

pub fn base_name_of(p: &str) -> (r: String)
    ensures
        r@ == base_name(p@),
{
    let v: Vec<char> = chars_of(p);
    match last_slash_exec(&v) {
        Some(i) => {
            proof {
                lemma_last_slash(v@);
            }
            crate::text::string_of_range(&v, i + 1, v.len())
        },
        None => string_of(&v),
    }
}

pub fn parent_path_of(p: &str) -> (r: Option<String>)
    ensures
        match r {
            Some(s) => parent_of(p@) == Some(s@),
            None => parent_of(p@) is None,
        },
{
    let v: Vec<char> = chars_of(p);
    match last_slash_exec(&v) {
        Some(i) => {
            proof {
                lemma_last_slash(v@);
            }
            Some(crate::text::string_of_range(&v, 0, i))
        },
        None => None,
    }
}

/// The '/'-separated pieces of `p`, in order (empty pieces included).
pub open spec fn segments(p: Seq<char>) -> Seq<Seq<char>>
    decreases p.len(),
{
    if p.len() == 0 {
        seq![Seq::<char>::empty()]
    } else {
        let s = segments(p.drop_last());
        if p.last() == '/' {
            s.push(Seq::<char>::empty())
        } else {
            s.update(s.len() - 1, s.last().push(p.last()))
        }
    }
}

pub proof fn lemma_segments_len(p: Seq<char>)
    ensures
        segments(p).len() >= 1,
    decreases p.len(),
{
    if p.len() > 0 {
        lemma_segments_len(p.drop_last());
    }
}

pub fn split_segments(p: &Vec<char>) -> (r: Vec<Vec<char>>)
    ensures
        r@.map_values(|s: Vec<char>| s@) == segments(p@),
{
    let mut done: Vec<Vec<char>> = Vec::new();
    let mut cur: Vec<char> = Vec::new();
    let mut i: usize = 0;
    while i < p.len()
        invariant
            i <= p.len(),
            segments(p@.subrange(0, i as int)) == done@.map_values(|s: Vec<char>| s@).push(cur@),
        decreases p.len() - i,
    {
        let ghost pre = p@.subrange(0, i as int);
        let ghost old_done = done@.map_values(|s: Vec<char>| s@);
        let ghost old_cur = cur@;
        let c: char = p[i];
        if c == '/' {
            done.push(cur);
            cur = Vec::new();
            assert(done@.map_values(|s: Vec<char>| s@) =~= old_done.push(old_cur));
        } else {
            cur.push(c);
        }
        i = i + 1;
        proof {
            let post = p@.subrange(0, i as int);
            assert(post.drop_last() =~= pre);
            assert(post.last() == c);
            lemma_segments_len(pre);
            assert(segments(post) =~= done@.map_values(|s: Vec<char>| s@).push(cur@));
        }
    }
    let ghost old_done = done@.map_values(|s: Vec<char>| s@);
    let ghost old_cur = cur@;
    done.push(cur);
    assert(done@.map_values(|s: Vec<char>| s@) =~= old_done.push(old_cur));
    assert(p@.subrange(0, p.len() as int) =~= p@);
    done
}

/// Whether one of the segments of `p` is exactly `name`.
pub open spec fn has_segment(p: Seq<char>, name: Seq<char>) -> bool {
    exists|i: int| 0 <= i < segments(p).len() && segments(p)[i] == name
}

pub fn has_segment_exec(p: &str, name: &str) -> (r: bool)
    ensures
        r == has_segment(p@, name@),
{
    let v: Vec<char> = chars_of(p);
    let segs: Vec<Vec<char>> = split_segments(&v);
    let ghost sv = segs@.map_values(|s: Vec<char>| s@);
    let mut i: usize = 0;
    while i < segs.len()
        invariant
            i <= segs.len(),
            sv == segs@.map_values(|s: Vec<char>| s@),
            sv == segments(p@),
            forall|j: int| 0 <= j < i ==> sv[j] != name@,
        decreases segs.len() - i,
    {
        if crate::text::eq_str(&segs[i], name) {
            assert(sv[i as int] == name@);
            return true;
        }
        i = i + 1;
    }
    false
}

/// The segments of a path that name something: empty segments (from
/// repeated or trailing '/') and `.` segments are dropped, as
/// `Path::components` drops them.
pub open spec fn kept_parts(segs: Seq<Seq<char>>) -> Seq<Seq<char>>
    decreases segs.len(),
{
    if segs.len() == 0 {
        Seq::<Seq<char>>::empty()
    } else {
        let p = kept_parts(segs.drop_last());
        let s = segs.last();
        if s.len() == 0 || s == "."@ {
            p
        } else {
            p.push(s)
        }
    }
}

/// The components of `p` as `Path::components` lists them for a
/// normalized path: a root marker for an absolute path, then its named
/// segments.
pub open spec fn components(p: Seq<char>) -> Seq<Seq<char>> {
    if p.len() > 0 && p[0] == '/' {
        seq![seq!['/']] + kept_parts(segments(p))
    } else {
        kept_parts(segments(p))
    }
}

/// `Path::starts_with`: the components of `base` begin those of `p`.
pub open spec fn path_starts_with(p: Seq<char>, base: Seq<char>) -> bool {
    let pc = components(p);
    let bc = components(base);
    bc.len() <= pc.len() && pc.subrange(0, bc.len() as int) == bc
}

/// Two paths name the same place, component by component.
pub open spec fn same_path(a: Seq<char>, b: Seq<char>) -> bool {
    components(a) == components(b)
}

pub fn components_of(p: &str) -> (r: Vec<Vec<char>>)
    ensures
        r@.map_values(|x: Vec<char>| x@) == components(p@),
{
    let v: Vec<char> = chars_of(p);
    let segs: Vec<Vec<char>> = split_segments(&v);
    let ghost sv = segs@.map_values(|x: Vec<char>| x@);
    let mut out: Vec<Vec<char>> = Vec::new();
    if v.len() > 0 && v[0] == '/' {
        let mut root: Vec<char> = Vec::new();
        root.push('/');
        out.push(root);
    }
    let ghost start = out@.map_values(|x: Vec<char>| x@);
    assert(v.len() > 0 && v[0] == '/' ==> start =~= seq![seq!['/']]);
    assert(!(v.len() > 0 && v[0] == '/') ==> start =~= Seq::<Seq<char>>::empty());
    let mut i: usize = 0;
    while i < segs.len()
        invariant
            i <= segs.len(),
            sv == segs@.map_values(|x: Vec<char>| x@),
            out@.map_values(|x: Vec<char>| x@) == start + kept_parts(sv.subrange(0, i as int)),
        decreases segs.len() - i,
    {
        let ghost pre = sv.subrange(0, i as int);
        let ghost prev = out@;
        let keep: bool = !(segs[i].len() == 0 || crate::text::eq_str(&segs[i], "."));
        if keep {
            let c: Vec<char> = segs[i].clone();
            assert(c@ == sv[i as int]);
            out.push(c);
            assert(out@.map_values(|x: Vec<char>| x@) =~= prev.map_values(|x: Vec<char>| x@).push(
                c@,
            ));
        }
        i = i + 1;
        proof {
            let post = sv.subrange(0, i as int);
            assert(post.drop_last() =~= pre);
            assert(post.last() == sv[i - 1]);
            assert(out@.map_values(|x: Vec<char>| x@) =~= start + kept_parts(post));
        }
    }
    assert(sv.subrange(0, segs.len() as int) =~= sv);
    assert(v@ == p@);
    out
}

fn parts_eq(a: &Vec<Vec<char>>, b: &Vec<Vec<char>>, n: usize) -> (r: bool)
    requires
        n <= a.len(),
        n <= b.len(),
    ensures
        r == (a@.map_values(|x: Vec<char>| x@).subrange(0, n as int) == b@.map_values(
            |x: Vec<char>| x@,
        ).subrange(0, n as int)),
{
    let ghost av = a@.map_values(|x: Vec<char>| x@);
    let ghost bv = b@.map_values(|x: Vec<char>| x@);
    let mut i: usize = 0;
    while i < n
        invariant
            i <= n,
            n <= a.len(),
            n <= b.len(),
            av == a@.map_values(|x: Vec<char>| x@),
            bv == b@.map_values(|x: Vec<char>| x@),
            av.subrange(0, i as int) == bv.subrange(0, i as int),
        decreases n - i,
    {
        if !crate::text::chars_eq(&a[i], &b[i]) {
            assert(av.subrange(0, n as int)[i as int] != bv.subrange(0, n as int)[i as int]);
            return false;
        }
        i = i + 1;
        assert(av.subrange(0, i as int) =~= bv.subrange(0, i as int));
    }
    true
}

pub fn path_starts_with_exec(p: &str, base: &str) -> (r: bool)
    ensures
        r == path_starts_with(p@, base@),
{
    let pc: Vec<Vec<char>> = components_of(p);
    let bc: Vec<Vec<char>> = components_of(base);
    if bc.len() > pc.len() {
        return false;
    }
    let r: bool = parts_eq(&pc, &bc, bc.len());
    assert(bc@.map_values(|x: Vec<char>| x@).subrange(0, bc.len() as int) =~= bc@.map_values(
        |x: Vec<char>| x@,
    ));
    r
}

pub fn same_path_exec(a: &str, b: &str) -> (r: bool)
    ensures
        r == same_path(a@, b@),
{
    let ac: Vec<Vec<char>> = components_of(a);
    let bc: Vec<Vec<char>> = components_of(b);
    if ac.len() != bc.len() {
        return false;
    }
    let r: bool = parts_eq(&ac, &bc, ac.len());
    assert(ac@.map_values(|x: Vec<char>| x@).subrange(0, ac.len() as int) =~= ac@.map_values(
        |x: Vec<char>| x@,
    ));
    assert(bc@.map_values(|x: Vec<char>| x@).subrange(0, bc.len() as int) =~= bc@.map_values(
        |x: Vec<char>| x@,
    ));
    r
}

/// No segment of a path contains '/'.
pub proof fn lemma_segments_plain(p: Seq<char>)
    ensures
        forall|k: int| 0 <= k < segments(p).len() ==> !(#[trigger] segments(p)[k]).contains('/'),
    decreases p.len(),
{
    lemma_segments_len(p);
    if p.len() > 0 {
        lemma_segments_plain(p.drop_last());
        lemma_segments_len(p.drop_last());
        let s = segments(p.drop_last());
        assert forall|k: int| 0 <= k < segments(p).len() implies !(#[trigger] segments(
            p,
        )[k]).contains('/') by {
            if p.last() == '/' {
                if k < s.len() {
                    assert(segments(p)[k] == s[k]);
                } else {
                    assert(segments(p)[k] == Seq::<char>::empty());
                }
            } else if k == s.len() - 1 {
                let w = s.last().push(p.last());
                assert(segments(p)[k] == w);
                assert(!s[k].contains('/'));
                if w.contains('/') {
                    let i = choose|i: int| 0 <= i < w.len() && w[i] == '/';
                    assert(s[k][i] == '/');
                }
            } else {
                assert(segments(p)[k] == s[k]);
            }
        }
    }
}

proof fn lemma_segments_append(x: Seq<char>, y: Seq<char>)
    requires
        !y.contains('/'),
    ensures
        segments(x + y) == segments(x).update(
            segments(x).len() - 1,
            segments(x).last() + y,
        ),
    decreases y.len(),
{
    lemma_segments_len(x);
    if y.len() == 0 {
        assert(x + y =~= x);
        assert(segments(x).last() + y =~= segments(x).last());
        assert(segments(x).update(segments(x).len() - 1, segments(x).last()) =~= segments(x));
    } else {
        let y0 = y.drop_last();
        assert(!y0.contains('/')) by {
            if y0.contains('/') {
                let i = choose|i: int| 0 <= i < y0.len() && y0[i] == '/';
                assert(y[i] == '/');
            }
        }
        lemma_segments_append(x, y0);
        let c = y.last();
        assert(c != '/') by {
            assert(y[y.len() - 1] == c);
        }
        assert((x + y).drop_last() =~= x + y0);
        assert((x + y).last() == c);
        lemma_segments_len(x + y0);
        let sx = segments(x);
        let s0 = segments(x + y0);
        assert(s0.len() == sx.len());
        assert(s0.last() == sx.last() + y0);
        assert(segments(x + y) == s0.update(s0.len() - 1, s0.last().push(c)));
        assert((sx.last() + y0).push(c) =~= sx.last() + y);
        assert(segments(x + y) =~= segments(x).update(
            segments(x).len() - 1,
            segments(x).last() + y,
        ));
    }
}

/// Splitting '/'-joined names that hold no '/' gives the names back.
pub proof fn lemma_segments_join(parts: Seq<Seq<char>>)
    requires
        parts.len() >= 1,
        forall|k: int| 0 <= k < parts.len() ==> !(#[trigger] parts[k]).contains('/'),
    ensures
        segments(join_with(parts, seq!['/'])) == parts,
    decreases parts.len(),
{
    if parts.len() == 1 {
        lemma_segments_append(Seq::<char>::empty(), parts[0]);
        assert(Seq::<char>::empty() + parts[0] =~= parts[0]);
        assert(segments(join_with(parts, seq!['/'])) =~= parts);
    } else {
        let p = parts.drop_last();
        assert forall|k: int| 0 <= k < p.len() implies !(#[trigger] p[k]).contains('/') by {
            assert(p[k] == parts[k]);
        }
        lemma_segments_join(p);
        let j = join_with(p, seq!['/']);
        let js = j + seq!['/'];
        assert(js.drop_last() =~= j);
        assert(segments(js) == segments(j).push(Seq::<char>::empty()));
        assert(!parts[parts.len() - 1].contains('/'));
        lemma_segments_append(js, parts.last());
        assert(join_with(parts, seq!['/']) == js + parts.last());
        assert(segments(join_with(parts, seq!['/'])) =~= parts);
    }
}

/// Every part `kept_parts` keeps is one of the segments, not empty and
/// not `.`.
pub proof fn lemma_kept_parts(segs: Seq<Seq<char>>)
    ensures
        forall|k: int|
            0 <= k < kept_parts(segs).len() ==> (#[trigger] kept_parts(segs)[k]).len() > 0
                && kept_parts(segs)[k] != "."@ && segs.contains(kept_parts(segs)[k]),
    decreases segs.len(),
{
    if segs.len() > 0 {
        let p = segs.drop_last();
        lemma_kept_parts(p);
        let kp = kept_parts(p);
        assert forall|k: int| 0 <= k < kept_parts(segs).len() implies (#[trigger] kept_parts(
            segs,
        )[k]).len() > 0 && kept_parts(segs)[k] != "."@ && segs.contains(kept_parts(segs)[k]) by {
            if k < kp.len() {
                assert(kept_parts(segs)[k] == kp[k]);
                let i = choose|i: int| 0 <= i < p.len() && p[i] == kp[k];
                assert(segs[i] == kp[k]);
            } else {
                assert(kept_parts(segs)[k] == segs.last());
                assert(segs[segs.len() - 1] == segs.last());
            }
        }
    }
}

} // verus!
