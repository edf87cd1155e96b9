//! Paths as `std::path::Path` reads them on Unix: a list of components.
//!
//! A component is held as its text: `/` for the root, `.` for a leading
//! current-directory component, `..` for a parent component, and the name
//! itself for a normal component. No two kinds share a text, so two paths
//! have the same components exactly when these texts agree.

use vstd::prelude::*;
use crate::text::{chars_eq, sub_chars};

verus! {

/// A segment between separators that stays a component: empty segments and
/// `.` are normalized away.
pub open spec fn seg_kept(seg: Seq<char>) -> bool {
    seg.len() > 0 && seg != seq!['.']
}

pub open spec fn flush(done: Seq<Seq<char>>, cur: Seq<char>) -> Seq<Seq<char>> {
    if seg_kept(cur) {
        done.push(cur)
    } else {
        done
    }
}

/// Reads `s` left to right: the components closed so far and the segment
/// being read.
pub open spec fn scan(s: Seq<char>) -> (Seq<Seq<char>>, Seq<char>)
    decreases s.len(),
{
    if s.len() == 0 {
        (seq![], seq![])
    } else {
        let (d, c) = scan(s.drop_last());
        if s.last() == '/' {
            (flush(d, c), seq![])
        } else {
            (d, c.push(s.last()))
        }
    }
}

/// The components of a path body: its segments between `/`, without empty
/// segments and `.`.
pub open spec fn body_components(s: Seq<char>) -> Seq<Seq<char>> {
    flush(scan(s).0, scan(s).1)
}

pub open spec fn has_root(p: Seq<char>) -> bool {
    p.len() > 0 && p[0] == '/'
}

pub open spec fn has_cur_dir(p: Seq<char>) -> bool {
    p.len() > 0 && p[0] == '.' && (p.len() == 1 || p[1] == '/')
}

/// `Path::components`: a root, or a leading `.`, then the body.
pub open spec fn components(p: Seq<char>) -> Seq<Seq<char>> {
    if has_root(p) {
        seq![seq!['/']] + body_components(p.drop_first())
    } else if has_cur_dir(p) {
        seq![seq!['.']] + body_components(p.drop_first())
    } else {
        body_components(p)
    }
}

pub open spec fn is_normal(c: Seq<char>) -> bool {
    c != seq!['/'] && c != seq!['.'] && c != seq!['.', '.']
}

/// `Path::file_name`: the last component when it is a normal one.
pub open spec fn file_name(p: Seq<char>) -> Option<Seq<char>> {
    let c = components(p);
    if c.len() > 0 && is_normal(c.last()) {
        Some(c.last())
    } else {
        None
    }
}

pub open spec fn is_prefix_of<A>(a: Seq<A>, b: Seq<A>) -> bool {
    a.len() <= b.len() && b.take(a.len() as int) == a
}

/// `Path::strip_prefix`: the components of `p` after those of `base`, when
/// `base`'s components begin `p`'s.
pub open spec fn strip_prefix(p: Seq<char>, base: Seq<char>) -> Option<Seq<Seq<char>>> {
    let pc = components(p);
    let bc = components(base);
    if is_prefix_of(bc, pc) {
        Some(pc.skip(bc.len() as int))
    } else {
        None
    }
}

/// Two paths are equal as `Path`s (and as map keys) when their components are.
pub open spec fn same_path(a: Seq<char>, b: Seq<char>) -> bool {
    components(a) == components(b)
}

/// A `/` at the end of a path body adds no component.
pub proof fn lemma_body_trailing_slash(t: Seq<char>)
    ensures
        body_components(t.push('/')) == body_components(t),
{
    let s = t.push('/');
    assert(s.drop_last() =~= t);
    assert(scan(s) == (flush(scan(t).0, scan(t).1), Seq::<char>::empty()));
}

/// A `/` at the end of a path that is not empty names the same path.
pub proof fn lemma_trailing_slash_same_path(p: Seq<char>)
    requires
        p.len() > 0,
    ensures
        same_path(p.push('/'), p),
        same_path(p, p.push('/')),
{
    let q = p.push('/');
    assert(q[0] == p[0]);
    assert(q.drop_first() =~= p.drop_first().push('/'));
    if p.len() > 1 {
        assert(q[1] == p[1]);
    }
    lemma_body_trailing_slash(p.drop_first());
    lemma_body_trailing_slash(p);
}

pub open spec fn views(v: Seq<Vec<char>>) -> Seq<Seq<char>> {
    v.map_values(|x: Vec<char>| x@)
}

fn is_kept(cur: &Vec<char>) -> (b: bool)
    ensures
        b == seg_kept(cur@),
{
    if cur.len() == 0 {
        false
    } else if cur.len() == 1 && cur[0] == '.' {
        assert(cur@ =~= seq!['.']);
        false
    } else {
        assert(cur@.len() != 1 ==> cur@ != seq!['.']);
        true
    }
}

/// The components of `p@.subrange(from, p.len())` read as a body.
fn body_components_from(p: &Vec<char>, from: usize) -> (r: Vec<Vec<char>>)
    requires
        from <= p.len(),
    ensures
        views(r@) == body_components(p@.subrange(from as int, p.len() as int)),
{
    let mut done: Vec<Vec<char>> = Vec::new();
    let mut cur: Vec<char> = Vec::new();
    let mut i = from;
    assert(p@.subrange(from as int, from as int) =~= Seq::<char>::empty());
    assert(views(done@) =~= Seq::<Seq<char>>::empty());
    while i < p.len()
        invariant
            from <= i <= p.len(),
            (views(done@), cur@) == scan(p@.subrange(from as int, i as int)),
        decreases p.len() - i,
    {
        let ghost s = p@.subrange(from as int, i as int + 1);
        assert(s.drop_last() =~= p@.subrange(from as int, i as int));
        assert(s.last() == p@[i as int]);
        let c = p[i];
        if c == '/' {
            if is_kept(&cur) {
                let ghost before = done@;
                done.push(cur);
                assert(views(done@) =~= views(before).push(views(done@).last()));
            }
            cur = Vec::new();
            assert(cur@ =~= Seq::<char>::empty());
        } else {
            cur.push(c);
        }
        i = i + 1;
    }
    let ghost last_done = done@;
    if is_kept(&cur) {
        done.push(cur);
        assert(views(done@) =~= views(last_done).push(views(done@).last()));
    }
    done
}

/// `Path::components` over characters.
pub fn components_of(p: &Vec<char>) -> (r: Vec<Vec<char>>)
    ensures
        views(r@) == components(p@),
{
    if p.len() > 0 && p[0] == '/' {
        let body = body_components_from(p, 1);
        assert(p@.subrange(1, p.len() as int) =~= p@.drop_first());
        let mut root: Vec<char> = Vec::new();
        root.push('/');
        let mut r: Vec<Vec<char>> = Vec::new();
        r.push(root);
        assert(r@[0]@ =~= seq!['/']);
        assert(views(r@) =~= seq![seq!['/']]);
        append_components(r, &body)
    } else if p.len() > 0 && p[0] == '.' && (p.len() == 1 || p[1] == '/') {
        let body = body_components_from(p, 1);
        assert(p@.subrange(1, p.len() as int) =~= p@.drop_first());
        let mut cur: Vec<char> = Vec::new();
        cur.push('.');
        let mut r: Vec<Vec<char>> = Vec::new();
        r.push(cur);
        assert(r@[0]@ =~= seq!['.']);
        assert(views(r@) =~= seq![seq!['.']]);
        append_components(r, &body)
    } else {
        let body = body_components_from(p, 0);
        assert(p@.subrange(0, p.len() as int) =~= p@);
        body
    }
}

fn append_components(a: Vec<Vec<char>>, b: &Vec<Vec<char>>) -> (r: Vec<Vec<char>>)
    ensures
        views(r@) == views(a@) + views(b@),
{
    let mut r = a;
    let ghost a0 = views(r@);
    let mut i: usize = 0;
    while i < b.len()
        invariant
            i <= b.len(),
            views(r@) == a0 + views(b@).take(i as int),
        decreases b.len() - i,
    {
        let ghost r0 = views(r@);
        let y = sub_chars(&b[i], 0, b[i].len());
        assert(y@ =~= b@[i as int]@);
        r.push(y);
        i = i + 1;
        assert(views(r@) =~= r0.push(b@[i - 1]@));
        assert(views(b@).take(i as int) =~= views(b@).take(i - 1).push(b@[i - 1]@));
    }
    assert(views(b@).take(b.len() as int) =~= views(b@));
    r
}

/// `Path::file_name` over characters.
pub fn file_name_of(p: &Vec<char>) -> (r: Option<Vec<char>>)
    ensures
        r is Some <==> file_name(p@) is Some,
        r matches Some(n) ==> file_name(p@) == Some(n@),
{
    let comps = components_of(p);
    if comps.len() == 0 {
        return None;
    }
    let last = &comps[comps.len() - 1];
    assert(views(comps@).last() == last@);
    let root = vec!['/'];
    let cur = vec!['.'];
    let parent = vec!['.', '.'];
    if chars_eq(last, &root) || chars_eq(last, &cur) || chars_eq(last, &parent) {
        proof {
            assert(root@ =~= seq!['/']);
            assert(cur@ =~= seq!['.']);
            assert(parent@ =~= seq!['.', '.']);
        }
        None
    } else {
        proof {
            assert(root@ =~= seq!['/']);
            assert(cur@ =~= seq!['.']);
            assert(parent@ =~= seq!['.', '.']);
        }
        Some(sub_chars(last, 0, last.len()))
    }
}

pub fn same_components(a: &Vec<Vec<char>>, b: &Vec<Vec<char>>, n: usize) -> (r: bool)
    requires
        n <= a.len(),
        n <= b.len(),
    ensures
        r == (views(a@).take(n as int) == views(b@).take(n as int)),
{
    let mut i: usize = 0;
    while i < n
        invariant
            i <= n <= a.len(),
            n <= b.len(),
            forall|j: int| 0 <= j < i ==> a@[j]@ == b@[j]@,
        decreases n - i,
    {
        if !chars_eq(&a[i], &b[i]) {
            assert(views(a@).take(n as int)[i as int] != views(b@).take(n as int)[i as int]);
            return false;
        }
        i = i + 1;
    }
    assert(views(a@).take(n as int) =~= views(b@).take(n as int));
    true
}

/// Whether `a` and `b` name the same path (equal components).
pub fn same_path_chars(a: &Vec<char>, b: &Vec<char>) -> (r: bool)
    ensures
        r == same_path(a@, b@),
{
    let ca = components_of(a);
    let cb = components_of(b);
    if ca.len() != cb.len() {
        return false;
    }
    let r = same_components(&ca, &cb, ca.len());
    assert(views(ca@).take(ca.len() as int) =~= views(ca@));
    assert(views(cb@).take(cb.len() as int) =~= views(cb@));
    r
}

} // verus!
