//! Paths as text: joining, and the containment test that guards every file
//! a configuration names.
//!
//! A path is a sequence of characters in which `/` separates the segments.
//! Nothing here touches a file system: a caller resolves a path against the
//! real one and hands the canonical form in.

use crate::text::{
    from_chars, lemma_leading, lemma_leading_unique, other_than, position, same_chars, to_chars,
};
use vstd::prelude::*;

verus! {

/// `rel` resolved against `base`: an absolute `rel` replaces `base`, any
/// other is appended to it, with one separator between the two where `base`
/// does not already end in one.
pub open spec fn joined(base: Seq<char>, rel: Seq<char>) -> Seq<char> {
    if rel.len() > 0 && rel[0] == '/' {
        rel
    } else if base.len() == 0 || base.last() == '/' {
        base + rel
    } else {
        base + seq!['/'] + rel
    }
}

/// Whether the path starts at the root of the file system.
pub open spec fn is_absolute(p: Seq<char>) -> bool {
    p.len() > 0 && p[0] == '/'
}

/// Whether a segment names a directory entry: it is neither empty nor `.`.
pub open spec fn names_entry(seg: Seq<char>) -> bool {
    seg.len() > 0 && seg != seq!['.']
}

/// The segments of a path that name something, in order. Empty segments
/// and `.` are passed over; `..` is kept as it stands.
pub open spec fn segments(p: Seq<char>) -> Seq<Seq<char>>
    decreases p.len(),
{
    if p.len() == 0 {
        Seq::empty()
    } else {
        let n = position(p, '/') as int;
        let head = p.take(n);
        let rest = if n < p.len() {
            segments(p.skip(n + 1))
        } else {
            Seq::empty()
        };
        if names_entry(head) {
            seq![head] + rest
        } else {
            rest
        }
    }
}

/// Whether `path` is `root` itself or lies below it: both start at the same
/// place, and the segments of `root` are the first segments of `path`.
pub open spec fn within(path: Seq<char>, root: Seq<char>) -> bool {
    let sp = segments(path);
    let sr = segments(root);
    &&& is_absolute(path) == is_absolute(root)
    &&& sr.len() <= sp.len()
    &&& forall|k: int| 0 <= k < sr.len() ==> sp[k] == sr[k]
}

/// Every path lies within itself.
pub proof fn lemma_within_reflexive(p: Seq<char>)
    ensures
        within(p, p),
{
}

/// What lies within a directory lies within every directory around it.
pub proof fn lemma_within_transitive(a: Seq<char>, b: Seq<char>, c: Seq<char>)
    requires
        within(a, b),
        within(b, c),
    ensures
        within(a, c),
{
}

/// The segments of two paths joined by a separator are those of the first
/// followed by those of the second.
pub proof fn lemma_segments_of_joined(a: Seq<char>, b: Seq<char>)
    ensures
        segments(a + seq!['/'] + b) == segments(a) + segments(b),
    decreases a.len(),
{
    let s = a + seq!['/'] + b;
    let not_sep = other_than('/');
    if a.len() == 0 {
        lemma_leading_unique(s, not_sep, 0);
        assert(s.skip(1) =~= b);
        assert(s.take(0).len() == 0);
        assert(segments(a) + segments(b) =~= segments(b));
    } else {
        let n = position(a, '/') as int;
        lemma_leading(a, not_sep);
        assert forall|i: int| 0 <= i < n implies not_sep(#[trigger] s[i]) by {
            assert(s[i] == a[i]);
        }
        if n < a.len() {
            assert(s[n] == a[n]);
        } else {
            assert(s[n] == '/');
        }
        lemma_leading_unique(s, not_sep, n);
        assert(s.take(n) =~= a.take(n));
        if n < a.len() {
            let rest = a.skip(n + 1);
            assert(s.skip(n + 1) =~= rest + seq!['/'] + b);
            lemma_segments_of_joined(rest, b);
            let tail = segments(rest);
            if names_entry(a.take(n)) {
                assert(seq![a.take(n)] + (tail + segments(b)) =~= (seq![a.take(n)] + tail)
                    + segments(b));
            }
        } else {
            assert(s.skip(n + 1) =~= b);
            assert(a.take(n) =~= a);
            let none = Seq::<Seq<char>>::empty();
            if names_entry(a) {
                assert(seq![a] + segments(b) =~= (seq![a] + none) + segments(b));
            } else {
                assert(segments(b) =~= none + segments(b));
            }
        }
    }
}

/// A relative path joined to a root lies within the root, as far as the
/// text of the two goes.
pub proof fn lemma_joined_lies_within(root: Seq<char>, rel: Seq<char>)
    requires
        !is_absolute(rel),
    ensures
        within(joined(root, rel), root),
{
    if root.len() == 0 {
        assert(root + rel =~= rel);
    } else if root.last() == '/' {
        let front = root.drop_last();
        let none = Seq::<char>::empty();
        assert(root + rel =~= front + seq!['/'] + rel);
        assert(root =~= front + seq!['/'] + none);
        lemma_segments_of_joined(front, rel);
        lemma_segments_of_joined(front, none);
        assert(segments(root) =~= segments(front));
        assert((root + rel)[0] == root[0]);
    } else {
        lemma_segments_of_joined(root, rel);
        assert((root + seq!['/'] + rel)[0] == root[0]);
    }
}

/// The views of a vector of character vectors.
pub open spec fn views(v: Seq<Vec<char>>) -> Seq<Seq<char>> {
    Seq::new(v.len(), |i: int| v[i]@)
}

/// `rel` resolved against `base`.
pub fn join_path(base: &str, rel: &str) -> (out: String)
    ensures
        out@ == joined(base@, rel@),
{
    let b = to_chars(base);
    let r = to_chars(rel);
    let mut all: Vec<char> = Vec::new();
    if !(r.len() > 0 && r[0] == '/') {
        let mut i: usize = 0;
        while i < b.len()
            invariant
                i <= b.len(),
                all@ == b@.take(i as int),
            decreases b.len() - i,
        {
            all.push(b[i]);
            i += 1;
            assert(b@.take(i as int) =~= b@.take(i - 1).push(b@[i - 1]));
        }
        assert(b@.take(b.len() as int) =~= b@);
        if b.len() > 0 && b[b.len() - 1] != '/' {
            all.push('/');
        }
    }
    let ghost front = all@;
    let mut j: usize = 0;
    while j < r.len()
        invariant
            j <= r.len(),
            all@ == front + r@.take(j as int),
        decreases r.len() - j,
    {
        all.push(r[j]);
        j += 1;
        assert(r@.take(j as int) =~= r@.take(j - 1).push(r@[j - 1]));
    }
    assert(r@.take(r.len() as int) =~= r@);
    assert(all@ =~= joined(base@, rel@));
    let n = all.len();
    assert(all@.subrange(0, n as int) =~= all@);
    from_chars(&all, 0, n)
}

/// The segments of `p` that name something.
pub fn split_segments(p: &Vec<char>) -> (out: Vec<Vec<char>>)
    ensures
        views(out@) == segments(p@),
{
    let mut out: Vec<Vec<char>> = Vec::new();
    let mut cur: Vec<char> = Vec::new();
    let mut start: usize = 0;
    let mut i: usize = 0;
    assert(p@.skip(0) =~= p@);
    while i < p.len()
        invariant
            start <= i <= p.len(),
            cur@ == p@.subrange(start as int, i as int),
            forall|k: int| start <= k < i ==> p@[k] != '/',
            segments(p@) == views(out@) + segments(p@.skip(start as int)),
        decreases p.len() - i,
    {
        let c = p[i];
        if c == '/' {
            proof {
                let rest = p@.skip(start as int);
                assert forall|k: int| 0 <= k < i - start implies other_than('/')(
                    #[trigger] rest[k],
                ) by {
                    assert(rest[k] == p@[start + k]);
                }
                assert(rest[i - start] == '/');
                lemma_leading_unique(rest, other_than('/'), i - start);
                assert(rest.take(i - start) =~= cur@);
                assert(rest.skip(i - start + 1) =~= p@.skip(i + 1));
            }
            let ghost before = out@;
            if names_segment(&cur) {
                out.push(cur);
                assert(views(out@) =~= views(before) + seq![cur@]);
            }
            cur = Vec::new();
            start = i + 1;
            i += 1;
            assert(p@.subrange(start as int, i as int) =~= Seq::<char>::empty());
        } else {
            cur.push(c);
            i += 1;
            assert(p@.subrange(start as int, i as int) =~= p@.subrange(
                start as int,
                i - 1,
            ).push(c));
        }
    }
    proof {
        let rest = p@.skip(start as int);
        if rest.len() > 0 {
            assert forall|k: int| 0 <= k < rest.len() implies other_than('/')(
                #[trigger] rest[k],
            ) by {
                assert(rest[k] == p@[start + k]);
            }
            lemma_leading_unique(rest, other_than('/'), rest.len() as int);
            assert(rest.take(rest.len() as int) =~= cur@);
        } else {
            assert(cur@ =~= Seq::<char>::empty());
        }
    }
    let ghost before = out@;
    if names_segment(&cur) {
        out.push(cur);
        assert(views(out@) =~= views(before) + seq![cur@]);
    }
    assert(views(out@) =~= segments(p@));
    out
}

/// Whether a segment names a directory entry.
fn names_segment(seg: &Vec<char>) -> (r: bool)
    ensures
        r == names_entry(seg@),
{
    if seg.len() == 0 {
        false
    } else if seg.len() == 1 && seg[0] == '.' {
        assert(seg@ =~= seq!['.']);
        false
    } else {
        if seg.len() == 1 {
            assert(seg@[0] != seq!['.'][0]);
        }
        true
    }
}

/// Whether `path` is `root` itself or lies below it.
pub fn path_within(path: &str, root: &str) -> (r: bool)
    ensures
        r == within(path@, root@),
{
    let p = to_chars(path);
    let q = to_chars(root);
    let p_abs = p.len() > 0 && p[0] == '/';
    let q_abs = q.len() > 0 && q[0] == '/';
    if p_abs != q_abs {
        return false;
    }
    let ps = split_segments(&p);
    let qs = split_segments(&q);
    if qs.len() > ps.len() {
        return false;
    }
    let ghost sp = segments(path@);
    let ghost sq = segments(root@);
    let mut i: usize = 0;
    while i < qs.len()
        invariant
            i <= qs.len() <= ps.len(),
            sp == segments(path@),
            sq == segments(root@),
            sp == views(ps@),
            sq == views(qs@),
            forall|k: int| 0 <= k < i ==> sp[k] == sq[k],
        decreases qs.len() - i,
    {
        if !same_chars(&ps[i], &qs[i]) {
            assert(sp[i as int] != sq[i as int]);
            return false;
        }
        i += 1;
    }
    true
}

} // verus!
