use vstd::prelude::*;

verus! {

/// A path names a directory when it ends with the separator.
pub open spec fn is_dir_path(p: Seq<char>) -> bool {
    p.len() > 0 && p.last() == '/'
}

/// `s` without its trailing separators.
pub open spec fn trim_slashes(s: Seq<char>) -> Seq<char>
    decreases s.len(),
{
    if s.len() > 0 && s.last() == '/' {
        trim_slashes(s.drop_last())
    } else {
        s
    }
}

/// `s` without the characters after its last separator.
pub open spec fn drop_segment(s: Seq<char>) -> Seq<char>
    decreases s.len(),
{
    if s.len() > 0 && s.last() != '/' {
        drop_segment(s.drop_last())
    } else {
        s
    }
}

/// The parent of a path: its last non-empty segment removed, with one
/// trailing separator, or the empty root path when nothing is left.
pub open spec fn parent_of(p: Seq<char>) -> Seq<char> {
    let q = trim_slashes(drop_segment(trim_slashes(p)));
    if q.len() == 0 {
        Seq::empty()
    } else {
        q.push('/')
    }
}

/// The characters after the last separator of `s`.
pub open spec fn last_segment(s: Seq<char>) -> Seq<char>
    decreases s.len(),
{
    if s.len() == 0 || s.last() == '/' {
        Seq::empty()
    } else {
        last_segment(s.drop_last()).push(s.last())
    }
}

/// The display name of a path: its last segment, keeping the separator of a
/// directory path.
pub open spec fn label_of(p: Seq<char>) -> Seq<char> {
    if is_dir_path(p) {
        last_segment(p.drop_last()).push('/')
    } else {
        last_segment(p)
    }
}

/// The number of non-empty segments of a path.
pub open spec fn segment_count(s: Seq<char>) -> nat
    decreases s.len(),
{
    if s.len() == 0 {
        0
    } else if s.last() != '/' && (s.len() == 1 || s[s.len() - 2] == '/') {
        segment_count(s.drop_last()) + 1
    } else {
        segment_count(s.drop_last())
    }
}

proof fn lemma_trim_keeps_count(s: Seq<char>)
    ensures
        segment_count(trim_slashes(s)) == segment_count(s),
        trim_slashes(s).len() == 0 || trim_slashes(s).last() != '/',
    decreases s.len(),
{
    if s.len() > 0 && s.last() == '/' {
        lemma_trim_keeps_count(s.drop_last());
    }
}

proof fn lemma_drop_segment_count(t: Seq<char>)
    requires
        t.len() > 0,
        t.last() != '/',
    ensures
        segment_count(drop_segment(t)) + 1 == segment_count(t),
    decreases t.len(),
{
    let u = t.drop_last();
    assert(u.len() > 0 ==> u.last() == t[t.len() - 2]);
    assert(drop_segment(t) == drop_segment(u));
    if u.len() > 0 && u.last() != '/' {
        lemma_drop_segment_count(u);
    } else {
        assert(drop_segment(u) == u);
    }
}

/// The parent of a path with at least one segment has exactly one segment less.
pub proof fn lemma_parent_drops_one_segment(p: Seq<char>)
    requires
        segment_count(p) >= 1,
    ensures
        segment_count(parent_of(p)) + 1 == segment_count(p),
{
    lemma_trim_keeps_count(p);
    let t = trim_slashes(p);
    lemma_drop_segment_count(t);
    let d = drop_segment(t);
    lemma_trim_keeps_count(d);
    let q = trim_slashes(d);
    if q.len() > 0 {
        assert(q.push('/').drop_last() =~= q);
    }
}

/// Derives the parent of `path` (see `parent_of`).
pub fn parse_prev_path(path: &str) -> (r: String)
    ensures
        r@ == parent_of(path@),
{
    let n = path.unicode_len();
    let ghost p = path@;
    assert(p.subrange(0, n as int) =~= p);
    let mut e1: usize = n;
    while e1 > 0 && path.get_char(e1 - 1) == '/'
        invariant
            n == p.len(),
            p == path@,
            e1 <= n,
            trim_slashes(p.subrange(0, e1 as int)) == trim_slashes(p),
        decreases e1,
    {
        assert(p.subrange(0, e1 as int).drop_last() =~= p.subrange(0, e1 - 1));
        e1 = e1 - 1;
    }
    let mut e2: usize = e1;
    while e2 > 0 && path.get_char(e2 - 1) != '/'
        invariant
            n == p.len(),
            p == path@,
            e2 <= e1 <= n,
            trim_slashes(p) == p.subrange(0, e1 as int),
            drop_segment(p.subrange(0, e2 as int)) == drop_segment(trim_slashes(p)),
        decreases e2,
    {
        assert(p.subrange(0, e2 as int).drop_last() =~= p.subrange(0, e2 - 1));
        e2 = e2 - 1;
    }
    let mut e3: usize = e2;
    while e3 > 0 && path.get_char(e3 - 1) == '/'
        invariant
            n == p.len(),
            p == path@,
            e3 <= e2 <= n,
            drop_segment(trim_slashes(p)) == p.subrange(0, e2 as int),
            trim_slashes(p.subrange(0, e3 as int)) == trim_slashes(drop_segment(trim_slashes(p))),
        decreases e3,
    {
        assert(p.subrange(0, e3 as int).drop_last() =~= p.subrange(0, e3 - 1));
        e3 = e3 - 1;
    }
    if e3 == 0 {
        String::new()
    } else {
        let mut r = path.substring_char(0, e3).to_owned();
        proof {
            reveal_strlit("/");
        }
        r.append("/");
        assert(r@ =~= p.subrange(0, e3 as int).push('/'));
        r
    }
}

/// Derives the display name of `path` (see `label_of`).
pub fn label_from_path(path: &str) -> (r: String)
    ensures
        r@ == label_of(path@),
{
    let n = path.unicode_len();
    let ghost p = path@;
    let dir = n > 0 && path.get_char(n - 1) == '/';
    let end: usize = if dir { n - 1 } else { n };
    let ghost s = p.subrange(0, end as int);
    assert(dir ==> s =~= p.drop_last());
    assert(!dir ==> s =~= p);
    let mut k: usize = end;
    assert(s.subrange(k as int, end as int) =~= Seq::<char>::empty());
    assert(s.subrange(0, k as int) =~= s);
    while k > 0 && path.get_char(k - 1) != '/'
        invariant
            n == p.len(),
            p == path@,
            end <= n,
            k <= end,
            s == p.subrange(0, end as int),
            last_segment(s) == last_segment(s.subrange(0, k as int)) + s.subrange(k as int, end as int),
        decreases k,
    {
        let ghost t = s.subrange(0, k as int);
        assert(t.drop_last() =~= s.subrange(0, k - 1));
        assert(s.subrange(k - 1, end as int) =~= seq![t.last()] + s.subrange(k as int, end as int));
        assert(last_segment(t) == last_segment(s.subrange(0, k - 1)).push(t.last()));
        assert(last_segment(s.subrange(0, k - 1)).push(t.last()) + s.subrange(k as int, end as int)
            =~= last_segment(s.subrange(0, k - 1)) + s.subrange(k - 1, end as int));
        k = k - 1;
    }
    assert(last_segment(s.subrange(0, k as int)) =~= Seq::<char>::empty());
    assert(last_segment(s) =~= p.subrange(k as int, end as int));
    let mut r = path.substring_char(k, end).to_owned();
    if dir {
        proof {
            reveal_strlit("/");
        }
        r.append("/");
    }
    assert(r@ =~= label_of(p));
    r
}

} // verus!
