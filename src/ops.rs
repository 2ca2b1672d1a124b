use vstd::prelude::*;

use crate::roc_str::{matches_at, RocStr};

verus! {

/// The contents of a sequence of values.
pub open spec fn views(xs: Seq<RocStr>) -> Seq<Seq<u8>> {
    xs.map_values(|x: RocStr| x@)
}

/// True when `s` begins with `p`.
pub open spec fn has_prefix(s: Seq<u8>, p: Seq<u8>) -> bool {
    p.len() <= s.len() && s.subrange(0, p.len() as int) == p
}

/// True when `s` ends with `p`.
pub open spec fn has_suffix(s: Seq<u8>, p: Seq<u8>) -> bool {
    p.len() <= s.len() && s.subrange(s.len() - p.len(), s.len() as int) == p
}

/// The pieces of `s[start..]` cut at the occurrences of `d` found by a scan
/// that is now at position `i` and resumes right after each match.
pub open spec fn split_from(s: Seq<u8>, d: Seq<u8>, start: int, i: int) -> Seq<Seq<u8>>
    recommends
        d.len() > 0,
        0 <= start <= i,
    decreases s.len() - i when d.len() > 0
{
    if i + d.len() > s.len() {
        seq![s.subrange(start, s.len() as int)]
    } else if s.subrange(i, i + d.len()) == d {
        seq![s.subrange(start, i)] + split_from(s, d, i + d.len(), i + d.len())
    } else {
        split_from(s, d, start, i + 1)
    }
}

/// The pieces of `s` between the non-overlapping occurrences of `d`, found from
/// left to right; `s` whole where `d` is empty.
pub open spec fn split_spec(s: Seq<u8>, d: Seq<u8>) -> Seq<Seq<u8>> {
    if d.len() == 0 {
        seq![s]
    } else {
        split_from(s, d, 0, 0)
    }
}

/// The elements of `xs` with `sep` between each two neighbours.
pub open spec fn join_spec(xs: Seq<Seq<u8>>, sep: Seq<u8>) -> Seq<u8>
    decreases xs.len(),
{
    if xs.len() == 0 {
        Seq::empty()
    } else if xs.len() == 1 {
        xs[0]
    } else {
        join_spec(xs.drop_last(), sep) + sep + xs.last()
    }
}

/// Appends the bytes of `s` to `v`.
fn append_slice(v: &mut Vec<u8>, s: &[u8])
    ensures
        final(v)@ == old(v)@ + s@,
{
    let ghost v0 = v@;
    let mut i: usize = 0;
    while i < s.len()
        invariant
            i <= s@.len(),
            v@ == v0 + s@.subrange(0, i as int),
        decreases s@.len() - i,
    {
        v.push(s[i]);
        i += 1;
        assert(v@ =~= v0 + s@.subrange(0, i as int));
    }
    assert(s@.subrange(0, s@.len() as int) =~= s@);
}

/// A new value holding `s[start..end]`.
pub(crate) fn piece(s: &[u8], start: usize, end: usize) -> (r: RocStr)
    requires
        start <= end <= s@.len(),
    ensures
        r@ == s@.subrange(start as int, end as int),
{
    let mut v: Vec<u8> = Vec::with_capacity(end - start);
    let mut i: usize = start;
    while i < end
        invariant
            start <= i <= end <= s@.len(),
            v@ == s@.subrange(start as int, i as int),
        decreases end - i,
    {
        v.push(s[i]);
        i += 1;
        assert(v@ =~= s@.subrange(start as int, i as int));
    }
    RocStr::from_vec(v)
}

impl RocStr {
    /// The bytes of `self` followed by the bytes of `other`, in the form the
    /// combined length calls for.
    pub fn concat(&self, other: &RocStr) -> (r: RocStr)
        ensures
            r@ == self@ + other@,
            r.spec_is_small() <==> self@.len() + other@.len() <= 15,
    {
        if other.is_empty() {
            assert(self@ + other@ =~= self@);
            return self.clone();
        }
        if self.is_empty() {
            assert(self@ + other@ =~= other@);
            return other.clone();
        }
        let a = self.as_slice();
        let b = other.as_slice();
        let mut v: Vec<u8> = Vec::new();
        append_slice(&mut v, a);
        append_slice(&mut v, b);
        RocStr::from_vec(v)
    }

    /// True when the content begins with the content of `prefix`.
    pub fn starts_with(&self, prefix: &RocStr) -> (r: bool)
        ensures
            r == has_prefix(self@, prefix@),
            prefix@.len() == 0 ==> r,
            self@.len() == 0 && prefix@.len() > 0 ==> !r,
    {
        let s = self.as_slice();
        let p = prefix.as_slice();
        if p.len() > s.len() {
            return false;
        }
        assert(p@.len() == 0 ==> s@.subrange(0, 0) =~= p@);
        matches_at(s, p, 0)
    }

    /// True when the content ends with the content of `suffix`.
    pub fn ends_with(&self, suffix: &RocStr) -> (r: bool)
        ensures
            r == has_suffix(self@, suffix@),
            suffix@.len() == 0 ==> r,
            self@.len() == 0 && suffix@.len() > 0 ==> !r,
    {
        let s = self.as_slice();
        let p = suffix.as_slice();
        if p.len() > s.len() {
            return false;
        }
        assert(p@.len() == 0 ==> s@.subrange(s@.len() as int, s@.len() as int) =~= p@);
        matches_at(s, p, s.len() - p.len())
    }

    /// The pieces of the content between the non-overlapping occurrences of
    /// `delimiter`, found from left to right, each a new value. An empty
    /// delimiter, or one longer than the content, gives the content whole.
    pub fn split(&self, delimiter: &RocStr) -> (r: Vec<RocStr>)
        ensures
            views(r@) == split_spec(self@, delimiter@),
            r@.len() >= 1,
            delimiter@.len() == 0 || delimiter@.len() > self@.len() ==> views(r@) == seq![self@],
    {
        let s = self.as_slice();
        let d = delimiter.as_slice();
        let mut out: Vec<RocStr> = Vec::new();
        if d.len() == 0 || d.len() > s.len() {
            out.push(self.clone());
            proof {
                assert(s@.subrange(0, s@.len() as int) =~= s@);
                assert(views(out@) =~= seq![s@]);
            }
            return out;
        }
        let n: usize = s.len();
        let last: usize = n - d.len();
        let mut start: usize = 0;
        let mut i: usize = 0;
        while i <= last
            invariant
                d@.len() > 0,
                n == s@.len(),
                last == s@.len() - d@.len(),
                start <= i <= s@.len(),
                views(out@) + split_from(s@, d@, start as int, i as int) == split_spec(s@, d@),
            decreases s@.len() - i,
        {
            if matches_at(s, d, i) {
                let p = piece(s, start, i);
                let ghost before = views(out@);
                out.push(p);
                proof {
                    assert(views(out@) =~= before.push(p@));
                    assert(before.push(p@) + split_from(s@, d@, (i + d@.len()) as int, (i + d@.len()) as int)
                        =~= before + split_from(s@, d@, start as int, i as int));
                }
                i = i + d.len();
                start = i;
            } else {
                i += 1;
            }
        }
        let p = piece(s, start, s.len());
        let ghost before = views(out@);
        out.push(p);
        proof {
            assert(views(out@) =~= before.push(p@));
            assert(before.push(p@) =~= before + split_from(s@, d@, start as int, i as int));
        }
        out
    }

    /// The contents of `list` with the content of `separator` between each two
    /// neighbours; empty for an empty list.
    pub fn join_with(list: &[RocStr], separator: &RocStr) -> (r: RocStr)
        ensures
            r@ == join_spec(views(list@), separator@),
    {
        let sep = separator.as_slice();
        let mut v: Vec<u8> = Vec::new();
        let mut i: usize = 0;
        while i < list.len()
            invariant
                i <= list@.len(),
                v@ == join_spec(views(list@.subrange(0, i as int)), sep@),
            decreases list@.len() - i,
        {
            let ghost prev = views(list@.subrange(0, i as int));
            let ghost next = views(list@.subrange(0, i + 1));
            if i > 0 {
                append_slice(&mut v, sep);
            }
            append_slice(&mut v, list[i].as_slice());
            proof {
                assert(next.drop_last() =~= prev);
                assert(next.last() == list@[i as int]@);
                if i == 0 {
                    assert(v@ =~= next[0]);
                } else {
                    assert(v@ =~= join_spec(prev, sep@) + sep@ + next.last());
                }
            }
            i += 1;
        }
        assert(list@.subrange(0, list@.len() as int) =~= list@);
        RocStr::from_vec(v)
    }
}

} // verus!
