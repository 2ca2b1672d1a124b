use vstd::prelude::*;
use vstd::utf8::*;

use crate::ops::piece;
use crate::roc_str::RocStr;
use crate::utf8::{lemma_scalar_problem, problem_at, scalar_problem};

verus! {

/// Whether a character has Unicode's `White_Space` property.
pub uninterp spec fn white_space(c: char) -> bool;

/// Relies on `char::is_whitespace` of std, which tests the `White_Space`
/// property of the scalar `cp` (a scalar value, so `char::from_u32` accepts it).
#[verifier::external_body]
fn is_white_space(cp: u32) -> (r: bool)
    requires
        cp <= 0x10ffff,
        !(0xd800 <= cp <= 0xdfff),
    ensures
        r == white_space(cp as char),
{
    match char::from_u32(cp) {
        Some(c) => c.is_whitespace(),
        None => false,
    }
}

/// For each character of `cs`, whether it is white space.
pub open spec fn white_flags(cs: Seq<char>) -> Seq<bool> {
    cs.map_values(|c: char| white_space(c))
}

/// The number of `true` flags at the start of `f`.
pub open spec fn leading_true(f: Seq<bool>) -> nat
    decreases f.len(),
{
    if f.len() > 0 && f[0] {
        1 + leading_true(f.drop_first())
    } else {
        0
    }
}

/// The number of `true` flags at the end of `f`.
pub open spec fn trailing_true(f: Seq<bool>) -> nat
    decreases f.len(),
{
    if f.len() > 0 && f.last() {
        1 + trailing_true(f.drop_last())
    } else {
        0
    }
}

/// `cs` without its leading white space.
pub open spec fn trim_left_spec(cs: Seq<char>) -> Seq<char> {
    cs.subrange(leading_true(white_flags(cs)) as int, cs.len() as int)
}

/// `cs` without its trailing white space.
pub open spec fn trim_right_spec(cs: Seq<char>) -> Seq<char> {
    cs.subrange(0, cs.len() - trailing_true(white_flags(cs)))
}

/// Where `f[k..]` is all `true` and `f[k - 1]` is not, the trailing run is `f[k..]`.
proof fn lemma_trailing_from(f: Seq<bool>, k: int)
    requires
        0 <= k <= f.len(),
        forall|m: int| k <= m < f.len() ==> #[trigger] f[m],
        k == 0 || !f[k - 1],
    ensures
        trailing_true(f) == f.len() - k,
    decreases f.len(),
{
    if f.len() > k {
        let d = f.drop_last();
        assert forall|m: int| k <= m < d.len() implies #[trigger] d[m] by {
            assert(d[m] == f[m]);
        }
        lemma_trailing_from(d, k);
    }
}

/// Decoding distributes over concatenation of valid UTF-8.
pub proof fn lemma_decode_concat(a: Seq<u8>, b: Seq<u8>)
    requires
        valid_utf8(a),
        valid_utf8(b),
    ensures
        valid_utf8(a + b),
        decode_utf8(a + b) == decode_utf8(a) + decode_utf8(b),
    decreases a.len(),
{
    if a.len() == 0 {
        assert(a + b =~= b);
        assert(decode_utf8(a) + decode_utf8(b) =~= decode_utf8(b));
    } else {
        let w = length_of_first_scalar(a);
        let rest = a.subrange(w, a.len() as int);
        lemma_decode_concat(rest, b);
        let s = a + b;
        assert(s.subrange(0, w) =~= a.subrange(0, w));
        assert(s.subrange(w, s.len() as int) =~= rest + b);
        assert(decode_utf8(s) =~= decode_utf8(a) + decode_utf8(b));
    }
}

/// The scalar at the start of valid UTF-8 text, its width, and the decoding
/// of what follows it.
fn scalar_at(s: &[u8], i: usize) -> (r: (u32, usize))
    requires
        i < s@.len(),
        valid_utf8(s@.subrange(i as int, s@.len() as int)),
    ensures
        ({
            let t = s@.subrange(i as int, s@.len() as int);
            &&& 1 <= r.1 <= t.len()
            &&& r.1 == length_of_first_scalar(t)
            &&& r.0 == decode_first_scalar(t)
            &&& r.0 <= 0x10ffff && !(0xd800 <= r.0 <= 0xdfff)
            &&& valid_utf8(s@.subrange(i + r.1, s@.len() as int))
            &&& decode_utf8(t) == seq![r.0 as char] + decode_utf8(s@.subrange(i + r.1, s@.len() as int))
            &&& valid_utf8(t.subrange(0, r.1 as int))
            &&& decode_utf8(t.subrange(0, r.1 as int)) == seq![r.0 as char]
        }),
{
    let ghost t = s@.subrange(i as int, s@.len() as int);
    let (p, w, cp) = problem_at(s, i);
    proof {
        lemma_scalar_problem(t);
        assert(t.subrange(w as int, t.len() as int) =~= s@.subrange(i + w, s@.len() as int));
        let h = t.subrange(0, w as int);
        assert(h.subrange(0, w as int) =~= h);
        assert(h[0] == t[0]);
        assert(w >= 2 ==> h[1] == t[1]);
        assert(w >= 3 ==> h[2] == t[2]);
        assert(w >= 4 ==> h[3] == t[3]);
        assert(scalar_problem(h) == scalar_problem(t));
        lemma_scalar_problem(h);
        let e = Seq::<u8>::empty();
        assert(valid_utf8(e));
        assert(decode_utf8(e) =~= Seq::<char>::empty());
        assert(pop_first_scalar(h) =~= e);
        assert(valid_utf8(h));
        assert(decode_utf8(h) =~= seq![cp as char]);
    }
    (cp, w)
}

impl RocStr {
    /// For each character of the content, which is UTF-8, whether it is
    /// white space.
    pub fn white_space_flags(&self) -> (r: Vec<bool>)
        requires
            valid_utf8(self@),
        ensures
            r@ == white_flags(decode_utf8(self@)),
    {
        let s = self.as_slice();
        let n = s.len();
        let ghost cs = decode_utf8(s@);
        let mut flags: Vec<bool> = Vec::new();
        let mut i: usize = 0;
        assert(s@.subrange(0, n as int) =~= s@);
        assert(cs.subrange(0, cs.len() as int) =~= cs);
        while i < n
            invariant
                n == s@.len(),
                i <= n,
                cs == decode_utf8(s@),
                flags@.len() <= cs.len(),
                valid_utf8(s@.subrange(i as int, n as int)),
                decode_utf8(s@.subrange(i as int, n as int)) == cs.subrange(flags@.len() as int, cs.len() as int),
                flags@ == white_flags(cs).subrange(0, flags@.len() as int),
            decreases n - i,
        {
            let (cp, w) = scalar_at(s, i);
            let ghost j = flags@.len() as int;
            let ghost rest = cs.subrange(j, cs.len() as int);
            assert(rest.len() >= 1);
            assert(rest[0] == cs[j]);
            let white = is_white_space(cp);
            flags.push(white);
            proof {
                assert(rest.drop_first() =~= cs.subrange(j + 1, cs.len() as int));
                assert(flags@ =~= white_flags(cs).subrange(0, j + 1));
            }
            i = i + w;
        }
        assert(s@.subrange(n as int, n as int) =~= Seq::<u8>::empty());
        assert(flags@ =~= white_flags(cs));
        flags
    }

    /// The content, which is UTF-8, without the characters at its start that
    /// `white` marks, one flag per character.
    pub fn trim_left_by(&self, white: &[bool]) -> (r: RocStr)
        requires
            valid_utf8(self@),
            white@.len() == decode_utf8(self@).len(),
        ensures
            valid_utf8(r@),
            decode_utf8(r@) == decode_utf8(self@).subrange(leading_true(white@) as int, decode_utf8(self@).len() as int),
    {
        let s = self.as_slice();
        let n = s.len();
        let ghost cs = decode_utf8(s@);
        let mut i: usize = 0;
        let mut j: usize = 0;
        let mut stop = false;
        assert(s@.subrange(0, n as int) =~= s@);
        assert(cs.subrange(0, cs.len() as int) =~= cs);
        assert(white@.subrange(0, white@.len() as int) =~= white@);
        while i < n && !stop
            invariant
                n == s@.len(),
                i <= n,
                cs == decode_utf8(s@),
                white@.len() == cs.len(),
                j <= cs.len(),
                valid_utf8(s@.subrange(i as int, n as int)),
                decode_utf8(s@.subrange(i as int, n as int)) == cs.subrange(j as int, cs.len() as int),
                leading_true(white@) == j + leading_true(white@.subrange(j as int, white@.len() as int)),
                stop ==> j < cs.len() && !white@[j as int],
            decreases n - i + (if stop { 0int } else { 1int }),
        {
            let (_, w) = scalar_at(s, i);
            let ghost rest = cs.subrange(j as int, cs.len() as int);
            assert(rest.len() >= 1);
            if white[j] {
                proof {
                    assert(white@.subrange(j as int, white@.len() as int).drop_first()
                        =~= white@.subrange(j + 1, white@.len() as int));
                    assert(rest.drop_first() =~= cs.subrange(j + 1, cs.len() as int));
                }
                j = j + 1;
                i = i + w;
            } else {
                stop = true;
            }
        }
        proof {
            let rest = white@.subrange(j as int, white@.len() as int);
            if !stop {
                assert(s@.subrange(i as int, n as int) =~= Seq::<u8>::empty());
                assert(rest.len() == 0);
            } else {
                assert(rest[0] == white@[j as int]);
            }
            assert(leading_true(rest) == 0);
        }
        piece(s, i, n)
    }

    /// The content, which is UTF-8, without the characters at its end that
    /// `white` marks, one flag per character.
    pub fn trim_right_by(&self, white: &[bool]) -> (r: RocStr)
        requires
            valid_utf8(self@),
            white@.len() == decode_utf8(self@).len(),
        ensures
            valid_utf8(r@),
            decode_utf8(r@) == decode_utf8(self@).subrange(0, decode_utf8(self@).len() - trailing_true(white@)),
    {
        let s = self.as_slice();
        let n = s.len();
        let ghost cs = decode_utf8(s@);
        let mut i: usize = 0;
        let mut end: usize = 0;
        let mut j: usize = 0;
        let ghost mut ce: int = 0;
        assert(s@.subrange(0, n as int) =~= s@);
        assert(cs.subrange(0, cs.len() as int) =~= cs);
        assert(s@.subrange(0, 0) =~= Seq::<u8>::empty());
        assert(cs.subrange(0, 0) =~= Seq::<char>::empty());
        while i < n
            invariant
                n == s@.len(),
                end <= i <= n,
                cs == decode_utf8(s@),
                white@.len() == cs.len(),
                0 <= ce <= j <= cs.len(),
                valid_utf8(s@.subrange(i as int, n as int)),
                decode_utf8(s@.subrange(i as int, n as int)) == cs.subrange(j as int, cs.len() as int),
                valid_utf8(s@.subrange(0, i as int)),
                decode_utf8(s@.subrange(0, i as int)) == cs.subrange(0, j as int),
                valid_utf8(s@.subrange(0, end as int)),
                decode_utf8(s@.subrange(0, end as int)) == cs.subrange(0, ce),
                forall|m: int| ce <= m < j ==> #[trigger] white@[m],
                ce == 0 || !white@[ce - 1],
            decreases n - i,
        {
            let (cp, w) = scalar_at(s, i);
            proof {
                let t = s@.subrange(i as int, n as int);
                let h = t.subrange(0, w as int);
                assert(decode_utf8(t).len() >= 1);
                assert(j < cs.len());
                lemma_decode_concat(s@.subrange(0, i as int), h);
                assert(s@.subrange(0, i as int) + h =~= s@.subrange(0, i + w));
                assert(cs.subrange(j as int, cs.len() as int)[0] == cs[j as int]);
                assert(cs.subrange(0, j as int) + seq![cp as char] =~= cs.subrange(0, j + 1));
                assert(cs.subrange(j as int, cs.len() as int).drop_first() =~= cs.subrange(j + 1, cs.len() as int));
            }
            let is_white = white[j];
            i = i + w;
            j = j + 1;
            if !is_white {
                end = i;
                proof {
                    ce = j as int;
                }
            }
        }
        proof {
            lemma_trailing_from(white@, ce);
        }
        piece(s, 0, end)
    }

    /// The content without its leading white space; the content is UTF-8.
    pub fn trim_left(&self) -> (r: RocStr)
        requires
            valid_utf8(self@),
        ensures
            valid_utf8(r@),
            decode_utf8(r@) == trim_left_spec(decode_utf8(self@)),
    {
        let white = self.white_space_flags();
        self.trim_left_by(white.as_slice())
    }

    /// The content without its trailing white space; the content is UTF-8.
    pub fn trim_right(&self) -> (r: RocStr)
        requires
            valid_utf8(self@),
        ensures
            valid_utf8(r@),
            decode_utf8(r@) == trim_right_spec(decode_utf8(self@)),
    {
        let white = self.white_space_flags();
        self.trim_right_by(white.as_slice())
    }

    /// The content without its leading and trailing white space; the content
    /// is UTF-8.
    pub fn trim(&self) -> (r: RocStr)
        requires
            valid_utf8(self@),
        ensures
            valid_utf8(r@),
            decode_utf8(r@) == trim_right_spec(trim_left_spec(decode_utf8(self@))),
    {
        let left = self.trim_left();
        left.trim_right()
    }
}

} // verus!
