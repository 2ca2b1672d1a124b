use std::sync::Arc;
use vstd::prelude::*;
use vstd::slice::slice_subrange;
use vstd::std_specs::cmp::PartialEqSpec;

use crate::layout::{
    is_small_layout, lemma_layout_content, lemma_small_layout, small_content, small_layout, SMALL_CAPACITY,
};

verus! {

/// How a value holds its content.
#[derive(Debug)]
enum Repr {
    /// Up to fifteen bytes inline, zero padded, with the tag-length byte last.
    Small([u8; 16]),
    /// More than fifteen bytes in a buffer that every clone shares.
    Big(Arc<Vec<u8>>),
}

/// A byte string in one of two forms, chosen by length alone: inline when the
/// content fits in fifteen bytes, shared on the heap otherwise.
#[derive(Debug)]
pub struct RocStr {
    repr: Repr,
}

impl View for RocStr {
    type V = Seq<u8>;

    closed spec fn view(&self) -> Seq<u8> {
        match self.repr {
            Repr::Small(b) => small_content(b@),
            Repr::Big(v) => v@,
        }
    }
}

impl RocStr {
    #[verifier::type_invariant]
    closed spec fn well_formed(&self) -> bool {
        match self.repr {
            Repr::Small(b) => is_small_layout(b@),
            Repr::Big(v) => v@.len() > 15,
        }
    }

    /// True when the value is held in the inline form.
    pub closed spec fn spec_is_small(&self) -> bool {
        self.repr is Small
    }

    /// The sixteen bytes of the value when it is in the inline form.
    pub closed spec fn spec_small_bytes(&self) -> Seq<u8> {
        match self.repr {
            Repr::Small(b) => b@,
            Repr::Big(_) => Seq::empty(),
        }
    }

    /// Takes ownership of `v` as the content of a new value.
    pub(crate) fn from_vec(v: Vec<u8>) -> (r: RocStr)
        ensures
            r@ == v@,
            r.spec_is_small() <==> v@.len() <= 15,
            v@.len() <= 15 ==> r.spec_small_bytes() == small_layout(v@),
    {
        if v.len() <= SMALL_CAPACITY {
            let mut b: [u8; 16] = [0u8; 16];
            let mut i: usize = 0;
            while i < v.len()
                invariant
                    v@.len() <= 15,
                    i <= v@.len(),
                    b@.len() == 16,
                    forall|k: int| 0 <= k < i ==> b@[k] == v@[k],
                    forall|k: int| i <= k < 16 ==> b@[k] == 0,
                decreases v@.len() - i,
            {
                b[i] = v[i];
                i += 1;
            }
            b[15] = 0x80u8 | (v.len() as u8);
            proof {
                lemma_small_layout(v@);
                assert(b@ =~= small_layout(v@));
            }
            RocStr { repr: Repr::Small(b) }
        } else {
            RocStr { repr: Repr::Big(Arc::new(v)) }
        }
    }

    /// A value with the given bytes as content, in the form its length calls
    /// for. The bytes are not checked to be UTF-8.
    pub fn from_slice(bytes: &[u8]) -> (r: RocStr)
        ensures
            r@ == bytes@,
            r.spec_is_small() <==> bytes@.len() <= 15,
            bytes@.len() <= 15 ==> r.spec_small_bytes() == small_layout(bytes@),
    {
        let mut v: Vec<u8> = Vec::with_capacity(bytes.len());
        let mut i: usize = 0;
        while i < bytes.len()
            invariant
                i <= bytes@.len(),
                v@ == bytes@.subrange(0, i as int),
            decreases bytes@.len() - i,
        {
            v.push(bytes[i]);
            i += 1;
            assert(v@ =~= bytes@.subrange(0, i as int));
        }
        assert(v@ =~= bytes@);
        RocStr::from_vec(v)
    }

    /// The empty string (inline).
    pub fn empty() -> (r: RocStr)
        ensures
            r@ == Seq::<u8>::empty(),
            r.spec_is_small(),
    {
        RocStr::from_vec(Vec::new())
    }

    /// The content bytes.
    pub fn as_slice(&self) -> (r: &[u8])
        ensures
            r@ == self@,
    {
        proof {
            use_type_invariant(self);
        }
        match &self.repr {
            Repr::Small(b) => {
                let n = (b[15] - 0x80) as usize;
                slice_subrange(b, 0, n)
            },
            Repr::Big(v) => v.as_slice(),
        }
    }

    /// The content length in bytes.
    pub fn len(&self) -> (r: usize)
        ensures
            r == self@.len(),
    {
        self.as_slice().len()
    }

    /// True when the content is empty.
    pub fn is_empty(&self) -> (r: bool)
        ensures
            r == (self@.len() == 0),
    {
        self.len() == 0
    }

    /// True when the value is held in the inline form.
    pub fn is_small_str(&self) -> (r: bool)
        ensures
            r == self.spec_is_small(),
            r == (self@.len() <= 15),
    {
        proof {
            use_type_invariant(self);
            if let Repr::Small(b) = self.repr {
                lemma_layout_content(b@);
            }
        }
        match &self.repr {
            Repr::Small(_) => true,
            Repr::Big(_) => false,
        }
    }

    /// The sixteen bytes of an inline value; `None` for a value on the heap.
    pub fn small_bytes(&self) -> (r: Option<[u8; 16]>)
        ensures
            r is Some <==> self@.len() <= 15,
            r is Some ==> r->0@ == small_layout(self@),
    {
        proof {
            use_type_invariant(self);
            if let Repr::Small(b) = self.repr {
                lemma_layout_content(b@);
            }
        }
        match &self.repr {
            Repr::Small(b) => Some(*b),
            Repr::Big(_) => None,
        }
    }

    /// A copy of the content bytes.
    pub fn to_bytes(&self) -> (r: Vec<u8>)
        ensures
            r@ == self@,
    {
        let s = self.as_slice();
        let mut v: Vec<u8> = Vec::with_capacity(s.len());
        let mut i: usize = 0;
        while i < s.len()
            invariant
                i <= s@.len(),
                v@ == s@.subrange(0, i as int),
            decreases s@.len() - i,
        {
            v.push(s[i]);
            i += 1;
            assert(v@ =~= s@.subrange(0, i as int));
        }
        assert(v@ =~= s@);
        v
    }
}

impl Clone for RocStr {
    /// Copies an inline value; shares the buffer of a value on the heap.
    fn clone(&self) -> (r: RocStr)
        ensures
            r@ == self@,
            r.spec_is_small() == self.spec_is_small(),
            r.spec_is_small() <==> r@.len() <= 15,
    {
        proof {
            use_type_invariant(self);
        }
        match &self.repr {
            Repr::Small(b) => RocStr { repr: Repr::Small(*b) },
            Repr::Big(v) => RocStr { repr: Repr::Big(Arc::clone(v)) },
        }
    }
}

/// True when `s` holds `d` at position `i`.
pub open spec fn occurs_at(s: Seq<u8>, d: Seq<u8>, i: int) -> bool {
    0 <= i && i + d.len() <= s.len() && s.subrange(i, i + d.len()) == d
}

/// Compares `d` with the bytes of `s` at position `i`.
pub(crate) fn matches_at(s: &[u8], d: &[u8], i: usize) -> (r: bool)
    requires
        i + d@.len() <= s@.len(),
    ensures
        r == occurs_at(s@, d@, i as int),
{
    let n = s.len();
    let mut k: usize = 0;
    while k < d.len()
        invariant
            n == s@.len(),
            i + d@.len() <= s@.len(),
            k <= d@.len(),
            forall|j: int| 0 <= j < k ==> s@[i + j] == d@[j],
        decreases d@.len() - k,
    {
        if s[i + k] != d[k] {
            assert(s@.subrange(i as int, i + d@.len())[k as int] != d@[k as int]);
            return false;
        }
        k += 1;
    }
    assert(s@.subrange(i as int, i + d@.len()) =~= d@);
    true
}

impl PartialEq for RocStr {
    /// Equality of content, whatever the form of either value.
    fn eq(&self, other: &RocStr) -> (r: bool) {
        let a = self.as_slice();
        let b = other.as_slice();
        if a.len() != b.len() {
            return false;
        }
        let r = matches_at(a, b, 0);
        assert(a@.subrange(0, b@.len() as int) =~= a@);
        r
    }
}

impl vstd::std_specs::cmp::PartialEqSpecImpl for RocStr {
    open spec fn obeys_eq_spec() -> bool {
        true
    }

    open spec fn eq_spec(&self, other: &RocStr) -> bool {
        self@ == other@
    }
}

/// Two values are equal exactly when their contents are, whatever form,
/// padding or buffer each has; in particular every value equals itself.
pub proof fn law_equality_by_content(a: RocStr, b: RocStr)
    ensures
        a.eq_spec(&b) <==> a@ == b@,
        a.eq_spec(&a),
{
}

} // verus!
