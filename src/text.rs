use unicode_segmentation::UnicodeSegmentation;
use vstd::prelude::*;
use vstd::utf8::valid_utf8;

use crate::roc_str::RocStr;

verus! {

/// The decimal digits of `m`, most significant first, without leading zeros.
pub open spec fn decimal_digits(m: nat) -> Seq<u8>
    decreases m,
{
    if m < 10 {
        seq![(48 + m) as u8]
    } else {
        decimal_digits(m / 10).push((48 + m % 10) as u8)
    }
}

/// The decimal text of `n`: a `-` exactly when it is negative, then its digits.
pub open spec fn decimal_text(n: int) -> Seq<u8> {
    if n < 0 {
        seq![45u8] + decimal_digits((-n) as nat)
    } else {
        decimal_digits(n as nat)
    }
}

/// Appends the decimal digits of `m` to `v`.
fn push_digits(v: &mut Vec<u8>, m: u64)
    ensures
        final(v)@ == old(v)@ + decimal_digits(m as nat),
    decreases m,
{
    if m >= 10 {
        push_digits(v, m / 10);
    }
    v.push(48 + (m % 10) as u8);
    assert(v@ =~= old(v)@ + decimal_digits(m as nat));
}

/// The number of grapheme clusters of UTF-8 text, by Unicode's extended
/// segmentation rules.
pub uninterp spec fn grapheme_count_of(b: Seq<u8>) -> nat;

/// Relies on `UnicodeSegmentation::graphemes` of unicode-segmentation, with
/// extended clusters: the count depends on the text alone, and empty text has
/// no cluster.
#[verifier::external_body]
fn grapheme_count(b: &[u8]) -> (r: usize)
    requires
        valid_utf8(b@),
    ensures
        r == grapheme_count_of(b@),
        b@.len() == 0 ==> r == 0,
{
    match std::str::from_utf8(b) {
        Ok(s) => s.graphemes(true).count(),
        Err(_) => 0,
    }
}

impl RocStr {
    /// The canonical decimal text of `n`.
    pub fn from_int(n: i64) -> (r: RocStr)
        ensures
            r@ == decimal_text(n as int),
    {
        let mut v: Vec<u8> = Vec::new();
        let m: u64 = if n < 0 {
            v.push(45u8);
            ((-(n + 1)) as u64) + 1
        } else {
            n as u64
        };
        push_digits(&mut v, m);
        RocStr::from_vec(v)
    }

    /// The number of grapheme clusters of the content, which is UTF-8.
    pub fn count_graphemes(&self) -> (r: usize)
        requires
            valid_utf8(self@),
        ensures
            r == grapheme_count_of(self@),
    {
        grapheme_count(self.as_slice())
    }
}

} // verus!
