use vstd::prelude::*;
use vstd::string::StringSliceAdditionalSpecFns;

verus! {

/// Width in bytes of a string value (two machine words on a 64-bit target).
pub const ROC_STR_MEM_SIZE: usize = 16;

/// The most content bytes that the inline (small) form holds.
pub const SMALL_CAPACITY: usize = 15;

/// The flag bit of the last byte that marks the inline (small) form.
pub const SMALL_FLAG: u8 = 0x80;

/// The sixteen bytes of the inline form of `s` (`s.len() <= 15`): the content,
/// zero padding, and a last byte holding the small flag and the length.
pub open spec fn small_layout(s: Seq<u8>) -> Seq<u8> {
    Seq::new(16, |i: int|
        if i == 15 { (0x80u8 | (s.len() as u8)) as u8 }
        else if i < s.len() { s[i] } else { 0u8 })
}

/// True of sixteen bytes that are a well-formed inline value: the small flag is
/// set, the length fits, and every byte past the content is zero.
pub open spec fn is_small_layout(b: Seq<u8>) -> bool {
    &&& b.len() == 16
    &&& b[15] >= 0x80
    &&& b[15] - 0x80 <= 15
    &&& forall|i: int| b[15] - 0x80 <= i < 15 ==> b[i] == 0
}

/// The content that well-formed inline bytes hold.
pub open spec fn small_content(b: Seq<u8>) -> Seq<u8> {
    b.subrange(0, b[15] - 0x80)
}

pub proof fn lemma_tag_byte(n: u8)
    requires
        n <= 15,
    ensures
        (0x80u8 | n) == 0x80 + n,
        (0x80u8 ^ n) == 0x80 + n,
{
    assert((0x80u8 | n) == 0x80 + n && (0x80u8 ^ n) == 0x80 + n) by (bit_vector)
        requires n <= 15;
}

/// The inline layout is well formed and holds exactly the content it was made from.
pub proof fn lemma_small_layout(s: Seq<u8>)
    requires
        s.len() <= 15,
    ensures
        is_small_layout(small_layout(s)),
        small_content(small_layout(s)) =~= s,
{
    lemma_tag_byte(s.len() as u8);
}

/// Well-formed inline bytes are the inline layout of the content they hold.
pub proof fn lemma_layout_content(b: Seq<u8>)
    requires
        is_small_layout(b),
    ensures
        small_layout(small_content(b)) =~= b,
        small_content(b).len() <= 15,
{
    lemma_tag_byte((b[15] - 0x80) as u8);
}

/// The sixteen bytes that `small_str` makes of `s`: its first bytes (at most
/// sixteen), zero padding, and a last byte that holds the small flag combined
/// with the copied length.
pub open spec fn spec_small_str(s: Seq<u8>) -> Seq<u8> {
    let n = if s.len() < 16 { s.len() } else { 16 };
    Seq::new(16, |i: int|
        if i == 15 { (0x80u8 ^ (n as u8)) as u8 }
        else if i < n { s[i] } else { 0u8 })
}

/// Lays out the bytes of `str` as a value in inline form would hold them.
pub fn small_str(str: &str) -> (r: [u8; 16])
    ensures
        r@ == spec_small_str(str.spec_bytes()),
        str.spec_bytes().len() <= 15 ==> r@ == small_layout(str.spec_bytes()),
{
    let mut bytes: [u8; 16] = [0u8; 16];
    let str_bytes = str.as_bytes();
    let output_len: usize = if str_bytes.len() < ROC_STR_MEM_SIZE {
        str_bytes.len()
    } else {
        ROC_STR_MEM_SIZE
    };
    let mut index: usize = 0;
    while index < output_len
        invariant
            output_len <= 16,
            output_len <= str_bytes@.len(),
            str_bytes@ == str.spec_bytes(),
            index <= output_len,
            bytes@.len() == 16,
            forall|i: int| 0 <= i < index ==> bytes@[i] == str_bytes@[i],
            forall|i: int| index <= i < 16 ==> bytes@[i] == 0,
        decreases output_len - index,
    {
        bytes[index] = str_bytes[index];
        index += 1;
    }
    bytes[ROC_STR_MEM_SIZE - 1] = SMALL_FLAG ^ (output_len as u8);
    assert(bytes@ =~= spec_small_str(str.spec_bytes()));
    proof {
        if str_bytes@.len() <= 15 {
            lemma_tag_byte(output_len as u8);
            assert(bytes@ =~= small_layout(str.spec_bytes()));
        }
    }
    bytes
}

} // verus!
