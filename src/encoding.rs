//! The character repertoire of the document's encoding, as far as name
//! validation needs it: which characters the encoding can represent.
use vstd::prelude::*;

verus! {

/// An encoding, described by its label and the inclusive ranges of code
/// points that it can represent.
pub struct Encoding {
    pub label: String,
    pub ranges: Vec<(u32, u32)>,
}

impl Encoding {
    /// Whether the encoding can represent `c`.
    pub open spec fn represents(&self, c: char) -> bool {
        exists|i: int|
            0 <= i < self.ranges@.len() && #[trigger] self.ranges@[i].0 <= c as u32
                && c as u32 <= self.ranges@[i].1
    }

    pub fn new(label: String, ranges: Vec<(u32, u32)>) -> (r: Self)
        ensures
            r.label@ == label@,
            r.ranges@ == ranges@,
    {
        Encoding { label, ranges }
    }

    /// UTF-8, which represents every character.
    pub fn utf8() -> (r: Self)
        ensures
            forall|c: char| r.represents(c),
    {
        let mut ranges: Vec<(u32, u32)> = Vec::new();
        ranges.push((0, 0x10FFFF));
        let r = Encoding { label: String::from_str("UTF-8"), ranges };
        assert forall|c: char| r.represents(c) by {
            vstd::utf8::char_is_scalar(c);
            assert(r.ranges@[0].0 <= c as u32 && c as u32 <= r.ranges@[0].1);
        }
        r
    }

    pub fn can_encode(&self, c: char) -> (r: bool)
        ensures
            r == self.represents(c),
    {
        let mut i: usize = 0;
        while i < self.ranges.len()
            invariant
                i <= self.ranges@.len(),
                forall|k: int|
                    0 <= k < i ==> !(#[trigger] self.ranges@[k].0 <= c as u32 && c as u32
                        <= self.ranges@[k].1),
            decreases self.ranges@.len() - i,
        {
            let (lo, hi) = self.ranges[i];
            if lo <= c as u32 && c as u32 <= hi {
                return true;
            }
            i += 1;
        }
        false
    }
}

} // verus!
