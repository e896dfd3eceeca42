//! The object-store listing model: what a listing reports about each remote
//! object, and how the most recent object is chosen from a listing.

use vstd::prelude::*;
use crate::text::chars_of;
use crate::text::digits_val;
use crate::text::parse_usize_chars;
use crate::text::parses_as_usize;

verus! {

/// One object of a store listing, as the listing reports it.
#[derive(Debug)]
pub struct GcsObject {
    pub bucket: String,
    pub content_type: String,
    pub id: String,
    pub md5_hash: String,
    pub media_link: String,
    pub name: String,
    pub self_link: String,
    pub size: String,
}

impl GcsObject {
    /// The object's declared size. The listing always reports a decimal
    /// numeral that fits in memory; anything else is a precondition
    /// violation, not a recoverable error.
    pub fn size(&self) -> (r: usize)
        requires
            parses_as_usize(self.size@),
        ensures
            r == digits_val(self.size@),
    {
        let v = chars_of(self.size.as_str());
        let parsed = parse_usize_chars(&v);
        match parsed {
            Some(n) => n,
            None => {
                proof {
                    assert(false);
                }
                0
            },
        }
    }
}

/// A store listing: the objects that matched a glob, in listing order.
pub struct GcsListObjectResponse {
    pub items: Vec<GcsObject>,
    pub kind: String,
}

impl GcsListObjectResponse {
    /// The listing order is treated as the recency signal: the object
    /// listed last wins; an empty listing yields nothing.
    pub fn take_most_recent(self) -> (r: Option<GcsObject>)
        ensures
            match r {
                Some(o) => self.items@.len() > 0 && o == self.items@.last(),
                None => self.items@.len() == 0,
            },
    {
        let mut items = self.items;
        items.pop()
    }
}

} // verus!
