//! Which images are fetched over the network.
use vstd::prelude::*;

use crate::text::{chars_of, starts_with, starts_with_lit};

verus! {

pub open spec fn is_remote_spec(url: Seq<char>) -> bool {
    starts_with(url, "http://"@) || starts_with(url, "https://"@)
}

/// Whether an image address is fetched over the network.
pub fn is_remote(url: &str) -> (r: bool)
    ensures
        r == is_remote_spec(url@),
{
    let cs = chars_of(url);
    starts_with_lit(&cs, "http://") || starts_with_lit(&cs, "https://")
}

} // verus!
