//! Version resolution: fuzzy matching of version strings against the
//! available versions, version discovery, GitHub release handling, platform
//! asset selection and the fetch/retry policy of version sources.

pub mod asset_selector;
pub mod cache;
pub mod discovery;
pub mod fuzzy;
pub mod github_releases;

use vstd::prelude::*;
use vstd::string::*;
use vstd::utf8::{encode_utf8, is_char_boundary};

verus! {

/// The first `max` bytes of a string (all of it when it is shorter): used to
/// shorten response bodies and URLs in messages. The cut must fall on a
/// character boundary.
pub fn truncate(s: &str, max: usize) -> (r: String)
    requires
        encode_utf8(s@).len() <= usize::MAX,
        encode_utf8(s@).len() > max ==> is_char_boundary(encode_utf8(s@), max as int),
    ensures
        encode_utf8(r@) == if encode_utf8(s@).len() <= max { encode_utf8(s@) } else { encode_utf8(s@).subrange(0, max as int) },
{
    if s.len() <= max {
        String::from_str(s)
    } else {
        let (head, _) = s.split_at(max);
        assert(head.spec_bytes() == encode_utf8(head@));
        assert(s.spec_bytes() == encode_utf8(s@));
        String::from_str(head)
    }
}

} // verus!
