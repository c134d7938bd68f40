//! Identifiers shared by the whole server.
use vstd::prelude::*;

verus! {

/// UID of the Deep Dip 2 map, the map whose climbs count for the main leaderboard.
pub const DD2_MAP_UID: &'static str = "DeepDip2__The_Storm_Is_Here";

/// The characters of `DD2_MAP_UID`.
pub open spec fn dd2_map_uid() -> Seq<char> {
    seq![
        'D', 'e', 'e', 'p', 'D', 'i', 'p', '2', '_', '_', 'T', 'h', 'e', '_', 'S', 't', 'o', 'r',
        'm', '_', 'I', 's', '_', 'H', 'e', 'r', 'e',
    ]
}

/// The characters of `DD2_MAP_UID`, in a vector.
pub fn dd2_map_uid_chars() -> (v: Vec<char>)
    ensures
        v@ == dd2_map_uid(),
{
    let v = crate::text::chars_of(DD2_MAP_UID);
    proof {
        reveal_strlit("DeepDip2__The_Storm_Is_Here");
        assert(v@ =~= dd2_map_uid());
    }
    v
}

} // verus!
