//! Reading the amount raised from the fundraiser's page.
use vstd::prelude::*;
use crate::text::{before_first, before_first_chars, chars_of, second_piece, second_piece_chars, string_of};

verus! {

broadcast use vstd::string::group_string_axioms;

/// The text right before the amount raised on the fundraiser's page.
pub const GFM_SPLIT1_PAT: &'static str = "amount_raised_unattributed\\\":";
/// The text right after the amount raised.
pub const GFM_SPLIT2_PAT: &'static str = ",\\\"";

/// The characters of `GFM_SPLIT1_PAT`.
pub open spec fn gfm_split1() -> Seq<char> {
    seq![
        'a', 'm', 'o', 'u', 'n', 't', '_', 'r', 'a', 'i', 's', 'e', 'd', '_', 'u', 'n', 'a', 't',
        't', 'r', 'i', 'b', 'u', 't', 'e', 'd', '\\', '"', ':',
    ]
}

/// The characters of `GFM_SPLIT2_PAT`.
pub open spec fn gfm_split2() -> Seq<char> {
    seq![',', '\\', '"']
}

/// The amount text of a page: what follows the first `GFM_SPLIT1_PAT` (up
/// to a second one), cut at the first `GFM_SPLIT2_PAT`; `None` when the page
/// does not hold `GFM_SPLIT1_PAT`.
pub open spec fn gfm_amount_spec(page: Seq<char>) -> Option<Seq<char>> {
    match second_piece(page, gfm_split1()) {
        Some(p) => Some(before_first(p, gfm_split2())),
        None => None,
    }
}

/// The text of the amount raised on the fundraiser's page, or the error
/// `Split1 failed` when the page does not name it.
pub fn gfm_amount_text(page: &str) -> (r: Result<String, String>)
    ensures
        match gfm_amount_spec(page@) {
            Some(t) => r matches Ok(s) && s@ == t,
            None => r matches Err(e) && e@ == "Split1 failed"@,
        },
{
    let p = chars_of(page);
    let pat1 = chars_of(GFM_SPLIT1_PAT);
    let pat2 = chars_of(GFM_SPLIT2_PAT);
    proof {
        reveal_strlit("amount_raised_unattributed\\\":");
        reveal_strlit(",\\\"");
        assert(pat1@ =~= gfm_split1());
        assert(pat2@ =~= gfm_split2());
    }
    match second_piece_chars(p.as_slice(), pat1.as_slice()) {
        Some(p1) => {
            let amount = before_first_chars(p1.as_slice(), pat2.as_slice());
            Ok(string_of(amount.as_slice()))
        },
        None => Err(<String as vstd::string::StringExecFns>::from_str("Split1 failed")),
    }
}

} // verus!
