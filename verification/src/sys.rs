//! System meters: which sysfs DRM entries are GPU cards.
use vstd::prelude::*;

use crate::text::chars_of;
use crate::text::contains;
use crate::text::contains_chars;
use crate::text::starts_with;
use crate::text::starts_with_chars;

verus! {

broadcast use vstd::string::group_string_axioms;

/// Whether a sysfs DRM entry is a GPU card (`cardN`, not a connector such
/// as `card0-DP-1` nor a render node).
pub fn is_gpu_card_name(name: &str) -> (r: bool)
    ensures
        r == (starts_with(name@, "card"@) && !contains(name@, seq!['-'])),
{
    let n = chars_of(name);
    let p = chars_of("card");
    let mut dash: Vec<char> = Vec::new();
    dash.push('-');
    assert(dash@ =~= seq!['-']);
    starts_with_chars(&n, &p) && !contains_chars(&n, &dash)
}

} // verus!
