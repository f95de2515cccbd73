//! Translations of an allowlist into a harness's own settings.

use crate::builtin::{merge_claude_settings, merged_settings, settings_shape, Allowlist};
use crate::json::{member_trees, Json};
use vstd::prelude::*;

verus! {

/// The user's settings with the permissions that an allowlist stands for.
pub fn claude_settings_translation(allowlist: &Allowlist, user_settings: Json) -> (r: Json)
    requires
        settings_shape(user_settings@),
    ensures
        r@ == merged_settings(user_settings@, member_trees(allowlist@)),
{
    merge_claude_settings(user_settings, allowlist)
}

} // verus!
