//! Fallback identity for messages whose source supplied none: a name-based
//! UUID over the platform's namespace and the escaped body.
use vstd::prelude::*;

use crate::text::text_equals;

verus! {

/// The name-based (version 5) UUID of `name` in `namespace`, as an integer.
pub uninterp spec fn uuid_v5(namespace: u128, name: Seq<char>) -> u128;

/// Relies on uuid::Uuid::new_v5: a SHA-1 name-based identifier that depends on
/// the namespace and the name alone.
#[verifier::external_body]
fn uuid_v5_of(namespace: u128, name: &str) -> (r: u128)
    ensures
        r == uuid_v5(namespace, name@),
{
    uuid::Uuid::new_v5(&uuid::Uuid::from_u128(namespace), name.as_bytes()).as_u128()
}

pub const YOUTUBE_NAMESPACE: u128 = 0x2b6f_0c1e_7a4d_4e0b_9c3f_5d1a_8e62_7b90;

pub const TWITCH_NAMESPACE: u128 = 0x9d41_6e2a_3c85_4f17_a0b9_12e4_c7d3_58f6;

pub const RUMBLE_NAMESPACE: u128 = 0x5e83_a9d2_0f6b_4c71_8a2e_d4b9_3160_ec47;

pub const ODYSEE_NAMESPACE: u128 = 0xc2f7_1b58_e94a_4d36_b5c0_7e81_2a9f_d613;

/// For every other platform.
pub const OTHER_NAMESPACE: u128 = 0x7a10_d3c6_5b2e_4f89_9e47_0c6b_f851_a23d;

/// The namespace of a platform's derived identifiers.
pub open spec fn platform_namespace(platform: Seq<char>) -> u128 {
    if platform == "YouTube"@ {
        YOUTUBE_NAMESPACE
    } else if platform == "Twitch"@ {
        TWITCH_NAMESPACE
    } else if platform == "Rumble"@ {
        RUMBLE_NAMESPACE
    } else if platform == "Odysee"@ {
        ODYSEE_NAMESPACE
    } else {
        OTHER_NAMESPACE
    }
}

pub fn namespace_for(platform: &str) -> (r: u128)
    ensures
        r == platform_namespace(platform@),
{
    if text_equals(platform, "YouTube") {
        YOUTUBE_NAMESPACE
    } else if text_equals(platform, "Twitch") {
        TWITCH_NAMESPACE
    } else if text_equals(platform, "Rumble") {
        RUMBLE_NAMESPACE
    } else if text_equals(platform, "Odysee") {
        ODYSEE_NAMESPACE
    } else {
        OTHER_NAMESPACE
    }
}

/// The identifier derived for a message of `platform` whose escaped body is `body`.
pub open spec fn derived_id(platform: Seq<char>, body: Seq<char>) -> u128 {
    uuid_v5(platform_namespace(platform), body)
}

pub fn derive_id(platform: &str, body: &str) -> (r: u128)
    ensures
        r == derived_id(platform@, body@),
{
    uuid_v5_of(namespace_for(platform), body)
}

} // verus!
