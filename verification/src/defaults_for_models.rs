//! Per-field default providers used by the deserialization path of the
//! record schemas when a field is absent.
use vstd::prelude::*;

verus! {

pub fn default_to_bigint_zero() -> (r: i64)
    ensures
        r == 0,
{
    0
}

pub fn default_to_zero() -> (r: u32)
    ensures
        r == 0,
{
    0
}

pub fn default_to_false() -> (r: bool)
    ensures
        !r,
{
    false
}

pub fn default_to_channel_str() -> (r: String)
    ensures
        r@ == "channel"@,
{
    "channel".to_owned()
}

pub fn default_visibility() -> (r: String)
    ensures
        r@ == "public"@,
{
    "public".to_owned()
}

pub fn default_voice_mode() -> (r: String)
    ensures
        r@ == "free"@,
{
    "free".to_owned()
}

pub fn default_str() -> (r: String)
    ensures
        r@ == " "@,
{
    " ".to_owned()
}

} // verus!
