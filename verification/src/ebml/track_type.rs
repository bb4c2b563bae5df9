//! Track types as defined by the Matroska specification.

use vstd::prelude::*;

verus! {

pub const VIDEO: u64 = 1;
pub const AUDIO: u64 = 2;
pub const COMPLEX: u64 = 3;
pub const LOGO: u64 = 0x10;
pub const SUBTITLE: u64 = 0x11;
pub const BUTTONS: u64 = 0x12;
pub const CONTROL: u64 = 0x20;
pub const METADATA: u64 = 0x21;

/// What a track type is called.
pub open spec fn type_label(t: u64) -> Seq<char> {
    if t == VIDEO {
        "video"@
    } else if t == AUDIO {
        "audio"@
    } else if t == COMPLEX {
        "complex"@
    } else if t == LOGO {
        "logo"@
    } else if t == SUBTITLE {
        "subtitle"@
    } else if t == BUTTONS {
        "buttons"@
    } else if t == CONTROL {
        "control"@
    } else if t == METADATA {
        "metadata"@
    } else {
        "unknown"@
    }
}

pub fn track_type_name(t: u64) -> (r: &'static str)
    ensures
        r@ == type_label(t),
{
    if t == VIDEO {
        "video"
    } else if t == AUDIO {
        "audio"
    } else if t == COMPLEX {
        "complex"
    } else if t == LOGO {
        "logo"
    } else if t == SUBTITLE {
        "subtitle"
    } else if t == BUTTONS {
        "buttons"
    } else if t == CONTROL {
        "control"
    } else if t == METADATA {
        "metadata"
    } else {
        "unknown"
    }
}

} // verus!
