//! Small helpers over metadata values.

use vstd::prelude::*;

use crate::player::MetadataValue;

verus! {

/// The string inside a metadata value, when the value is plain text.
pub fn extract_str<'a>(v: &'a MetadataValue) -> (r: Option<&'a String>)
    ensures
        match v {
            MetadataValue::Text(t) => r == Some(t),
            _ => r is None,
        },
{
    if let MetadataValue::Text(t) = v {
        Some(t)
    } else {
        None
    }
}

} // verus!
