use vstd::prelude::*;

verus! {

broadcast use vstd::string::group_string_axioms;

/// The name shown for a device in the device lists: the name the device
/// reports, or "Unknown device" when it could not describe itself.
pub fn device_display_name(reported: Option<String>) -> (name: String)
    ensures
        name@ == match reported {
            Some(n) => n@,
            None => "Unknown device"@,
        },
{
    match reported {
        Some(n) => n,
        None => "Unknown device".to_string(),
    }
}

} // verus!
