//! The batch loader: applications run one after the other, each copied to
//! its own slot.
use vstd::prelude::*;

verus! {

/// Where the first application is loaded.
pub const APP_BASE_ADDRESS: usize = 0x8040_0000;
/// The distance between the slots of two applications.
pub const APP_SIZE_LIMIT: usize = 0x2000;

/// The address application `app_id` is loaded at and starts from.
pub fn app_start(app_id: usize) -> (r: usize)
    requires
        0x8040_0000 + app_id * 0x2000 <= usize::MAX,
    ensures
        r == 0x8040_0000 + app_id * 0x2000,
{
    APP_BASE_ADDRESS + app_id * APP_SIZE_LIMIT
}

/// The application to run after application `app_id` when there are
/// `num_apps`: the next one, or none after the last (the machine then shuts
/// down).
pub fn next(app_id: usize, num_apps: usize) -> (r: Option<usize>)
    requires
        num_apps >= 1,
    ensures
        r == (if app_id < num_apps - 1 {
            Some((app_id + 1) as usize)
        } else {
            None
        }),
{
    if app_id < num_apps - 1 {
        Some(app_id + 1)
    } else {
        None
    }
}

} // verus!
