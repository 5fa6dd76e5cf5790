//! The dashboard page that each department is shown.

use crate::db::Department;
use vstd::prelude::*;

verus! {

/// The file of the dashboard that members of `dept` are shown. Flunkies have
/// no dashboard.
pub fn dashboard_page(dept: &Department) -> (path: &'static str)
    requires
        *dept != Department::Flunky,
    ensures
        *dept == Department::Client ==> path@ == "./wwwsrc//dashboard/client.html"@,
        *dept == Department::Supervisor ==> path@ == "./wwwsrc//dashboard/supervisor.html"@,
{
    match dept {
        Department::Client => "./wwwsrc//dashboard/client.html",
        Department::Supervisor => "./wwwsrc//dashboard/supervisor.html",
        Department::Flunky => vstd::pervasive::unreached(),
    }
}

} // verus!
