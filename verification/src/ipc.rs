use vstd::prelude::*;
use vstd::string::*;
use crate::text::push_str;

verus! {

/// The path of the local socket through which the dashboard is sent requests of the given kind
/// (such as `spinitron_instant_update`).
pub fn ipc_socket_path(name: &str) -> (res: String)
    ensures
        res@ == "/tmp/wbor_studio_dashboard_"@ + name@ + ".sock"@,
{
    let mut path = String::from_str("/tmp/wbor_studio_dashboard_");
    push_str(&mut path, name);
    push_str(&mut path, ".sock");
    path
}

} // verus!
