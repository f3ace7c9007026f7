//! Failures of the privileged open of a raw device node.
use vstd::prelude::*;

verus! {

/// Why the disk-management service did not hand out a device handle.
#[derive(Clone, Copy, Debug, PartialEq, Eq, Structural)]
pub enum AccessError {
    /// The caller is not allowed to open the device.
    Denied,
    /// The device is not known to the service.
    NotFound,
    /// The call itself failed: no reply, a timeout, or the service is gone.
    IpcFailure,
}

/// Whether `name` is one of the D-Bus error names of a refused authorization.
pub open spec fn is_denial(name: Seq<char>) -> bool {
    ||| name == "org.freedesktop.UDisks2.Error.NotAuthorized"@
    ||| name == "org.freedesktop.UDisks2.Error.NotAuthorizedCanObtain"@
    ||| name == "org.freedesktop.UDisks2.Error.NotAuthorizedDismissed"@
    ||| name == "org.freedesktop.DBus.Error.AccessDenied"@
}

/// Whether `name` is one of the D-Bus error names of an unknown device object.
pub open spec fn is_missing(name: Seq<char>) -> bool {
    ||| name == "org.freedesktop.DBus.Error.UnknownObject"@
    ||| name == "org.freedesktop.DBus.Error.UnknownInterface"@
}

/// The failure that a D-Bus error named `name` stands for.
pub open spec fn access_error_of(name: Seq<char>) -> AccessError {
    if is_denial(name) {
        AccessError::Denied
    } else if is_missing(name) {
        AccessError::NotFound
    } else {
        AccessError::IpcFailure
    }
}

impl AccessError {
    /// Classifies the error that the disk-management service answered an
    /// open request with, by its D-Bus error name.
    pub fn from_error_name(name: &str) -> (r: AccessError)
        ensures
            r == access_error_of(name@),
    {
        let name = name.to_owned();
        if name == "org.freedesktop.UDisks2.Error.NotAuthorized".to_owned() || name
            == "org.freedesktop.UDisks2.Error.NotAuthorizedCanObtain".to_owned() || name
            == "org.freedesktop.UDisks2.Error.NotAuthorizedDismissed".to_owned() || name
            == "org.freedesktop.DBus.Error.AccessDenied".to_owned() {
            AccessError::Denied
        } else if name == "org.freedesktop.DBus.Error.UnknownObject".to_owned() || name
            == "org.freedesktop.DBus.Error.UnknownInterface".to_owned() {
            AccessError::NotFound
        } else {
            AccessError::IpcFailure
        }
    }
}

} // verus!
