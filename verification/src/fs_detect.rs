//! Classification of device-bus notifications into filesystem events.
//!
//! The daemon subscribes to the host's device-management bus and receives a
//! stream of loosely-typed signals. The I/O layer decodes each signal into a
//! [`RawSignal`] carrying plain values; [`classify_signal`] then applies the
//! exact filtering rule: only objects that gain or lose the mountable
//! filesystem capability become [`FsEvent`]s, everything else is discarded.

use vstd::prelude::*;

verus! {

/// A device event: one filesystem object appeared on or vanished from the
/// bus. The payload is the object path naming the device, used verbatim as
/// the registry key (exact equality, no normalization).
#[derive(Debug, Clone)]
pub enum FsEvent {
    FilesystemAdded(String),
    FilesystemRemoved(String),
}

/// One decoded bus notification, reduced to what the filter reads: which
/// signal arrived, the object path it concerns, and the interface names it
/// carries.
pub enum RawSignal {
    /// Interfaces appeared on an object; carries the added interface names.
    InterfacesAdded { object_path: String, interfaces: Vec<String> },
    /// Interfaces vanished from an object; carries the removed interface names.
    InterfacesRemoved { object_path: String, interfaces: Vec<String> },
    /// Any other signal on the bus; never produces an event.
    Other,
}

/// The interface name that marks an object as a mountable filesystem.
pub open spec fn filesystem_interface() -> Seq<char> {
    "org.freedesktop.UDisks2.Filesystem"@
}

/// Whether a list of interface names includes the mountable-filesystem one.
pub open spec fn names_filesystem(interfaces: Seq<Seq<char>>) -> bool {
    exists|k: int| 0 <= k < interfaces.len() && interfaces[k] == filesystem_interface()
}

/// Exact check for the mountable-filesystem capability in an interface list.
pub fn contains_filesystem_interface(interfaces: &Vec<String>) -> (r: bool)
    ensures
        r == names_filesystem(interfaces.deep_view()),
{
    let target: String = "org.freedesktop.UDisks2.Filesystem".to_owned();
    let n = interfaces.len();
    let mut found = false;
    let mut i: usize = 0;
    while i < n
        invariant
            i <= n,
            n == interfaces@.len(),
            target@ == filesystem_interface(),
            found == exists|k: int| 0 <= k < i && interfaces@[k]@ == filesystem_interface(),
        decreases n - i,
    {
        if interfaces[i].eq(&target) {
            found = true;
        }
        i = i + 1;
    }
    proof {
        assert(interfaces.deep_view().len() == interfaces@.len());
        assert(forall|k: int|
            0 <= k < interfaces@.len() ==> interfaces.deep_view()[k] == interfaces@[k]@);
        if found {
            let k = choose|k: int| 0 <= k < n && interfaces@[k]@ == filesystem_interface();
            assert(interfaces.deep_view()[k] == filesystem_interface());
        }
    }
    found
}

/// The translation rule of the event source: an object that gains the
/// filesystem capability is attached; one that loses it — even if other
/// capabilities remain — is detached; every other signal is ignored.
pub fn classify_signal(signal: RawSignal) -> (r: Option<FsEvent>)
    ensures
        match signal {
            RawSignal::InterfacesAdded { object_path, interfaces } => {
                if names_filesystem(interfaces.deep_view()) {
                    r matches Some(FsEvent::FilesystemAdded(p)) && p == object_path
                } else {
                    r is None
                }
            },
            RawSignal::InterfacesRemoved { object_path, interfaces } => {
                if names_filesystem(interfaces.deep_view()) {
                    r matches Some(FsEvent::FilesystemRemoved(p)) && p == object_path
                } else {
                    r is None
                }
            },
            RawSignal::Other => r is None,
        },
{
    match signal {
        RawSignal::InterfacesAdded { object_path, interfaces } => {
            if contains_filesystem_interface(&interfaces) {
                Some(FsEvent::FilesystemAdded(object_path))
            } else {
                None
            }
        },
        RawSignal::InterfacesRemoved { object_path, interfaces } => {
            if contains_filesystem_interface(&interfaces) {
                Some(FsEvent::FilesystemRemoved(object_path))
            } else {
                None
            }
        },
        RawSignal::Other => None,
    }
}

} // verus!
