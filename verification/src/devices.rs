//! The list of devices linked to the account.

use vstd::prelude::*;

verus! {

/// The message that asks for the linked devices to be fetched again.
#[derive(Clone, Copy, Debug, PartialEq, Eq, Structural)]
pub struct ReloadLinkedDevices;

/// The linked devices shown to the user, in the order the server listed
/// them.
pub struct DeviceModel<T> {
    content: Vec<T>,
}

impl<T> DeviceModel<T> {
    /// The devices shown.
    pub closed spec fn devices(self) -> Seq<T> {
        self.content@
    }

    /// No device is shown.
    pub fn new() -> (res: Self)
        ensures
            res.devices() == Seq::<T>::empty(),
    {
        DeviceModel { content: Vec::new() }
    }

    /// The devices were fetched: they replace the ones shown.
    pub fn set_devices(&mut self, content: Vec<T>)
        ensures
            final(self).devices() == content@,
    {
        self.content = content;
    }

    /// The number of devices shown.
    pub fn row_count(&self) -> (res: usize)
        ensures
            res == self.devices().len(),
    {
        self.content.len()
    }
}

} // verus!
