use vstd::prelude::*;

verus! {

/// The failures that the bridge reports to its caller.
#[derive(PartialEq, Eq, Structural, Debug, Clone, Copy)]
pub enum BleError {
    /// A command was sent before the command channel was installed.
    TxNotInitialized,
    /// The command channel was installed a second time.
    TxAlreadySet,
    /// The async runtime could not be obtained.
    RuntimeNotInitialized,
    /// No known peripheral carries the requested id.
    UnknownPeripheral,
    /// The receiving end of the command channel is gone.
    ChannelClosed,
    /// Nobody listens on the device stream any more.
    NoListeners,
}

impl BleError {
    /// The text under which this failure is reported.
    pub fn message(&self) -> (text: &'static str)
        ensures
            *self == BleError::TxNotInitialized ==> text@ == "TxNotInitialized"@,
            *self == BleError::TxAlreadySet ==> text@ == "TxAlreadySet"@,
            *self == BleError::RuntimeNotInitialized ==> text@ == "RuntimeNotInitialized"@,
            *self == BleError::UnknownPeripheral ==> text@ == "UnknownPeripheral(id)"@,
            *self == BleError::ChannelClosed ==> text@ == "channel closed"@,
            *self == BleError::NoListeners ==> text@ == "No listeners"@,
    {
        match self {
            BleError::TxNotInitialized => "TxNotInitialized",
            BleError::TxAlreadySet => "TxAlreadySet",
            BleError::RuntimeNotInitialized => "RuntimeNotInitialized",
            BleError::UnknownPeripheral => "UnknownPeripheral(id)",
            BleError::ChannelClosed => "channel closed",
            BleError::NoListeners => "No listeners",
        }
    }
}

} // verus!
