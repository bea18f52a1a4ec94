//! Failure taxonomy of the bridge.
//!
//! `DeviceError` classifies failures below the command/response boundary;
//! `InvocationError` is what a method invocation reports to its caller.
//! Each error renders to the human-readable text that the poller publishes.

use vstd::prelude::*;

verus! {

/// A failure originating below the command/response boundary.
#[derive(Debug)]
pub enum DeviceError {
    /// No matching response arrived within the bounded wait.
    Timeout,
    /// The physical channel could not be used at all.
    ChannelUnavailable,
    /// The reply was malformed at the transport level (framing, checksum).
    Protocol(String),
    /// The device itself reported a fault for the command.
    DeviceFault(String),
}

/// The variant of a `DeviceError`, without its detail text.
#[derive(Clone, Copy, PartialEq, Eq, Structural, Debug)]
pub enum DeviceErrorKind {
    Timeout,
    ChannelUnavailable,
    Protocol,
    DeviceFault,
}

impl DeviceError {
    pub open spec fn kind_spec(&self) -> DeviceErrorKind {
        match self {
            DeviceError::Timeout => DeviceErrorKind::Timeout,
            DeviceError::ChannelUnavailable => DeviceErrorKind::ChannelUnavailable,
            DeviceError::Protocol(_) => DeviceErrorKind::Protocol,
            DeviceError::DeviceFault(_) => DeviceErrorKind::DeviceFault,
        }
    }

    pub fn kind(&self) -> (k: DeviceErrorKind)
        ensures
            k == self.kind_spec(),
    {
        match self {
            DeviceError::Timeout => DeviceErrorKind::Timeout,
            DeviceError::ChannelUnavailable => DeviceErrorKind::ChannelUnavailable,
            DeviceError::Protocol(_) => DeviceErrorKind::Protocol,
            DeviceError::DeviceFault(_) => DeviceErrorKind::DeviceFault,
        }
    }

    /// The human-readable text published for this error.
    pub open spec fn text_spec(&self) -> Seq<char> {
        match self {
            DeviceError::Timeout => "timeout waiting for device response"@,
            DeviceError::ChannelUnavailable => "device channel unavailable"@,
            DeviceError::Protocol(d) => "malformed device reply: "@ + d@,
            DeviceError::DeviceFault(d) => "device fault: "@ + d@,
        }
    }

    pub fn text(&self) -> (t: String)
        ensures
            t@ == self.text_spec(),
    {
        match self {
            DeviceError::Timeout => String::from_str("timeout waiting for device response"),
            DeviceError::ChannelUnavailable => String::from_str("device channel unavailable"),
            DeviceError::Protocol(d) => String::from_str("malformed device reply: ").concat(
                d.as_str(),
            ),
            DeviceError::DeviceFault(d) => String::from_str("device fault: ").concat(d.as_str()),
        }
    }
}

/// A failure reported to the caller of a method invocation.
#[derive(Debug)]
pub enum InvocationError {
    /// The action is not in the unit's capability set; the device was never
    /// contacted.
    UnsupportedAction,
    /// The device interaction failed; the underlying cause is preserved.
    Device(DeviceError),
}

/// The result class of an invocation: success, or the variant of its failure.
#[derive(Clone, Copy, PartialEq, Eq, Structural, Debug)]
pub enum InvocationClass {
    Success,
    Unsupported,
    Device(DeviceErrorKind),
}

impl InvocationError {
    pub open spec fn class_spec(&self) -> InvocationClass {
        match self {
            InvocationError::UnsupportedAction => InvocationClass::Unsupported,
            InvocationError::Device(e) => InvocationClass::Device(e.kind_spec()),
        }
    }

    pub fn class(&self) -> (c: InvocationClass)
        ensures
            c == self.class_spec(),
    {
        match self {
            InvocationError::UnsupportedAction => InvocationClass::Unsupported,
            InvocationError::Device(e) => InvocationClass::Device(e.kind()),
        }
    }
}

} // verus!
