//! What a request may be refused with.
use crate::node::NodeId;
use vstd::prelude::*;

verus! {

/// Why a setting was not taken.
#[derive(Debug, Clone, PartialEq, Eq)]
pub enum SettingError {
    /// The setting exists but may not be set remotely.
    Denied { key: String, reason: String },
    /// The setting is not known, or its value is not one of its values.
    Invalid { key: String, reason: String },
}

/// What a request was refused with.
#[derive(Debug, PartialEq, Eq)]
pub enum AgentError {
    /// The agent has no source for what was asked.
    NotReady,
    /// There is no recipe of that name here.
    UnknownRecipe { recipe: String },
    /// The recipe cannot be run here.
    NotLaunchable { recipe: String, reason: String },
    /// Settings were rejected.
    BadSettings { errors: Vec<SettingError> },
    /// The launcher tried and failed.
    LaunchFailed { detail: String },
    /// The container runtime does not answer.
    DockerUnavailable { detail: String },
    /// There is no way to reach a machine.
    NotRoutable { node: NodeId, reason: String },
    /// A machine that was asked to pass a request on did not.
    RelayRefused { node: NodeId, via: Option<NodeId>, detail: String },
    /// A machine does not take orders from the one that asked.
    ControlRefused { node: NodeId, reason: String },
}

} // verus!
