//! Machine metadata: what a machine is, its parameters, its channel layout.
use vstd::prelude::*;

verus! {

/// Whether a machine generates or processes audio.
#[derive(Clone, Copy, Debug, PartialEq, Eq, Structural)]
pub enum MachineType {
    Generator,
    Effect,
}

/// Channel configuration for an audio processor.
#[derive(Clone, Copy, Debug, PartialEq, Eq, Structural)]
pub struct ChannelConfig {
    pub inputs: u16,
    pub outputs: u16,
}

/// Metadata describing a machine parameter.
pub struct ParamInfo {
    pub id: u16,
    pub name: String,
    pub min: i32,
    pub max: i32,
    pub default: i32,
    pub no_value: i32,
}

impl ParamInfo {
    /// A parameter description; `no_value` is 0.
    pub fn new(id: u16, name: &str, min: i32, max: i32, default: i32) -> (r: Self)
        ensures
            r.id == id,
            r.name@ == name@,
            r.min == min,
            r.max == max,
            r.default == default,
            r.no_value == 0,
    {
        Self { id, name: name.to_owned(), min, max, default, no_value: 0 }
    }
}

/// Metadata about a machine.
pub struct MachineInfo {
    pub name: String,
    pub short_name: String,
    pub author: String,
    pub machine_type: MachineType,
    pub params: Vec<ParamInfo>,
}

impl MachineInfo {
    /// Machine metadata from its names, kind and parameters.
    pub fn new(name: &str, short_name: &str, author: &str, machine_type: MachineType, params: Vec<ParamInfo>) -> (r: Self)
        ensures
            r.name@ == name@,
            r.short_name@ == short_name@,
            r.author@ == author@,
            r.machine_type == machine_type,
            r.params@ == params@,
    {
        Self {
            name: name.to_owned(),
            short_name: short_name.to_owned(),
            author: author.to_owned(),
            machine_type,
            params,
        }
    }
}

/// A machine that passes its input through unchanged: it stands in for
/// machines that are not implemented, so that the graph keeps its shape.
#[derive(Clone, Copy, Debug)]
pub struct PassthroughMachine;

impl PassthroughMachine {
    /// Stereo in, stereo out.
    pub fn channel_config(&self) -> (r: ChannelConfig)
        ensures
            r == (ChannelConfig { inputs: 2, outputs: 2 }),
    {
        ChannelConfig { inputs: 2, outputs: 2 }
    }

    /// An effect called "Passthrough" ("Pass"), without parameters.
    pub fn info(&self) -> (r: MachineInfo)
        ensures
            r.name@ == "Passthrough"@,
            r.short_name@ == "Pass"@,
            r.author@ == "masterblaster"@,
            r.machine_type == MachineType::Effect,
            r.params@.len() == 0,
    {
        MachineInfo::new("Passthrough", "Pass", "masterblaster", MachineType::Effect, Vec::new())
    }
}

} // verus!
