//! The Lua stages: what is decided around the interpreter.
//!
//! Each Lua stage has an interpreter of its own. A source's code defines a
//! function `run`; the stage calls it once with the stage's handle. The code
//! of any other stage is a function of a record's handle, content and
//! metadata. Running the interpreter is not done here.

use vstd::prelude::*;
use crate::params::ParamMap;
use crate::stage::{
    ModuleInfo, ModuleKind, StageConfiguration, StageConfigurationView, StageHandle, StageKind,
    CURRENT_API_VERSION,
};
use crate::text;

verus! {

/// Identifier of this module.
pub const MODULE_ID: &'static str = "lua";

/// What the module tells the host about itself.
pub fn torustiq_module_get_info() -> (info: ModuleInfo)
    ensures
        info.api_version == CURRENT_API_VERSION,
        info.id@ == MODULE_ID@,
        info.kind == ModuleKind::Pipeline,
        info.name@ == "Lua"@,
{
    ModuleInfo {
        api_version: CURRENT_API_VERSION,
        id: MODULE_ID.to_owned(),
        kind: ModuleKind::Pipeline,
        name: "Lua".to_owned(),
    }
}

/// The configuration of a Lua stage. Any kind of stage can be scripted, and
/// each Lua stage has an interpreter of its own.
pub fn configure(kind: StageKind, params: ParamMap) -> (config: StageConfiguration)
    ensures
        config@ == (StageConfigurationView {
            handle: 0,
            kind,
            module: MODULE_ID@,
            exclusive: false,
            params: params@,
        }),
{
    StageConfiguration::new(kind, MODULE_ID.to_owned(), false, params)
}

/// The code that a Lua source runs: the stage's code, and on a new line the
/// call of `run` with the stage's handle.
pub fn launcher(code: &str, handle: StageHandle) -> (launcher: String)
    ensures
        launcher@ == code@ + "\nrun("@ + text::spec_decimal(handle as nat) + ")"@,
{
    let mut launcher = text::concat(code, "\nrun(");
    text::push_decimal(&mut launcher, handle as u64);
    text::push_text(&mut launcher, ")");
    launcher
}

/// What a Lua stage was doing when its interpreter failed.
#[derive(Clone, Copy, Debug, PartialEq, Eq, Structural)]
pub enum LuaStep {
    /// Running a piece of code.
    Exec,
    /// Making the function that handles records.
    CreateFunction,
    /// Calling that function with a record.
    Call,
}

/// What introduces the interpreter's own words in the report of a failure.
pub open spec fn failure_prefix(step: LuaStep) -> Seq<char> {
    match step {
        LuaStep::Exec => "An error occurred in Lua code: "@,
        LuaStep::CreateFunction => "Failed to create a function from Lua code: "@,
        LuaStep::Call => "Function call failure: "@,
    }
}

/// The report of a failure of the interpreter at `step`: what was being
/// done, then the interpreter's own words.
pub fn failure_message(step: LuaStep, detail: &str) -> (message: String)
    ensures
        message@ == failure_prefix(step) + detail@,
{
    match step {
        LuaStep::Exec => text::concat("An error occurred in Lua code: ", detail),
        LuaStep::CreateFunction => text::concat("Failed to create a function from Lua code: ", detail),
        LuaStep::Call => text::concat("Function call failure: ", detail),
    }
}

} // verus!
