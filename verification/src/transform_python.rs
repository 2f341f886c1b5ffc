//! The Python transformations: stages that are configured under a handle
//! which the host supplies. Like every module around the Python interpreter,
//! this one is exclusive.

use vstd::prelude::*;
use crate::params::ParamMap;
use crate::stage::{
    ModuleInfo, ModuleKind, StageConfiguration, StageConfigurationView, StageHandle, StageKind,
    CURRENT_API_VERSION,
};

pub use crate::python::PyRecord;

verus! {

/// Identifier of this module.
pub const MODULE_ID: &'static str = "transform_python";

/// What the module tells the host about itself.
pub fn torustiq_module_get_info() -> (info: ModuleInfo)
    ensures
        info.api_version == CURRENT_API_VERSION,
        info.id@ == MODULE_ID@,
        info.kind == ModuleKind::Pipeline,
        info.name@ == "Python transformation"@,
{
    ModuleInfo {
        api_version: CURRENT_API_VERSION,
        id: MODULE_ID.to_owned(),
        kind: ModuleKind::Pipeline,
        name: "Python transformation".to_owned(),
    }
}

/// The configuration of a Python transformation, under the handle that the
/// host supplies. The module is exclusive.
pub fn configure(handle: StageHandle, kind: StageKind, params: ParamMap) -> (config:
    StageConfiguration)
    ensures
        config@ == (StageConfigurationView {
            handle,
            kind,
            module: MODULE_ID@,
            exclusive: true,
            params: params@,
        }),
{
    StageConfiguration::new(kind, MODULE_ID.to_owned(), true, params).with_handle(handle)
}

} // verus!
