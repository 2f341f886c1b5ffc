use torustiq::params::ParamMap;
use torustiq::pipeline::Pipeline;
use torustiq::record::RecordEnvelope;
use torustiq::registry::RegistrationError;
use torustiq::lua::{self, LuaStep};
use torustiq::python::{self, PyRecord};
use torustiq::script::{
    code_missing_message, code_source, file_unreadable_message, CodeSource, ScriptError,
};
use torustiq::stage::StageKind;
use torustiq::transform_python;

fn pair(k: &str, v: &str) -> (String, String) {
    (String::from(k), String::from(v))
}

#[test]
fn script_module_infos() {
    assert_eq!(lua::torustiq_module_get_info().id, "lua");
    assert_eq!(lua::torustiq_module_get_info().name, "Lua");
    assert_eq!(python::torustiq_module_get_info().id, "python");
    assert_eq!(python::torustiq_module_get_info().name, "Python integration");
    assert_eq!(transform_python::torustiq_module_get_info().id, "transform_python");
    assert_eq!(transform_python::torustiq_module_get_info().name, "Python transformation");
}

#[test]
fn lua_stages_may_be_many() {
    let mut p = Pipeline::new();
    let a = p.configure(lua::configure(StageKind::Transform, ParamMap::new())).unwrap();
    let b = p.configure(lua::configure(StageKind::Transform, ParamMap::new())).unwrap();
    assert_ne!(a, b);
}

#[test]
fn a_second_python_stage_is_refused_with_the_handle_of_the_first() {
    let mut p = Pipeline::new();
    p.configure(lua::configure(StageKind::Source, ParamMap::new())).unwrap();
    let first = p.configure(python::configure(StageKind::Transform, ParamMap::new())).unwrap();
    assert_eq!(
        p.configure(python::configure(StageKind::Destination, ParamMap::new())),
        Err(RegistrationError::MultipleInstancesNotSupported(first))
    );
}

#[test]
fn a_python_transformation_keeps_the_supplied_handle() {
    let mut p = Pipeline::new();
    let c = transform_python::configure(5, StageKind::Transform, ParamMap::new());
    assert!(c.exclusive);
    assert_eq!(p.configure(c), Ok(5));
    assert_eq!(
        p.configure(transform_python::configure(6, StageKind::Transform, ParamMap::new())),
        Err(RegistrationError::MultipleInstancesNotSupported(5))
    );
}

#[test]
fn the_file_is_preferred_to_inline_code() {
    let both = ParamMap::from_pairs(&vec![pair("code_contents", "return 1"), pair("file", "/tmp/a.lua")]);
    match code_source(&both).unwrap() {
        CodeSource::File(path) => assert_eq!(path, "/tmp/a.lua"),
        other => panic!("unexpected source {:?}", other),
    }
}

#[test]
fn inline_code_is_used_without_a_file() {
    let inline = ParamMap::from_pairs(&vec![pair("code_contents", "return 1")]);
    match code_source(&inline).unwrap() {
        CodeSource::Inline(code) => assert_eq!(code, "return 1"),
        other => panic!("unexpected source {:?}", other),
    }
}

#[test]
fn a_stage_without_code_cannot_start() {
    assert_eq!(code_source(&ParamMap::new()).unwrap_err(), ScriptError::CodeMissing);
    assert_eq!(
        code_missing_message(7, "Lua"),
        "Step '7': either 'file' or 'code_contents' attribute must be provided for Lua handler"
    );
    assert_eq!(
        code_missing_message(4294967295, "Python"),
        "Step '4294967295': either 'file' or 'code_contents' attribute must be provided for Python handler"
    );
}

#[test]
fn a_stage_whose_file_cannot_be_read_reports_its_handle() {
    assert_eq!(
        file_unreadable_message(12, "Lua", "/tmp/a.lua", "No such file or directory"),
        "Step '12': failed to read contents of Lua file '/tmp/a.lua': No such file or directory"
    );
}

#[test]
fn the_launcher_calls_run_with_the_handle() {
    assert_eq!(lua::launcher("function run(h) end", 3), "function run(h) end\nrun(3)");
    assert_eq!(lua::launcher("", 4294967295), "\nrun(4294967295)");
}

#[test]
fn lua_failures_are_reported_with_what_was_being_done() {
    assert_eq!(lua::failure_message(LuaStep::Exec, "boom"), "An error occurred in Lua code: boom");
    assert_eq!(
        lua::failure_message(LuaStep::CreateFunction, "syntax"),
        "Failed to create a function from Lua code: syntax"
    );
    assert_eq!(lua::failure_message(LuaStep::Call, "nil"), "Function call failure: nil");
}

#[test]
fn a_script_record_without_metadata_has_no_pairs() {
    let r = PyRecord::new(vec![1, 2], None);
    assert_eq!(r.content, vec![1, 2]);
    assert!(r.metadata.is_empty());
    let with = PyRecord::new(vec![], Some(vec![pair("a", "1")]));
    assert_eq!(with.metadata, vec![pair("a", "1")]);
}

#[test]
fn a_repeated_key_survives_on_the_way_to_a_script() {
    let r = RecordEnvelope::new(b"x".to_vec(), vec![pair("k", "1"), pair("k", "2")]);
    let seen = PyRecord::from_record(&r);
    assert_eq!(seen.content, b"x".to_vec());
    assert_eq!(seen.metadata.len(), 2);
    assert_eq!(seen.metadata, vec![pair("k", "1"), pair("k", "2")]);
}

#[test]
fn a_script_record_goes_back_into_a_record() {
    let metadata = vec![pair("e", "fgh"), pair("a", "b"), pair("e", "again")];
    let r = PyRecord::new(b"content".to_vec(), Some(metadata)).into_record();
    assert_eq!(r.payload, b"content".to_vec());
    assert_eq!(r.metadata, vec![pair("e", "fgh"), pair("a", "b"), pair("e", "again")]);
}

#[test]
fn a_record_survives_the_way_to_a_script_and_back() {
    let r = RecordEnvelope::new(vec![1], vec![pair("a", "1"), pair("b", "2"), pair("a", "3")]);
    assert_eq!(PyRecord::from_record(&r).into_record(), r);
    let empty = RecordEnvelope::new(vec![], vec![]);
    assert_eq!(PyRecord::from_record(&empty).into_record(), empty);
}

#[test]
fn both_python_modules_share_the_script_record() {
    let r = transform_python::PyRecord::new(vec![1], None);
    assert_eq!(r.content, vec![1]);
}
