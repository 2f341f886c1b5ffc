use torustiq::params::ParamMap;
use torustiq::registry::{HandleRegistry, RegistrationError};
use torustiq::stage::{StageConfiguration, StageKind};

fn config(kind: StageKind, module: &str, exclusive: bool) -> StageConfiguration {
    StageConfiguration::new(kind, String::from(module), exclusive, ParamMap::new())
}

#[test]
fn fresh_handles_count_up_from_one() {
    let mut r = HandleRegistry::new();
    assert_eq!(r.register(config(StageKind::Source, "stdio", false)), Ok(1));
    assert_eq!(r.register(config(StageKind::Destination, "stdio", false)), Ok(2));
    assert_eq!(r.register(config(StageKind::Transform, "lua", false)), Ok(3));
    assert_eq!(r.len(), 3);
}

#[test]
fn handles_are_never_zero() {
    let mut r = HandleRegistry::new();
    let h = r.register(config(StageKind::Source, "stdio", false)).unwrap();
    assert_ne!(h, 0);
    assert!(!r.contains(0));
    assert!(r.lookup(0).is_none());
}

#[test]
fn lookup_returns_what_was_registered() {
    let mut params = ParamMap::new();
    params.insert(String::from("format"), String::from("%R"));
    let mut r = HandleRegistry::new();
    let h = r
        .register(StageConfiguration::new(StageKind::Destination, String::from("stdio"), false, params))
        .unwrap();
    let found = r.lookup(h).unwrap();
    assert_eq!(found.handle, h);
    assert_eq!(found.kind, StageKind::Destination);
    assert_eq!(found.module, "stdio");
    assert!(!found.exclusive);
    assert_eq!(found.get_param("format"), Some(&String::from("%R")));
    assert_eq!(found.get_param("other"), None);
}

#[test]
fn lookup_of_an_unknown_handle_finds_nothing() {
    let mut r = HandleRegistry::new();
    r.register(config(StageKind::Source, "stdio", false)).unwrap();
    assert!(r.lookup(2).is_none());
    assert!(!r.contains(2));
}

#[test]
fn a_supplied_handle_is_kept() {
    let mut r = HandleRegistry::new();
    assert_eq!(r.register(config(StageKind::Source, "stdio", false).with_handle(10)), Ok(10));
    assert!(r.contains(10));
    assert_eq!(r.lookup(10).unwrap().handle, 10);
}

#[test]
fn a_fresh_handle_lies_above_every_handle_in_use() {
    let mut r = HandleRegistry::new();
    r.register(config(StageKind::Source, "stdio", false).with_handle(10)).unwrap();
    r.register(config(StageKind::Source, "stdio", false).with_handle(4)).unwrap();
    assert_eq!(r.register(config(StageKind::Destination, "stdio", false)), Ok(11));
}

#[test]
fn a_supplied_handle_in_use_is_a_duplicate() {
    let mut r = HandleRegistry::new();
    let h = r.register(config(StageKind::Source, "stdio", false)).unwrap();
    assert_eq!(
        r.register(config(StageKind::Destination, "kafka", false).with_handle(h)),
        Err(RegistrationError::DuplicateRegistration(h))
    );
    assert_eq!(r.len(), 1);
    assert_eq!(r.lookup(h).unwrap().kind, StageKind::Source);
}

#[test]
fn a_second_instance_of_an_exclusive_module_is_refused() {
    let mut r = HandleRegistry::new();
    r.register(config(StageKind::Source, "stdio", false)).unwrap();
    let first = r.register(config(StageKind::Transform, "python", true)).unwrap();
    r.register(config(StageKind::Destination, "stdio", false)).unwrap();
    assert_eq!(
        r.register(config(StageKind::Transform, "python", true)),
        Err(RegistrationError::MultipleInstancesNotSupported(first))
    );
    assert_eq!(
        r.register(config(StageKind::Destination, "python", true)),
        Err(RegistrationError::MultipleInstancesNotSupported(first))
    );
    assert_eq!(r.len(), 3);
    assert_eq!(r.first_instance_of("python"), Some(first));
}

#[test]
fn the_instance_limit_is_tested_before_the_handle() {
    let mut r = HandleRegistry::new();
    let first = r.register(config(StageKind::Transform, "python", true)).unwrap();
    assert_eq!(
        r.register(config(StageKind::Transform, "python", true).with_handle(first)),
        Err(RegistrationError::MultipleInstancesNotSupported(first))
    );
}

#[test]
fn modules_without_a_limit_have_many_instances() {
    let mut r = HandleRegistry::new();
    let a = r.register(config(StageKind::Transform, "lua", false)).unwrap();
    let b = r.register(config(StageKind::Transform, "lua", false)).unwrap();
    assert_ne!(a, b);
    assert_eq!(r.first_instance_of("lua"), Some(a));
    assert_eq!(r.first_instance_of("kafka"), None);
}

#[test]
fn exclusive_modules_do_not_exclude_each_other() {
    let mut r = HandleRegistry::new();
    assert!(r.register(config(StageKind::Transform, "python", true)).is_ok());
    assert!(r.register(config(StageKind::Transform, "transform_python", true)).is_ok());
}

#[test]
fn handles_run_out_above_the_largest() {
    let mut r = HandleRegistry::new();
    r.register(config(StageKind::Source, "stdio", false).with_handle(u32::MAX)).unwrap();
    assert_eq!(
        r.register(config(StageKind::Source, "stdio", false)),
        Err(RegistrationError::HandlesExhausted)
    );
    assert_eq!(r.register(config(StageKind::Source, "stdio", false).with_handle(5)), Ok(5));
}
