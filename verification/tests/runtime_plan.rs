use neocurl::runtime::{
    preload, BuildError, LuaRuntimeBuilder, CHUNK_BODY, CHUNK_HEAD, CHUNK_TAIL, DEFAULT_THREAD,
    LIB_DKJSON, LIB_DKJSON_NAME,
};
use neocurl::vm::{Vm, VmBuilder, VmError};
use std::path::PathBuf;

#[test]
fn plan_needs_a_main_directory() {
    let plan = LuaRuntimeBuilder::new().with_script("return 1".to_string()).plan();
    assert_eq!(plan.err(), Some(BuildError::MissingMainDir));
    assert_eq!(LuaRuntimeBuilder::new().plan().err(), Some(BuildError::MissingMainDir));
    assert_eq!(BuildError::MissingMainDir.message(), "Main directory is required");
}

#[test]
fn plan_needs_a_script() {
    let plan = LuaRuntimeBuilder::new().with_main_dir(".".into()).plan();
    assert_eq!(plan.err(), Some(BuildError::MissingScript));
    assert_eq!(BuildError::MissingScript.message(), "Script is required");
}

#[test]
fn plan_of_a_bare_builder() {
    let plan = LuaRuntimeBuilder::new()
        .with_script("return 1".to_string())
        .with_main_dir(".".into())
        .plan()
        .unwrap();
    assert_eq!(plan.main_dir, PathBuf::from("."));
    assert_eq!(plan.script, "return 1");
    assert_eq!(plan.thread_name, "main");
    assert_eq!(DEFAULT_THREAD, "main");
    assert!(plan.chunks.is_empty());
}

#[test]
fn plan_holds_one_chunk_for_each_module_in_order() {
    let plan = LuaRuntimeBuilder::new()
        .add_module("first", "return 1")
        .with_script("old".to_string())
        .with_script("new".to_string())
        .with_main_dir("/old".into())
        .with_main_dir("/srv/scripts".into())
        .with_thread("worker-3".to_string())
        .add_module("second", "return {}")
        .libs()
        .plan()
        .unwrap();
    assert_eq!(plan.main_dir, PathBuf::from("/srv/scripts"));
    assert_eq!(plan.script, "new");
    assert_eq!(plan.thread_name, "worker-3");
    assert_eq!(
        plan.chunks,
        vec![
            preload("first", "return 1"),
            preload("second", "return {}"),
            preload(LIB_DKJSON_NAME, LIB_DKJSON),
        ]
    );
}

#[test]
fn preload_chunk_registers_a_loader() {
    assert_eq!(
        preload("test", "return 1"),
        "package = package or {}\npackage.preload = package.preload or {}\npackage.preload[\"test\"] = function(...)\nreturn 1\nend\n"
    );
    assert_eq!(preload("", ""), format!("{}{}{}", CHUNK_HEAD, CHUNK_BODY, CHUNK_TAIL));
}

#[test]
fn vm_source_is_trimmed() {
    let vm = VmBuilder::new().load("\n  import neocurl\n\n".to_string()).unwrap().build().unwrap();
    assert_eq!(vm.source_text(), "import neocurl");
    let vm = Vm::builder().load("x = 1".to_string()).unwrap().build().unwrap();
    assert_eq!(vm.source_text(), "x = 1");
    let vm = VmBuilder::default().load("\u{2003}a b\u{a0}".to_string()).unwrap().build().unwrap();
    assert_eq!(vm.source_text(), "a b");
}

#[test]
fn vm_refuses_an_empty_source() {
    assert_eq!(VmBuilder::new().load(String::new()).err().map(|e| e), Some(VmError::EmptySource));
    assert_eq!(VmBuilder::new().load(" \n\t ".to_string()).err(), Some(VmError::EmptySource));
    assert_eq!(VmBuilder::new().load_trimmed(String::new()).err(), Some(VmError::EmptySource));
    let kept = VmBuilder::new().load_trimmed(" ".to_string()).unwrap().build().unwrap();
    assert_eq!(kept.source_text(), " ");
}

#[test]
fn vm_needs_a_source() {
    assert_eq!(VmBuilder::new().build().err(), Some(VmError::NothingLoaded));
    assert_eq!(Vm::builder().build().err(), Some(VmError::NothingLoaded));
}

#[test]
fn a_later_source_replaces_an_earlier_one() {
    let vm = VmBuilder::new()
        .load("first".to_string())
        .unwrap()
        .load(" second ".to_string())
        .unwrap()
        .build()
        .unwrap();
    assert_eq!(vm.source_text(), "second");
}

#[test]
fn libs_appends_the_json_library_as_one_more_module() {
    assert_eq!(LIB_DKJSON_NAME, "json");
    let plan = LuaRuntimeBuilder::new()
        .with_script("return 1".to_string())
        .with_main_dir(".".into())
        .libs()
        .plan()
        .unwrap();
    assert_eq!(plan.chunks.len(), 1);
    assert_eq!(
        plan.chunks[0],
        "package = package or {}\npackage.preload = package.preload or {}\npackage.preload[\"json\"] = function(...)\nreturn require(\"dkjson\")\nend\n"
    );
    let plan = LuaRuntimeBuilder::new()
        .with_script("return 1".to_string())
        .with_main_dir(".".into())
        .libs()
        .add_module("after", "return 2")
        .plan()
        .unwrap();
    assert_eq!(
        plan.chunks,
        vec![preload(LIB_DKJSON_NAME, LIB_DKJSON), preload("after", "return 2")]
    );
    assert_eq!(plan.script, "return 1");
    assert_eq!(plan.thread_name, "main");
}
