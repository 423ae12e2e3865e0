use neocurl::runtime::LuaRuntimeBuilder;

#[test]
fn builder_methods_chain() {
    let _builder = LuaRuntimeBuilder::new()
        .with_script("return 1".to_string())
        .with_main_dir(".".into())
        .with_thread("worker".to_string())
        .add_module("test", "return 1")
        .libs();
}
