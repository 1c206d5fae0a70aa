use wgsl_preprocessor::{Error, ShaderBuilder};

#[test]
fn nonexistent() {
    let r = ShaderBuilder::new("test_shaders/nonexistent.wgsl").build_source();
    assert!(matches!(r, Err(Error::FileNotFound(_))));
    match r {
        Err(Error::FileNotFound(p)) => assert_eq!(p, "test_shaders/nonexistent.wgsl"),
        _ => panic!("expected a missing-module error"),
    }
}

#[test]
fn standard_include() {
    let included = "struct TestStruct {\n\ttest_data: vec4<f32>;\n};\n\n";
    let includer = "//!include test_shaders/included.wgsl\n";
    assert_eq!(
        ShaderBuilder::new("test_shaders/includer.wgsl")
            .add_module("test_shaders/includer.wgsl", includer)
            .add_module("test_shaders/included.wgsl", included)
            .build_source()
            .unwrap(),
        ShaderBuilder::new("test_shaders/included.wgsl")
            .add_module("test_shaders/included.wgsl", included)
            .build_source()
            .unwrap()
    );
}

#[test]
fn missing_include() {
    let r = ShaderBuilder::new("test_shaders/missing_include.wgsl")
        .add_module(
            "test_shaders/missing_include.wgsl",
            "//!include test_shaders/nonexistent.wgsl\n",
        )
        .build_source();
    assert!(matches!(r, Err(Error::FileNotFound(_))));
}

#[test]
fn nested_include() {
    let included = "struct TestStruct {\n\ttest_data: vec4<f32>;\n};\n\n";
    let includer = "//!include test_shaders/included.wgsl\n";
    let nested = "//!include test_shaders/includer.wgsl\n";
    assert_eq!(
        ShaderBuilder::new("test_shaders/nested_include.wgsl")
            .add_module("test_shaders/nested_include.wgsl", nested)
            .add_module("test_shaders/includer.wgsl", includer)
            .add_module("test_shaders/included.wgsl", included)
            .build_source()
            .unwrap(),
        ShaderBuilder::new("test_shaders/includer.wgsl")
            .add_module("test_shaders/includer.wgsl", includer)
            .add_module("test_shaders/included.wgsl", included)
            .build_source()
            .unwrap()
    );
}

#[test]
fn multiple_includes() {
    let included = "struct TestStruct {\n\ttest_data: vec4<f32>;\n};\n\n";
    let included2 = "struct AnotherTestStruct {\n\tanother_test_data: vec3<u32>;\n};\n\n";
    let multiple =
        "//!include test_shaders/included.wgsl\n//!include test_shaders/included2.wgsl\n";
    assert_eq!(
        ShaderBuilder::new("test_shaders/multiple_includes.wgsl")
            .add_module("test_shaders/multiple_includes.wgsl", multiple)
            .add_module("test_shaders/included.wgsl", included)
            .add_module("test_shaders/included2.wgsl", included2)
            .build_source()
            .unwrap(),
        format!(
            "{}{}",
            ShaderBuilder::new("test_shaders/included.wgsl")
                .add_module("test_shaders/included.wgsl", included)
                .build_source()
                .unwrap(),
            ShaderBuilder::new("test_shaders/included2.wgsl")
                .add_module("test_shaders/included2.wgsl", included2)
                .build_source()
                .unwrap()
        )
    );
}

#[test]
fn multiple_inline_includes() {
    let included = "struct TestStruct {\n\ttest_data: vec4<f32>;\n};\n\n";
    let included2 = "struct AnotherTestStruct {\n\tanother_test_data: vec3<u32>;\n};\n\n";
    let multiple =
        "//!include test_shaders/included.wgsl\n//!include test_shaders/included2.wgsl\n";
    let inline = "//!include test_shaders/included.wgsl test_shaders/included2.wgsl\n";
    assert_eq!(
        ShaderBuilder::new("test_shaders/multiple_inline_includes.wgsl")
            .add_module("test_shaders/multiple_inline_includes.wgsl", inline)
            .add_module("test_shaders/included.wgsl", included)
            .add_module("test_shaders/included2.wgsl", included2)
            .build_source()
            .unwrap(),
        ShaderBuilder::new("test_shaders/multiple_includes.wgsl")
            .add_module("test_shaders/multiple_includes.wgsl", multiple)
            .add_module("test_shaders/included.wgsl", included)
            .add_module("test_shaders/included2.wgsl", included2)
            .build_source()
            .unwrap()
    );
}

#[test]
fn included_define() {
    assert_eq!(
        ShaderBuilder::new("test_shaders/included_define.wgsl")
            .add_module(
                "test_shaders/included_define.wgsl",
                "//!include test_shaders/define_only.wgsl\nvar x: u3;\n",
            )
            .add_module("test_shaders/define_only.wgsl", "//!define u3 vec3<u32>\n")
            .build_source()
            .unwrap(),
        ShaderBuilder::new("test_shaders/included_define_processed.wgsl")
            .add_module("test_shaders/included_define_processed.wgsl", "var x: vec3<u32>;\n")
            .build_source()
            .unwrap()
    );
}

#[test]
fn load_proper_label() {
    assert_eq!(ShaderBuilder::new("test_shaders/included.wgsl").label(), "included");
}

#[test]
fn label_without_extension() {
    assert_eq!(ShaderBuilder::new("shader").label(), "shader");
    assert_eq!(ShaderBuilder::new("a/b.c.d").label(), "c");
}

#[test]
fn cyclic_include_is_rejected() {
    let r = ShaderBuilder::new("test_shaders/cycle.wgsl")
        .add_module("test_shaders/cycle.wgsl", "//!include test_shaders/cycle.wgsl\n")
        .build_source();
    assert!(matches!(r, Err(Error::CyclicReference(_))));
}

#[test]
fn include_in_false_branch_is_skipped() {
    let r = ShaderBuilder::new("main.wgsl")
        .add_module(
            "main.wgsl",
            "//!ifdef NOPE\n//!include test_shaders/nonexistent.wgsl\n//!endif\nok\n",
        )
        .build_source();
    assert_eq!(r.unwrap(), "ok\n");
}

#[test]
fn deeply_nested_include_is_flat() {
    let leaf = "leaf line\n";
    let r = ShaderBuilder::new("outer.wgsl")
        .add_module("outer.wgsl", "//!include middle.wgsl\n")
        .add_module("middle.wgsl", "//!include inner.wgsl\n")
        .add_module("inner.wgsl", "//!include leaf.wgsl\n")
        .add_module("leaf.wgsl", leaf)
        .build_source();
    assert_eq!(r.unwrap(), leaf);
}

#[test]
fn empty_module_builds_empty() {
    let r = ShaderBuilder::new("main.wgsl").add_module("main.wgsl", "").build_source();
    assert_eq!(r.unwrap(), "");
}

#[test]
fn carriage_returns_are_stripped_at_line_ends() {
    let r = ShaderBuilder::new("main.wgsl")
        .add_module("main.wgsl", "first\r\nsecond\r\n")
        .build_source();
    assert_eq!(r.unwrap(), "first\nsecond\n");
}

#[test]
fn reference_line_without_paths_adds_nothing() {
    let r = ShaderBuilder::new("main.wgsl")
        .add_module("main.wgsl", "//!include\nrest\n")
        .build_source();
    assert_eq!(r.unwrap(), "rest\n");
}

#[test]
fn include_shares_macro_table_in_order() {
    // The first included module defines the macro; the second uses it in a
    // conditional, through the table shared across the whole tree.
    let r = ShaderBuilder::new("root.wgsl")
        .add_module("root.wgsl", "//!include flag.wgsl user.wgsl\n")
        .add_module("flag.wgsl", "//!define SHARED\n")
        .add_module("user.wgsl", "//!ifdef SHARED\nshared seen\n//!endif\n")
        .build_source();
    assert_eq!(r.unwrap(), "shared seen\n");
}
