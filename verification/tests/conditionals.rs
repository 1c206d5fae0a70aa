use wgsl_preprocessor::{Error, ShaderBuilder};

#[test]
fn define() {
    let definer = "//!define u3 vec3<u32>\n@compute\n@workgroup_size(64)\nfn main(@builtin(global_invocation_id) id: u3) {\n}\n";
    let defined = "@compute\n@workgroup_size(64)\nfn main(@builtin(global_invocation_id) id: vec3<u32>) {\n}\n";
    assert_eq!(
        ShaderBuilder::new("test_shaders/definer.wgsl")
            .add_module("test_shaders/definer.wgsl", definer)
            .build_source()
            .unwrap(),
        ShaderBuilder::new("test_shaders/defined.wgsl")
            .add_module("test_shaders/defined.wgsl", defined)
            .build_source()
            .unwrap()
    );
}

#[test]
fn define_with_spaces() {
    assert_eq!(
        ShaderBuilder::new("test_shaders/define_with_spaces.wgsl")
            .add_module(
                "test_shaders/define_with_spaces.wgsl",
                "//!define THREE_WORDS one two three\nTHREE_WORDS\n",
            )
            .build_source()
            .unwrap(),
        ShaderBuilder::new("test_shaders/define_with_spaces_processed.wgsl")
            .add_module("test_shaders/define_with_spaces_processed.wgsl", "one two three\n")
            .build_source()
            .unwrap()
    );
}

#[test]
fn ifdef() {
    assert_eq!(
        ShaderBuilder::new("test_shaders/ifdef.wgsl")
            .add_module(
                "test_shaders/ifdef.wgsl",
                "//!ifdef UNDEFINED\nhidden line\n//!endif\nvisible line\n",
            )
            .build_source()
            .unwrap(),
        ShaderBuilder::new("test_shaders/ifdef_processed.wgsl")
            .add_module("test_shaders/ifdef_processed.wgsl", "visible line\n")
            .build_source()
            .unwrap()
    );
}

#[test]
fn ifdef_else() {
    assert_eq!(
        ShaderBuilder::new("test_shaders/ifdef_else.wgsl")
            .add_module(
                "test_shaders/ifdef_else.wgsl",
                "//!define FLAG\n//!ifdef FLAG\nflag branch\n//!else\nelse branch\n//!endif\n",
            )
            .build_source()
            .unwrap(),
        ShaderBuilder::new("test_shaders/ifdef_else_processed.wgsl")
            .add_module("test_shaders/ifdef_else_processed.wgsl", "flag branch\n")
            .build_source()
            .unwrap()
    );
}

#[test]
fn ifdef_else_else_branch() {
    assert_eq!(
        ShaderBuilder::new("test_shaders/ifdef_else_else_branch.wgsl")
            .add_module(
                "test_shaders/ifdef_else_else_branch.wgsl",
                "//!ifdef FLAG\nflag branch\n//!else\nelse branch\n//!endif\n",
            )
            .build_source()
            .unwrap(),
        ShaderBuilder::new("test_shaders/ifdef_else_else_branch_processed.wgsl")
            .add_module("test_shaders/ifdef_else_else_branch_processed.wgsl", "else branch\n")
            .build_source()
            .unwrap()
    );
}

#[test]
fn ifdef_nested() {
    assert_eq!(
        ShaderBuilder::new("test_shaders/ifdef_nested.wgsl")
            .add_module(
                "test_shaders/ifdef_nested.wgsl",
                "//!define OUTER\n//!ifdef OUTER\nouter line\n//!ifdef INNER\ninner line\n//!endif\nafter inner\n//!endif\n",
            )
            .build_source()
            .unwrap(),
        ShaderBuilder::new("test_shaders/ifdef_nested_processed.wgsl")
            .add_module(
                "test_shaders/ifdef_nested_processed.wgsl",
                "outer line\nafter inner\n",
            )
            .build_source()
            .unwrap()
    );
}

#[test]
fn ifdef_with_include() {
    let included = "struct TestStruct {\n\ttest_data: vec4<f32>;\n};\n\n";
    assert_eq!(
        ShaderBuilder::new("test_shaders/ifdef_with_include.wgsl")
            .add_module(
                "test_shaders/ifdef_with_include.wgsl",
                "//!define WANTED\n//!ifdef WANTED\n//!include test_shaders/included.wgsl\n//!endif\n",
            )
            .add_module("test_shaders/included.wgsl", included)
            .build_source()
            .unwrap(),
        ShaderBuilder::new("test_shaders/included.wgsl")
            .add_module("test_shaders/included.wgsl", included)
            .build_source()
            .unwrap()
    );
}

#[test]
fn ifdef_no_endif() {
    let r = ShaderBuilder::new("test_shaders/ifdef_no_endif.wgsl")
        .add_module("test_shaders/ifdef_no_endif.wgsl", "//!ifdef MISSING\nnever closed\n")
        .build_source();
    assert!(matches!(r, Err(Error::UnterminatedConditional)));
}

#[test]
fn ifndef() {
    assert_eq!(
        ShaderBuilder::new("test_shaders/ifndef.wgsl")
            .add_module(
                "test_shaders/ifndef.wgsl",
                "//!define FLAG\n//!ifndef FLAG\nhidden\n//!endif\nshown\n",
            )
            .build_source()
            .unwrap(),
        ShaderBuilder::new("test_shaders/ifndef_processed.wgsl")
            .add_module("test_shaders/ifndef_processed.wgsl", "shown\n")
            .build_source()
            .unwrap()
    );
}

#[test]
fn ifndef_undefined() {
    assert_eq!(
        ShaderBuilder::new("test_shaders/ifndef_undefined.wgsl")
            .add_module(
                "test_shaders/ifndef_undefined.wgsl",
                "//!ifndef FLAG\nshown when undefined\n//!endif\n",
            )
            .build_source()
            .unwrap(),
        ShaderBuilder::new("test_shaders/ifndef_undefined_processed.wgsl")
            .add_module(
                "test_shaders/ifndef_undefined_processed.wgsl",
                "shown when undefined\n",
            )
            .build_source()
            .unwrap()
    );
}

#[test]
fn ifdef_included_define() {
    assert_eq!(
        ShaderBuilder::new("test_shaders/ifdef_included_define.wgsl")
            .add_module(
                "test_shaders/ifdef_included_define.wgsl",
                "//!include test_shaders/define_flag.wgsl\n//!ifdef INCLUDED_FLAG\nflag was included\n//!endif\n",
            )
            .add_module("test_shaders/define_flag.wgsl", "//!define INCLUDED_FLAG\n")
            .build_source()
            .unwrap(),
        ShaderBuilder::new("test_shaders/ifdef_included_define_processed.wgsl")
            .add_module(
                "test_shaders/ifdef_included_define_processed.wgsl",
                "flag was included\n",
            )
            .build_source()
            .unwrap()
    );
}

#[test]
fn ifdef_undef() {
    assert_eq!(
        ShaderBuilder::new("test_shaders/ifdef_undef.wgsl")
            .add_module(
                "test_shaders/ifdef_undef.wgsl",
                "//!define FLAG\n//!ifdef FLAG\nbefore undef\n//!undef FLAG\nafter undef\n//!endif\ntrailing\n",
            )
            .build_source()
            .unwrap(),
        ShaderBuilder::new("test_shaders/ifdef_undef_processed.wgsl")
            .add_module(
                "test_shaders/ifdef_undef_processed.wgsl",
                "before undef\ntrailing\n",
            )
            .build_source()
            .unwrap()
    );
}

#[test]
fn ifdef_from_outside() {
    assert_eq!(
        ShaderBuilder::new("test_shaders/ifdef_from_outside.wgsl")
            .define("DEFINE_VECTOR")
            .add_module(
                "test_shaders/ifdef_from_outside.wgsl",
                "//!ifdef DEFINE_VECTOR\nvector line\n//!endif\ncommon line\n",
            )
            .build_source()
            .unwrap(),
        ShaderBuilder::new("test_shaders/ifdef_from_outside_processed.wgsl")
            .add_module(
                "test_shaders/ifdef_from_outside_processed.wgsl",
                "vector line\ncommon line\n",
            )
            .build_source()
            .unwrap()
    );
}

#[test]
fn undef_of_undefined_symbol() {
    let r = ShaderBuilder::new("main.wgsl")
        .add_module("main.wgsl", "//!undef NEVER\n")
        .build_source();
    match r {
        Err(Error::UndefinedSymbol(n)) => assert_eq!(n, "NEVER"),
        _ => panic!("expected an undefined-symbol error"),
    }
}

#[test]
fn stray_endif_is_unbalanced() {
    let r = ShaderBuilder::new("main.wgsl")
        .add_module("main.wgsl", "//!endif\n")
        .build_source();
    assert!(matches!(r, Err(Error::UnbalancedConditional)));
}

#[test]
fn stray_else_is_unbalanced() {
    let r = ShaderBuilder::new("main.wgsl")
        .add_module("main.wgsl", "//!else\n")
        .build_source();
    assert!(matches!(r, Err(Error::UnbalancedConditional)));
}

#[test]
fn undef_needs_exactly_one_name() {
    let r = ShaderBuilder::new("main.wgsl")
        .add_module("main.wgsl", "//!undef A B\n")
        .build_source();
    assert!(matches!(r, Err(Error::MalformedDirective(_))));
}

#[test]
fn ifdef_needs_exactly_one_name() {
    let r = ShaderBuilder::new("main.wgsl")
        .add_module("main.wgsl", "//!ifdef\nx\n//!endif\n")
        .build_source();
    assert!(matches!(r, Err(Error::MalformedDirective(_))));
}

#[test]
fn define_needs_a_name() {
    let r = ShaderBuilder::new("main.wgsl")
        .add_module("main.wgsl", "//!define\n")
        .build_source();
    assert!(matches!(r, Err(Error::MalformedDirective(_))));
}

#[test]
fn undef_runs_inside_irrelevant_block() {
    // undef, like else and endif, acts even inside a block whose guard does
    // not hold; a later conditional sees the name gone.
    let r = ShaderBuilder::new("main.wgsl")
        .add_module(
            "main.wgsl",
            "//!define FLAG\n//!ifdef NOPE\n//!undef FLAG\n//!endif\n//!ifdef FLAG\nstill defined\n//!endif\n",
        )
        .build_source();
    assert_eq!(r.unwrap(), "");
}

#[test]
fn nested_guards_pair_inside_false_branch() {
    // A guard header still pushes inside a block whose guard does not hold,
    // so each endif pops its lexical partner and the module closes cleanly.
    let r = ShaderBuilder::new("main.wgsl")
        .add_module("main.wgsl", "//!ifdef A\n//!ifdef B\n//!endif\n//!endif\n")
        .build_source();
    assert_eq!(r.unwrap(), "");
}

#[test]
fn nested_guard_keeps_outer_block_closed() {
    // The line after the inner endif is still inside the false outer block
    // and must not be emitted.
    let r = ShaderBuilder::new("main.wgsl")
        .add_module(
            "main.wgsl",
            "//!ifdef A\n//!ifdef B\nx\n//!endif\ny\n//!endif\nafter\n",
        )
        .build_source();
    assert_eq!(r.unwrap(), "after\n");
}

#[test]
fn malformed_guard_in_false_branch_errors() {
    // Guard headers are parsed for stack management wherever they stand, so
    // one lacking its name is malformed even inside a false branch.
    let r = ShaderBuilder::new("main.wgsl")
        .add_module("main.wgsl", "//!ifdef A\n//!ifdef\n//!endif\n//!endif\n")
        .build_source();
    assert!(matches!(r, Err(Error::MalformedDirective(_))));
}

#[test]
fn directives_are_line_anchored() {
    // A directive word behind leading whitespace is ordinary text.
    let r = ShaderBuilder::new("main.wgsl")
        .add_module("main.wgsl", "  //!endif\n")
        .build_source();
    assert_eq!(r.unwrap(), "  //!endif\n");
}

#[test]
fn endif_takes_no_arguments() {
    let r = ShaderBuilder::new("main.wgsl")
        .add_module("main.wgsl", "//!ifdef A\n//!endif trailing\n")
        .build_source();
    assert!(matches!(r, Err(Error::MalformedDirective(_))));
}

#[test]
fn else_takes_no_arguments() {
    let r = ShaderBuilder::new("main.wgsl")
        .add_module("main.wgsl", "//!ifdef A\n//!else trailing\n//!endif\n")
        .build_source();
    assert!(matches!(r, Err(Error::MalformedDirective(_))));
}

#[test]
fn define_in_false_branch_does_not_run() {
    // Unlike undef, define ranks below the relevance check: inside a block
    // whose guard does not hold it is skipped, so the name stays undefined.
    let r = ShaderBuilder::new("main.wgsl")
        .add_module(
            "main.wgsl",
            "//!ifdef LATE\nearly\n//!define LATE\nlate\n//!endif\n//!ifdef LATE\nafter\n//!endif\n",
        )
        .build_source();
    assert_eq!(r.unwrap(), "");
}

#[test]
fn build_source_reads_builder_state_only() {
    let b = ShaderBuilder::new("main.wgsl").add_module("main.wgsl", "//!define A x\nA\n");
    let first = b.build_source().unwrap();
    let second = b.build_source().unwrap();
    assert_eq!(first, "x\n");
    assert_eq!(first, second);
}
