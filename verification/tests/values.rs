use wgsl_preprocessor::literal::{struct_declaration, struct_definition};
use wgsl_preprocessor::{ShaderBuilder, WGSLType};

struct Struct {
    pub data: [f32; 4],
}

impl WGSLType for Struct {
    fn wgsl_type_name() -> String {
        "Struct".to_string()
    }

    fn declaration() -> String {
        String::new()
    }

    fn string_definition(&self) -> String {
        format!("{}(vec4<f32>({:?}))", Self::wgsl_type_name(), self.data).replace(&['[', ']'], "")
    }
}

struct Record {
    pub data: u32,
}

impl WGSLType for Record {
    fn wgsl_type_name() -> String {
        "Struct".to_string()
    }

    fn declaration() -> String {
        struct_declaration("Struct", &vec!["u32".to_string()])
    }

    fn string_definition(&self) -> String {
        struct_definition("Struct", &vec![format!("{}u", self.data)])
    }
}

#[test]
fn put_constant() {
    let constants = "var a = ONE;\nvar b = TWO;\n";
    let processed = "var a = 1u;\nvar b = 2u;\n";
    assert_eq!(
        ShaderBuilder::new("test_shaders/set_constants.wgsl")
            .add_module("test_shaders/set_constants.wgsl", constants)
            .put_constant("ONE", 1u32)
            .put_constant("TWO", 2u32)
            .build_source()
            .unwrap(),
        ShaderBuilder::new("test_shaders/set_constants_processed.wgsl")
            .add_module("test_shaders/set_constants_processed.wgsl", processed)
            .build_source()
            .unwrap()
    );
}

#[test]
fn put_constant_map() {
    let mut constants: Vec<(String, u32)> = Vec::new();
    constants.push(("ONE".to_string(), 1u32));
    constants.push(("TWO".to_string(), 2u32));
    let source = "var a = ONE;\nvar b = TWO;\n";
    let processed = "var a = 1u;\nvar b = 2u;\n";
    assert_eq!(
        ShaderBuilder::new("test_shaders/set_constants.wgsl")
            .add_module("test_shaders/set_constants.wgsl", source)
            .put_constant_map(&constants)
            .build_source()
            .unwrap(),
        ShaderBuilder::new("test_shaders/set_constants_processed.wgsl")
            .add_module("test_shaders/set_constants_processed.wgsl", processed)
            .build_source()
            .unwrap()
    );
}

#[test]
fn put_array_definition_bools() {
    assert_eq!(
        ShaderBuilder::new("test_shaders/put_array_definition_bools.wgsl")
            .add_module("test_shaders/put_array_definition_bools.wgsl", "//!define BOOL_ARRAY\n")
            .put_array_definition("BOOL_ARRAY", &vec![true, false])
            .build_source()
            .unwrap(),
        ShaderBuilder::new("test_shaders/put_array_definition_bools_processed.wgsl")
            .add_module(
                "test_shaders/put_array_definition_bools_processed.wgsl",
                "array<bool, 2>(true,false,);\n",
            )
            .build_source()
            .unwrap()
    );
}

#[test]
fn put_array_definition_scalar() {
    assert_eq!(
        ShaderBuilder::new("test_shaders/put_array_definition_scalars.wgsl")
            .add_module(
                "test_shaders/put_array_definition_scalars.wgsl",
                "//!define SCALAR_ARRAY\n",
            )
            .put_array_definition("SCALAR_ARRAY", &vec![1, 0])
            .build_source()
            .unwrap(),
        ShaderBuilder::new("test_shaders/put_array_definition_scalars_processed.wgsl")
            .add_module(
                "test_shaders/put_array_definition_scalars_processed.wgsl",
                "array<i32, 2>(1,0,);\n",
            )
            .build_source()
            .unwrap()
    );
}

#[test]
fn put_array_definition_structs() {
    assert_eq!(
        ShaderBuilder::new("test_shaders/put_array_definition_structs.wgsl")
            .add_module(
                "test_shaders/put_array_definition_structs.wgsl",
                "//!define STRUCT_ARRAY\n",
            )
            .put_array_definition(
                "STRUCT_ARRAY",
                &vec![
                    Struct { data: [1.0, 2.0, 3.0, 4.0] },
                    Struct { data: [1.5, 2.1, 3.7, 4.9] },
                ],
            )
            .build_source()
            .unwrap(),
        ShaderBuilder::new("test_shaders/put_array_definition_structs_processed.wgsl")
            .add_module(
                "test_shaders/put_array_definition_structs_processed.wgsl",
                "array<Struct, 2>(Struct(vec4<f32>(1.0, 2.0, 3.0, 4.0)),Struct(vec4<f32>(1.5, 2.1, 3.7, 4.9)),);\n",
            )
            .build_source()
            .unwrap()
    );
}

#[test]
fn array_definition_exact_text() {
    let r = ShaderBuilder::new("main.wgsl")
        .add_module("main.wgsl", "//!define ARR\n")
        .put_array_definition("ARR", &vec![1u32, 0u32])
        .build_source();
    assert_eq!(r.unwrap(), "array<u32, 2>(1u,0u,);\n");
}

#[test]
fn struct_definition_replaces_placeholder() {
    let r = ShaderBuilder::new("main.wgsl")
        .add_module("main.wgsl", "//!define Struct\n")
        .put_struct_definition::<Record>()
        .build_source();
    assert_eq!(r.unwrap(), "struct Struct {u32};\n");
}

#[test]
fn struct_value_definition_text() {
    let r = Record { data: 7 }.string_definition();
    assert_eq!(r, "Struct(7u)");
}

#[test]
fn substitution_is_unscoped() {
    // Whole-string substitution knows no token boundaries: ONE is replaced
    // even inside longer identifiers.
    let r = ShaderBuilder::new("main.wgsl")
        .add_module("main.wgsl", "ONESIE ONE DONE\n")
        .put_constant("ONE", 1u32)
        .build_source();
    assert_eq!(r.unwrap(), "1uSIE 1u D1u\n");
}

#[test]
fn placeholder_define_emits_name() {
    let r = ShaderBuilder::new("main.wgsl")
        .add_module("main.wgsl", "//!define A\n//!define A\n")
        .build_source();
    assert_eq!(r.unwrap(), "A\n");
}

#[test]
fn scalar_rendering_edges() {
    assert_eq!(0u32.string_definition(), "0u");
    assert_eq!(10u32.string_definition(), "10u");
    assert_eq!(4294967295u32.string_definition(), "4294967295u");
    assert_eq!(0i32.string_definition(), "0");
    assert_eq!((-5i32).string_definition(), "-5");
    assert_eq!(i32::MIN.string_definition(), "-2147483648");
    assert_eq!(i32::MAX.string_definition(), "2147483647");
    assert_eq!(true.string_definition(), "true");
    assert_eq!(false.string_definition(), "false");
    assert_eq!(u32::wgsl_type_name(), "u32");
    assert_eq!(i32::wgsl_type_name(), "i32");
    assert_eq!(bool::wgsl_type_name(), "bool");
}

#[test]
fn vector_definitions() {
    assert_eq!([1u32, 2u32].string_definition(), "vec2<u32>(1, 2)");
    assert_eq!([1u32, 2u32, 3u32, 4u32].string_definition(), "vec4<u32>(1, 2, 3, 4)");
    assert_eq!([-1i32, 0i32, 7i32].string_definition(), "vec3<i32>(-1, 0, 7)");
    assert_eq!([true, false].string_definition(), "vec2<bool>(true, false)");
    assert_eq!(<[u32; 3]>::wgsl_type_name(), "vec3<u32>");
}

#[test]
fn put_array_definition_integer_vectors() {
    let r = ShaderBuilder::new("main.wgsl")
        .add_module("main.wgsl", "//!define VECTOR_ARRAY\n")
        .put_array_definition("VECTOR_ARRAY", &vec![[1u32, 2u32], [3u32, 4u32]])
        .build_source();
    assert_eq!(r.unwrap(), "array<vec2<u32>, 2>(vec2<u32>(1, 2),vec2<u32>(3, 4),);\n");
}

#[test]
fn negative_constant_in_source() {
    let r = ShaderBuilder::new("main.wgsl")
        .add_module("main.wgsl", "var n = NEG;\n")
        .put_constant("NEG", -42i32)
        .build_source();
    assert_eq!(r.unwrap(), "var n = -42;\n");
}
