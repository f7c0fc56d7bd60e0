use safer_ffi::{
    builder, default_guard, CField, CFunction, CStruct, Definer, Export, HeaderError, Registry,
    LimitedSink, SetDefiner, Sink, TypeDef, WriteError, DEFAULT_BANNER, CEnum, CVariant,
};

fn field(ty: &str, name: &str) -> CField {
    CField { ty: ty.to_string(), name: name.to_string() }
}

fn function(ret: &str, name: &str, params: Vec<CField>, uses: Vec<TypeDef>) -> Export {
    Export::Function(CFunction { ret: ret.to_string(), name: name.to_string(), params, uses })
}

fn foo_struct() -> CStruct {
    CStruct {
        name: "Foo".to_string(),
        fields: vec![field("MyBool_t", "b"), field("slice_ref_uint32_t", "field")],
    }
}

fn concat_and_free() -> Registry {
    let mut registry = Registry::new();
    registry.register(function(
        "char *",
        "concat",
        vec![field("char const *", "fst"), field("char const *", "snd")],
        vec![],
    ));
    registry.register(function("void", "free", vec![field("char *", "it")], vec![]));
    registry
}

const CONCAT_AND_FREE: &str = "/* test banner */\n\n\
#ifndef TESTGUARD\n\
#define TESTGUARD\n\
\n\
#ifdef __cplusplus\n\
extern \"C\" {\n\
#endif\n\
\n\
char * concat (\n    char const * fst,\n    char const * snd);\n\n\
void free (\n    char * it);\n\n\
\n\
#ifdef __cplusplus\n\
} /* extern \"C\" */\n\
#endif\n\
\n\
#endif /* TESTGUARD */\n";

#[test]
fn end_to_end_concat_and_free() {
    let out = builder()
        .with_guard("TESTGUARD")
        .with_banner("/* test banner */")
        .to_writer(String::new())
        .generate(&concat_and_free(), None)
        .unwrap();
    assert_eq!(out, CONCAT_AND_FREE);
    assert_eq!(out.matches("#ifndef TESTGUARD").count(), 1);
    assert_eq!(out.matches("#define TESTGUARD").count(), 1);
    assert_eq!(out.matches("extern \"C\" {").count(), 1);
    assert_eq!(out.matches("} /* extern \"C\" */").count(), 1);
}

#[test]
fn emission_follows_registration_order() {
    let out = builder()
        .with_guard("G")
        .to_writer(String::new())
        .generate(&concat_and_free(), None)
        .unwrap();
    let concat_at = out.find("char * concat (").unwrap();
    let free_at = out.find("void free (").unwrap();
    assert!(concat_at < free_at);
    assert!(out.starts_with(DEFAULT_BANNER));
}

#[test]
fn definer_dedup() {
    let mut registry = Registry::new();
    registry.register(function("void", "take_foo", vec![field("Foo_t", "foo")], vec![TypeDef::Struct(foo_struct())]));
    registry.register(function("Foo_t", "make_foo", vec![], vec![TypeDef::Struct(foo_struct())]));
    let out = builder()
        .with_guard("DEDUP")
        .to_writer(String::new())
        .generate(&registry, None)
        .unwrap();
    assert_eq!(out.matches("typedef struct Foo {").count(), 1);
    assert!(out.contains(
        "typedef struct Foo {\n    MyBool_t b;\n    slice_ref_uint32_t field;\n} Foo_t;\n\n"
    ));
    assert!(out.contains("void take_foo (\n    Foo_t foo);\n\n"));
    assert!(out.contains("Foo_t make_foo (void);\n\n"));
    let body_at = out.find("typedef struct Foo").unwrap();
    assert!(body_at < out.find("void take_foo").unwrap());
}

#[test]
fn generate_headers() {
    let mut registry = concat_and_free();
    registry.register(Export::Type(TypeDef::Struct(foo_struct())));
    registry.register(function("void", "take_foo", vec![field("Foo_t", "foo")], vec![TypeDef::Struct(foo_struct())]));
    let mut definer = SetDefiner::new(String::new());
    for entry in registry.entries() {
        entry.render(&mut definer).unwrap();
    }
    let out = definer.into_sink();
    assert_eq!(out.matches("typedef struct Foo {").count(), 1);
    assert!(out.contains("char * concat ("));
    assert!(out.contains("void free ("));
    assert!(out.contains("void take_foo ("));
}

#[test]
fn definer_insert_reports_first_time() {
    let mut definer = SetDefiner::new(String::new());
    assert!(definer.insert("Foo"));
    assert!(!definer.insert("Foo"));
    assert!(definer.insert("Bar"));
    assert!(!definer.insert("Bar"));
    assert!(definer.into_sink().is_empty());
}

#[test]
fn default_guard_from_package_name() {
    assert_eq!(default_guard("my-pkg_2"), "__RUST_MY-PKG_2__");
    let out = builder()
        .to_writer(String::new())
        .generate(&Registry::new(), Some("demo"))
        .unwrap();
    assert!(out.contains("#ifndef __RUST_DEMO__\n#define __RUST_DEMO__\n"));
    assert!(out.ends_with("#endif /* __RUST_DEMO__ */\n"));
}

#[test]
fn explicit_guard_wins_over_package() {
    let out = builder()
        .with_guard("MINE")
        .to_writer(String::new())
        .generate(&Registry::new(), Some("demo"))
        .unwrap();
    assert!(out.contains("#ifndef MINE\n"));
    assert!(!out.contains("__RUST_DEMO__"));
}

#[test]
fn missing_guard_is_an_error() {
    let r = builder().to_writer(String::new()).generate(&Registry::new(), None);
    assert_eq!(r, Err(HeaderError::MissingGuard));
    let mut definer = SetDefiner::new(String::new());
    let r = builder().generate_with_definer(&concat_and_free(), None, &mut definer);
    assert_eq!(r, Err(HeaderError::MissingGuard));
    assert!(definer.into_sink().is_empty());
}

#[test]
fn write_failure_aborts_generation() {
    let full = builder()
        .with_guard("G")
        .to_writer(String::new())
        .generate(&concat_and_free(), None)
        .unwrap();
    let n = full.chars().count();
    for limit in [0, 10, n - 1] {
        let r = builder()
            .with_guard("G")
            .to_writer(LimitedSink::new(limit))
            .generate(&concat_and_free(), None);
        assert!(matches!(r, Err(HeaderError::Write(WriteError))));
    }
    let sink = builder()
        .with_guard("G")
        .to_writer(LimitedSink::new(n))
        .generate(&concat_and_free(), None)
        .unwrap();
    assert_eq!(sink.into_string(), full);
}

#[test]
fn limited_sink_keeps_text_on_refusal() {
    let mut sink = LimitedSink::new(5);
    assert_eq!(sink.write_str("abc"), Ok(()));
    assert_eq!(sink.write_str("def"), Err(WriteError));
    assert_eq!(sink.write_str("de"), Ok(()));
    assert_eq!(sink.into_string(), "abcde");
}

#[test]
fn declaration_texts() {
    assert_eq!(
        safer_ffi::struct_definition(&foo_struct()),
        "typedef struct Foo {\n    MyBool_t b;\n    slice_ref_uint32_t field;\n} Foo_t;\n\n"
    );
    let empty = CStruct { name: "Unit".to_string(), fields: vec![] };
    assert_eq!(safer_ffi::struct_definition(&empty), "typedef struct Unit {\n} Unit_t;\n\n");
    let f = CFunction {
        ret: "int32_t const *".to_string(),
        name: "max".to_string(),
        params: vec![field("slice_ref_int32_t", "ints")],
        uses: vec![],
    };
    assert_eq!(safer_ffi::prototype(&f), "int32_t const * max (\n    slice_ref_int32_t ints);\n\n");
}

#[test]
fn struct_export_defined_once_with_define() {
    let mut definer = SetDefiner::new(String::new());
    safer_ffi::define(&TypeDef::Struct(foo_struct()), &mut definer).unwrap();
    safer_ffi::define(&TypeDef::Struct(foo_struct()), &mut definer).unwrap();
    Export::Type(TypeDef::Struct(foo_struct())).render(&mut definer).unwrap();
    let out = definer.into_sink();
    assert_eq!(out.matches("typedef struct Foo {").count(), 1);
}

fn my_bool_enum() -> TypeDef {
    TypeDef::Enum(CEnum {
        name: "MyBool".to_string(),
        repr: "uint8_t".to_string(),
        variants: vec![
            CVariant { name: "MY_BOOL_FALSE".to_string(), value: 42 },
            CVariant { name: "MY_BOOL_TRUE".to_string(), value: 43 },
        ],
    })
}

#[test]
fn enum_declared_once_with_its_values() {
    let mut registry = Registry::new();
    registry.register(Export::Type(my_bool_enum()));
    registry.register(function("void", "flip", vec![field("MyBool_t *", "b")], vec![my_bool_enum()]));
    registry.register(function("MyBool_t", "truth", vec![], vec![my_bool_enum()]));
    let out = builder()
        .with_guard("ENUMS")
        .to_writer(String::new())
        .generate(&registry, None)
        .unwrap();
    let def = "typedef uint8_t MyBool_t;\nenum MyBool {\n    MY_BOOL_FALSE = 42,\n    MY_BOOL_TRUE = 43,\n};\n\n";
    assert_eq!(out.matches("enum MyBool {").count(), 1);
    assert!(out.contains(def));
    assert!(out.contains("void flip (\n    MyBool_t * b);\n\n"));
    assert!(out.contains("MyBool_t truth (void);\n\n"));
}

#[test]
fn decimal_values() {
    for (n, text) in [(0u64, "0"), (7, "7"), (10, "10"), (1234567890, "1234567890"), (u64::MAX, "18446744073709551615")] {
        let mut s = String::from("x=");
        safer_ffi::push_decimal(n, &mut s);
        assert_eq!(s, format!("x={}", text));
    }
}

#[test]
fn default_banner_is_the_notice() {
    let notice = "/*! \\file */\n\
/*******************************************\n \
*                                         *\n \
*  File auto-generated by `::safer_ffi`.  *\n \
*                                         *\n \
*  Do not manually edit this file.        *\n \
*                                         *\n \
*******************************************/";
    assert_eq!(DEFAULT_BANNER, notice);
    let out = builder()
        .with_guard("G")
        .to_writer(String::new())
        .generate(&Registry::new(), None)
        .unwrap();
    assert!(out.starts_with(&format!("{}\n\n#ifndef G\n", notice)));
}

#[test]
fn failed_write_keeps_what_was_written() {
    let full = builder()
        .with_guard("G")
        .to_writer(String::new())
        .generate(&concat_and_free(), None)
        .unwrap();
    let n = full.chars().count();
    let mut definer = SetDefiner::new(LimitedSink::new(n - 1));
    let r = builder().with_guard("G").generate_with_definer(&concat_and_free(), None, &mut definer);
    assert_eq!(r, Err(HeaderError::Write(WriteError)));
    let kept = definer.into_sink().into_string();
    assert!(!kept.is_empty());
    assert!(full.starts_with(&kept));
    assert!(!kept.contains("#endif /* G */"));
    let mut sink = LimitedSink::new(3);
    assert_eq!(sink.push_str("abcd"), Err(WriteError));
    assert_eq!(sink.push_str("abc"), Ok(()));
    assert_eq!(sink.into_string(), "abc");
}
