use llvm_proxy::codegen::{generate, generate_source, join_texts, proxy_fn};
use llvm_proxy::decl::{Declaration, ExtractError, ForeignBlock, ForeignFn, Param};

fn path(items: &[&str]) -> Vec<String> {
    items.iter().map(|s| s.to_string()).collect()
}

fn param(name: &str, ty: &str) -> Param {
    Param { name: name.to_string(), ty: ty.to_string() }
}

fn func(name: &str, params: Vec<Param>, output: Option<&str>) -> ForeignFn {
    ForeignFn {
        name: name.to_string(),
        params,
        variadic: false,
        output: output.map(|s| s.to_string()),
        is_unsafe: false,
        abi: None,
    }
}

fn decl(mod_path: &[&str], name: &str, params: Vec<Param>, variadic: bool, output: &str, is_unsafe: bool) -> Declaration {
    Declaration {
        mod_path: path(mod_path),
        name: name.to_string(),
        params,
        variadic,
        output: output.to_string(),
        is_unsafe,
        abi: "C".to_string(),
    }
}

const CONTEXT_CREATE: &str = "#[no_mangle]
pub extern \"C\" fn LLVMContextCreate() -> LLVMContextRef {
    let entry = unsafe {
        crate::proxy::SHARED_LIB.get::<extern \"C\" fn() -> LLVMContextRef>(\"LLVMContextCreate\".as_bytes())
    }
    .expect(\"LLVMContextCreate\");
    entry()
}
";

#[test]
fn zero_argument_proxy_forwards_nothing() {
    let d = decl(&["llvm_sys", "core"], "LLVMContextCreate", vec![], false, "LLVMContextRef", false);
    assert_eq!(proxy_fn(&d), CONTEXT_CREATE);
}

#[test]
fn multi_argument_proxy_forwards_in_order() {
    let d = decl(
        &["llvm_sys", "core"],
        "LLVMAddFunction",
        vec![param("M", "LLVMModuleRef"), param("Name", "*const ::libc::c_char"), param("FunctionTy", "LLVMTypeRef")],
        false,
        "LLVMValueRef",
        true,
    );
    let expected = "#[no_mangle]
pub unsafe extern \"C\" fn LLVMAddFunction(M: LLVMModuleRef, Name: *const ::libc::c_char, FunctionTy: LLVMTypeRef) -> LLVMValueRef {
    let entry = unsafe {
        crate::proxy::SHARED_LIB.get::<unsafe extern \"C\" fn(LLVMModuleRef, *const ::libc::c_char, LLVMTypeRef) -> LLVMValueRef>(\"LLVMAddFunction\".as_bytes())
    }
    .expect(\"LLVMAddFunction\");
    entry(M, Name, FunctionTy)
}
";
    assert_eq!(proxy_fn(&d), expected);
}

#[test]
fn variadic_proxy_keeps_marker() {
    let d = decl(&["m"], "V", vec![param("Fmt", "*const i8")], true, "()", false);
    let text = proxy_fn(&d);
    assert!(text.contains("fn V(Fmt: *const i8, ...) -> () {"));
    assert!(text.contains("fn(*const i8, ...) -> ()>"));
    assert!(text.contains("entry(Fmt)"));
    let bare = decl(&["m"], "W", vec![], true, "()", false);
    let text = proxy_fn(&bare);
    assert!(text.contains("fn W(...) -> () {"));
    assert!(text.contains("entry()"));
}

#[test]
fn codegen_skips_init_wrapper() {
    let blocks = vec![ForeignBlock {
        mod_path: path(&["llvm_sys", "target"]),
        is_unsafe: false,
        abi: "C".to_string(),
        functions: vec![
            func("LLVM_InitializeAllTargets", vec![], None),
            func("LLVMContextCreate", vec![], Some("LLVMContextRef")),
        ],
    }];
    let text = match generate_source(&blocks, "llvm_sys") {
        Ok(t) => t,
        Err(_) => panic!("generation failed"),
    };
    assert!(!text.contains("LLVM_InitializeAllTargets"));
    assert_eq!(text.matches("#[no_mangle]").count(), 1);
    let expected = format!(
        "use llvm_sys::*;\nuse llvm_sys::prelude::*;\nuse llvm_sys::target::*;\n\n{}",
        CONTEXT_CREATE
    );
    assert_eq!(text, expected);
}

#[test]
fn codegen_reports_duplicate() {
    let blocks = vec![
        ForeignBlock {
            mod_path: path(&["llvm_sys", "a"]),
            is_unsafe: false,
            abi: "C".to_string(),
            functions: vec![func("LLVMFoo", vec![], None)],
        },
        ForeignBlock {
            mod_path: path(&["llvm_sys", "b"]),
            is_unsafe: false,
            abi: "C".to_string(),
            functions: vec![func("LLVMFoo", vec![], None)],
        },
    ];
    match generate_source(&blocks, "llvm_sys") {
        Err(e) => {
            let ExtractError::Duplicate { name, .. } = &e;
            assert_eq!(name, "LLVMFoo");
        }
        Ok(_) => panic!("duplicate accepted"),
    }
}

#[test]
fn imports_are_deduplicated_in_first_seen_order() {
    let decls = vec![
        decl(&["llvm_sys", "core"], "A", vec![], false, "()", false),
        decl(&["llvm_sys"], "B", vec![], false, "()", false),
        decl(&["llvm_sys", "core"], "C", vec![], false, "()", false),
        decl(&["llvm_sys", "prelude"], "D", vec![], false, "()", false),
        decl(&["llvm_sys", "analysis"], "E", vec![], false, "()", false),
    ];
    let unit = generate(&decls, "llvm_sys");
    assert_eq!(
        unit.imports,
        vec![
            path(&["llvm_sys"]),
            path(&["llvm_sys", "prelude"]),
            path(&["llvm_sys", "core"]),
            path(&["llvm_sys", "analysis"]),
        ]
    );
    assert_eq!(unit.functions.len(), 5);
    let text = unit.render();
    assert!(text.starts_with(
        "use llvm_sys::*;\nuse llvm_sys::prelude::*;\nuse llvm_sys::core::*;\nuse llvm_sys::analysis::*;\n\n#[no_mangle]\npub extern \"C\" fn A() -> () {"
    ));
    assert_eq!(text, generate(&decls, "llvm_sys").render());
}

#[test]
fn empty_unit_has_only_fixed_imports() {
    let unit = generate(&vec![], "llvm_sys");
    assert_eq!(unit.render(), "use llvm_sys::*;\nuse llvm_sys::prelude::*;\n");
    assert_eq!(generate_source(&vec![], "llvm_sys").ok(), Some(unit.render()));
}

#[test]
fn joining_texts() {
    assert_eq!(join_texts(&path(&["a", "b", "c"]), ", "), "a, b, c");
    assert_eq!(join_texts(&path(&["a"]), ", "), "a");
    assert_eq!(join_texts(&vec![], ", "), "");
}
