use llvm_proxy::decl::ForeignFn;
use llvm_proxy::locate::Platform;
use llvm_proxy::walk::{module_file, scan_file, Found, Item};

fn path(items: &[&str]) -> Vec<String> {
    items.iter().map(|s| s.to_string()).collect()
}

fn func(name: &str) -> ForeignFn {
    ForeignFn {
        name: name.to_string(),
        params: vec![],
        variadic: false,
        output: None,
        is_unsafe: false,
        abi: None,
    }
}

fn foreign(names: &[&str]) -> Item {
    Item::Foreign {
        is_unsafe: false,
        abi: "C".to_string(),
        functions: names.iter().map(|n| func(n)).collect(),
    }
}

fn module(name: &str, body: Option<Vec<Item>>) -> Item {
    Item::Module { name: name.to_string(), body }
}

#[test]
fn walk_yields_blocks_and_module_files_in_order() {
    let items = vec![
        Item::Ignored,
        module("core", None),
        foreign(&["LLVMContextCreate"]),
        module(
            "transforms",
            Some(vec![module("ipo", None), Item::TypeAlias, module("inner", Some(vec![module("deep", None)]))]),
        ),
        Item::TypeAlias,
    ];
    let found = match scan_file(items, "/src", &path(&["llvm_sys"]), Platform::Linux) {
        Ok(f) => f,
        Err(e) => panic!("{e}"),
    };
    assert_eq!(found.len(), 4);
    match &found[0] {
        Found::File { dir, name, mod_path } => {
            assert_eq!(dir, "/src");
            assert_eq!(name, "core");
            assert_eq!(mod_path, &path(&["llvm_sys", "core"]));
        }
        _ => panic!("expected a module file"),
    }
    match &found[1] {
        Found::Block(b) => {
            assert_eq!(b.mod_path, path(&["llvm_sys"]));
            assert_eq!(b.functions.len(), 1);
            assert_eq!(b.functions[0].name, "LLVMContextCreate");
            assert_eq!(b.abi, "C");
        }
        _ => panic!("expected a block"),
    }
    match &found[2] {
        Found::File { dir, name, mod_path } => {
            assert_eq!(dir, "/src/transforms");
            assert_eq!(name, "ipo");
            assert_eq!(mod_path, &path(&["llvm_sys", "transforms", "ipo"]));
        }
        _ => panic!("expected a module file"),
    }
    match &found[3] {
        Found::File { dir, name, mod_path } => {
            assert_eq!(dir, "/src/transforms/inner");
            assert_eq!(name, "deep");
            assert_eq!(mod_path, &path(&["llvm_sys", "transforms", "inner", "deep"]));
        }
        _ => panic!("expected a module file"),
    }
}

#[test]
fn walk_refuses_unexpected_item() {
    let items = vec![Item::Ignored, Item::Unexpected { text: "fn helper () { }".to_string() }];
    match scan_file(items, "/src", &path(&["llvm_sys"]), Platform::Linux) {
        Err(e) => assert_eq!(e, "unexpected item fn helper () { }"),
        Ok(_) => panic!("unexpected item accepted"),
    }
}

#[test]
fn inline_module_allows_only_modules_and_aliases() {
    let with_struct = vec![module("m", Some(vec![Item::TypeAlias, Item::Ignored]))];
    assert!(scan_file(with_struct, "/src", &path(&["llvm_sys"]), Platform::Linux).is_err());
    let with_block = vec![module("m", Some(vec![foreign(&["F"])]))];
    assert!(scan_file(with_block, "/src", &path(&["llvm_sys"]), Platform::Linux).is_err());
    let fine = vec![module("m", Some(vec![Item::TypeAlias]))];
    assert!(matches!(scan_file(fine, "/src", &path(&["llvm_sys"]), Platform::Linux), Ok(ref f) if f.is_empty()));
}

#[test]
fn module_file_resolution() {
    let (file, dir) = module_file("/src", "core", true, Platform::Linux);
    assert_eq!(file, "/src/core/mod.rs");
    assert_eq!(dir, "/src/core");
    let (file, dir) = module_file("/src", "core", false, Platform::Linux);
    assert_eq!(file, "/src/core.rs");
    assert_eq!(dir, "/src");
    let (file, _) = module_file("C:\\src", "core", false, Platform::Windows);
    assert_eq!(file, "C:\\src\\core.rs");
}
