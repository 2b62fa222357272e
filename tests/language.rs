use wasm_stats::language::{contains, infer_language, language_from_names, same_text, Language};
use wasm_stats::module::{
    Export, ExportDesc, FuncType, GlobalType, Import, ImportDesc, ImportPath, Module, Section,
    ValueType,
};
use wasm_stats::opcode::Opcode;
use wasm_stats::stats::get_stats;

fn path(module: &str, name: &str) -> ImportPath {
    ImportPath { module: module.to_string(), name: name.to_string() }
}

fn func_import(module: &str, name: &str, ty: u32) -> Import {
    Import { path: path(module, name), desc: ImportDesc::Func(ty) }
}

fn sig(params: Vec<ValueType>, results: Vec<ValueType>) -> FuncType {
    FuncType { params, results }
}

fn module_of(sections: Vec<Section>) -> Module {
    let m = Module { sections, total_size: 4096 };
    assert!(m.is_well_formed());
    m
}

fn language_of_imports(types: Vec<FuncType>, imports: Vec<Import>) -> Language {
    let m = module_of(vec![
        Section::Type { size: 16, types },
        Section::Import { size: 64, imports },
    ]);
    get_stats(&m).unwrap().language
}

#[test]
fn get_stats_funcs() {
    let m = module_of(vec![
        Section::Type { size: 4, types: vec![sig(vec![], vec![])] },
        Section::Function { size: 3, type_ids: vec![0, 0] },
        Section::Export { size: 7, exports: vec![Export { name: "bar".to_string(), desc: ExportDesc::Func(1) }] },
        Section::Code {
            size: 9,
            bodies: vec![vec![Opcode::Plain(0x0B)], vec![Opcode::Plain(0x10), Opcode::Plain(0x0B)]],
        },
    ]);
    let stats = get_stats(&m).unwrap();
    assert_eq!(stats.funcs, 2);
}

#[test]
fn infer_language_unknown() {
    let m = module_of(vec![]);
    let stats = get_stats(&m).unwrap();
    assert_eq!(stats.language, Language::Unknown);
}

#[test]
fn infer_language_rust() {
    // An export mentions wbindgen.
    let m = module_of(vec![
        Section::Type { size: 5, types: vec![sig(vec![ValueType::I32], vec![])] },
        Section::Function { size: 2, type_ids: vec![0] },
        Section::Export {
            size: 21,
            exports: vec![Export { name: "__wbindgen_malloc".to_string(), desc: ExportDesc::Func(0) }],
        },
        Section::Code { size: 4, bodies: vec![vec![Opcode::Plain(0x0B)]] },
    ]);
    assert_eq!(get_stats(&m).unwrap().language, Language::Rust);

    // An import from the wbg module.
    let lang = language_of_imports(
        vec![sig(vec![ValueType::I32], vec![])],
        vec![func_import("wbg", "__wbindgen_object_drop_ref", 0)],
    );
    assert_eq!(lang, Language::Rust);

    // An import whose name mentions wbg.
    let lang = language_of_imports(
        vec![sig(vec![ValueType::I32; 10], vec![])],
        vec![func_import("./source_compiler_bg.js", "__wbg_sourcerorLogCallback_9555c6dd7a1fa2a1", 0)],
    );
    assert_eq!(lang, Language::Rust);
}

#[test]
fn infer_language_blazor() {
    let lang = language_of_imports(
        vec![
            sig(vec![ValueType::I32; 3], vec![ValueType::I32]),
            sig(vec![ValueType::I32; 5], vec![ValueType::I32]),
        ],
        vec![
            func_import("env", "mono_wasm_invoke_js_blazor", 1),
            func_import("env", "emscripten_asm_const_int", 0),
        ],
    );
    assert_eq!(lang, Language::Blazor);
}

#[test]
fn infer_language_emscripten() {
    let lang = language_of_imports(
        vec![sig(vec![ValueType::I32], vec![ValueType::I32])],
        vec![func_import("env", "_emscripten_asm_const_i", 0)],
    );
    assert_eq!(lang, Language::Emscripten);
}

#[test]
fn infer_language_go() {
    let lang = language_of_imports(
        vec![sig(vec![ValueType::I32], vec![])],
        vec![func_import("go", "runtime.resetMemoryDataView", 0)],
    );
    assert_eq!(lang, Language::Go);
}

#[test]
fn infer_language_likely_emscripten() {
    let lang = language_of_imports(
        vec![sig(vec![ValueType::I32; 3], vec![ValueType::I32])],
        vec![func_import("a", "a", 0), func_import("a", "b", 0)],
    );
    assert_eq!(lang, Language::LikelyEmscripten);

    let lang = language_of_imports(
        vec![sig(vec![ValueType::I32; 4], vec![])],
        vec![
            func_import("env", "b", 0),
            Import {
                path: path("env", "a"),
                desc: ImportDesc::Global(GlobalType { value_type: ValueType::I32, mutable: false }),
            },
        ],
    );
    assert_eq!(lang, Language::LikelyEmscripten);
}

#[test]
fn go_module_wins_over_bindgen_and_minified_patterns() {
    let imports = vec![path("a", "a"), path("a", "b"), path("wbg", "__wbg_x"), path("go", "debug")];
    let exports = vec!["__wbindgen_start".to_string()];
    assert_eq!(language_from_names(&imports, &exports), Language::Go);
}

#[test]
fn go_module_loses_to_emscripten_import() {
    let imports = vec![path("go", "debug"), path("env", "emscripten_sleep")];
    assert_eq!(language_from_names(&imports, &vec![]), Language::Emscripten);
}

#[test]
fn blazor_import_beats_emscripten_imports() {
    let imports = vec![
        path("env", "emscripten_asm_const_int"),
        path("env", "emscripten_memcpy_big"),
        path("env", "mono_wasm_blazor_call"),
    ];
    assert_eq!(language_from_names(&imports, &vec![]), Language::Blazor);
}

#[test]
fn minified_pair_needs_both_names() {
    let both = vec![path("a", "a"), path("a", "b")];
    assert_eq!(language_from_names(&both, &vec![]), Language::LikelyEmscripten);
    let changed = vec![path("a", "a"), path("a", "c")];
    assert_eq!(language_from_names(&changed, &vec![]), Language::Unknown);
    let env_pair = vec![path("env", "b"), path("env", "a")];
    assert_eq!(language_from_names(&env_pair, &vec![]), Language::LikelyEmscripten);
    let mixed = vec![path("a", "a"), path("env", "b")];
    assert_eq!(language_from_names(&mixed, &vec![]), Language::Unknown);
}

#[test]
fn bindgen_module_names_give_rust() {
    assert_eq!(language_from_names(&vec![path("wbindgen", "f")], &vec![]), Language::Rust);
    assert_eq!(language_from_names(&vec![path("x", "my_wbg_shim")], &vec![]), Language::Rust);
    assert_eq!(language_from_names(&vec![path("x", "wb_g")], &vec![]), Language::Unknown);
}

#[test]
fn assembly_script_is_never_inferred() {
    let imports = vec![path("env", "abort"), path("env", "trace")];
    assert_eq!(language_from_names(&imports, &vec!["memory".to_string()]), Language::Unknown);
}

#[test]
fn language_sees_imports_of_every_section() {
    let m = module_of(vec![
        Section::Import { size: 8, imports: vec![func_import("x", "a", 0)] },
        Section::Import { size: 8, imports: vec![func_import("go", "y", 0)] },
    ]);
    assert_eq!(infer_language(&m), Language::Go);
}

#[test]
fn substring_and_equality_helpers() {
    assert!(contains("mono_wasm_invoke_js_blazor", "blazor"));
    assert!(!contains("blazo", "blazor"));
    assert!(contains("abc", ""));
    assert!(contains("__wbg_x", "wbg"));
    assert!(!contains("w_b_g", "wbg"));
    assert!(same_text("go", "go"));
    assert!(!same_text("go", "go "));
    assert!(!same_text("Go", "go"));
}
