use wasm_stats::classify::{category, get_instruction_stats, proposal, Category, Proposal};
use wasm_stats::language::Language;
use wasm_stats::module::{
    Export, ExportDesc, FuncType, GlobalType, Import, ImportDesc, ImportPath, Module, Section,
    ValueType,
};
use wasm_stats::opcode::{opcode_from_bytes, Opcode};
use wasm_stats::stats::{get_stats, MaybeExternal, Stats, StatsError};

fn p(b: u8) -> Opcode {
    Opcode::Plain(b)
}

fn module_of(sections: Vec<Section>) -> Module {
    let m = Module { sections, total_size: 4096 };
    assert!(m.is_well_formed());
    m
}

fn code_only(bodies: Vec<Vec<Opcode>>) -> Stats {
    get_stats(&module_of(vec![Section::Code { size: 40, bodies }])).unwrap()
}

fn category_sum(s: &Stats) -> usize {
    let c = &s.instr.categories;
    c.load_store + c.local_var + c.global_var + c.table + c.memory + c.control_flow
        + c.direct_calls + c.indirect_calls + c.constants + c.wait_notify + c.other
}

fn global(value_type: ValueType, mutable: bool) -> GlobalType {
    GlobalType { value_type, mutable }
}

fn export(name: &str, desc: ExportDesc) -> Export {
    Export { name: name.to_string(), desc }
}

fn import(module: &str, name: &str, desc: ImportDesc) -> Import {
    Import { path: ImportPath { module: module.to_string(), name: name.to_string() }, desc }
}

#[test]
fn opcode_decoding() {
    assert_eq!(opcode_from_bytes(&[0x10, 0x00]), Some(Opcode::Plain(0x10)));
    assert_eq!(opcode_from_bytes(&[0xFD, 0x0C, 0x01]), Some(Opcode::Simd(12)));
    assert_eq!(opcode_from_bytes(&[0xFD, 0x84, 0x01]), Some(Opcode::Simd(132)));
    assert_eq!(opcode_from_bytes(&[0xFC, 0x11, 0x00]), Some(Opcode::Misc(17)));
    assert_eq!(opcode_from_bytes(&[0xFE, 0x00, 0x02, 0x00]), Some(Opcode::Atomic(0)));
    assert_eq!(opcode_from_bytes(&[0xFB, 0x1C]), Some(Opcode::Gc(28)));
    assert_eq!(opcode_from_bytes(&[0xFD, 0xFF, 0xFF, 0xFF, 0xFF, 0x0F]), Some(Opcode::Simd(u32::MAX)));
    assert_eq!(opcode_from_bytes(&[0xFD, 0x80, 0x80, 0x80, 0x80, 0x10]), None);
    assert_eq!(opcode_from_bytes(&[0xFD, 0x80, 0x80, 0x80, 0x80, 0x80, 0x00]), None);
    assert_eq!(opcode_from_bytes(&[0xFE]), None);
    assert_eq!(opcode_from_bytes(&[]), None);
}

#[test]
fn classification_table() {
    assert_eq!(category(p(0x02)), Category::ControlFlow);
    assert_eq!(category(p(0x1C)), Category::ControlFlow);
    assert_eq!(category(p(0x10)), Category::DirectCalls);
    assert_eq!(category(p(0x11)), Category::IndirectCalls);
    assert_eq!(category(p(0x41)), Category::Constants);
    assert_eq!(category(p(0x22)), Category::LocalVar);
    assert_eq!(category(p(0x24)), Category::GlobalVar);
    assert_eq!(category(p(0x25)), Category::Table);
    assert_eq!(category(p(0x3E)), Category::LoadStore);
    assert_eq!(category(p(0x40)), Category::Memory);
    assert_eq!(category(p(0x6A)), Category::Other);
    assert_eq!(proposal(p(0x6A)), None);
    assert_eq!(category(p(0xD0)), Category::Constants);
    assert_eq!(proposal(p(0xD0)), Some(Proposal::RefTypes));
    assert_eq!(category(p(0xD1)), Category::Other);
    assert_eq!(proposal(p(0xD1)), Some(Proposal::RefTypes));
    assert_eq!(proposal(p(0xAD)), Some(Proposal::SignExtend));
    assert_eq!(proposal(p(0xAC)), None);
    assert_eq!(proposal(p(0xC4)), Some(Proposal::SignExtend));
    assert_eq!(category(Opcode::Misc(3)), Category::Other);
    assert_eq!(proposal(Opcode::Misc(3)), Some(Proposal::NonTrappingConv));
    assert_eq!(category(Opcode::Misc(10)), Category::Memory);
    assert_eq!(proposal(Opcode::Misc(10)), Some(Proposal::Bulk));
    assert_eq!(category(Opcode::Misc(13)), Category::Table);
    assert_eq!(proposal(Opcode::Misc(13)), Some(Proposal::Bulk));
    assert_eq!(category(Opcode::Misc(15)), Category::Table);
    assert_eq!(proposal(Opcode::Misc(16)), Some(Proposal::RefTypes));
    assert_eq!(category(Opcode::Simd(0)), Category::LoadStore);
    assert_eq!(category(Opcode::Simd(91)), Category::LoadStore);
    assert_eq!(category(Opcode::Simd(92)), Category::Other);
    assert_eq!(category(Opcode::Simd(12)), Category::Constants);
    assert_eq!(proposal(Opcode::Simd(200)), Some(Proposal::Simd));
    assert_eq!(category(Opcode::Atomic(2)), Category::WaitNotify);
    assert_eq!(category(Opcode::Atomic(0x1D)), Category::LoadStore);
    assert_eq!(category(Opcode::Atomic(0x1E)), Category::Other);
    assert_eq!(proposal(Opcode::Atomic(3)), Some(Proposal::Atomics));
    assert_eq!(category(Opcode::Gc(0)), Category::Other);
    assert_eq!(proposal(Opcode::Gc(0)), None);
}

#[test]
fn instruction_mix_of_one_body() {
    let body = vec![
        p(0x20), p(0x20), p(0x6A), p(0x21), p(0x23), p(0x28), p(0x36), p(0x41),
        Opcode::Simd(0), Opcode::Simd(12), Opcode::Simd(100), Opcode::Atomic(1),
        Opcode::Misc(11), p(0x3F), p(0x0B),
    ];
    let s = get_instruction_stats(&vec![body]);
    assert_eq!(s.total, 15);
    assert_eq!(s.categories.local_var, 3);
    assert_eq!(s.categories.global_var, 1);
    assert_eq!(s.categories.load_store, 3);
    assert_eq!(s.categories.constants, 2);
    assert_eq!(s.categories.other, 2);
    assert_eq!(s.categories.wait_notify, 1);
    assert_eq!(s.categories.memory, 2);
    assert_eq!(s.categories.control_flow, 1);
    assert_eq!(s.proposals.simd, 3);
    assert_eq!(s.proposals.atomics, 1);
    assert_eq!(s.proposals.bulk, 1);
}

#[test]
fn total_equals_category_sum_without_tail_calls() {
    let s = code_only(vec![
        vec![p(0x41), p(0x41), p(0x6A), p(0x1A), p(0x0B)],
        vec![p(0x10), p(0x11), Opcode::Misc(0), p(0xD1), p(0x0B)],
    ]);
    assert_eq!(s.instr.total, 10);
    assert_eq!(category_sum(&s), s.instr.total);
}

#[test]
fn tail_calls_count_twice() {
    let s = code_only(vec![vec![p(0x12), p(0x13), p(0x0B)]]);
    assert_eq!(s.instr.total, 3);
    assert_eq!(s.instr.categories.control_flow, 3);
    assert_eq!(s.instr.categories.direct_calls, 1);
    assert_eq!(s.instr.categories.indirect_calls, 1);
    assert_eq!(s.instr.proposals.tail_calls, 2);
    assert_eq!(category_sum(&s), 5);
}

#[test]
fn module_without_functions() {
    let s = get_stats(&module_of(vec![Section::Type { size: 4, types: vec![] }])).unwrap();
    assert_eq!(s.funcs, 0);
    assert_eq!(s.instr.total, 0);
    let s = code_only(vec![]);
    assert_eq!(s.funcs, 0);
    assert_eq!(s.instr.total, 0);
}

#[test]
fn exported_mutable_i64_global() {
    let m = module_of(vec![
        Section::Global { size: 12, globals: vec![global(ValueType::I64, true), global(ValueType::I32, false)] },
        Section::Export { size: 6, exports: vec![export("g", ExportDesc::Global(0))] },
    ]);
    let s = get_stats(&m).unwrap();
    assert_eq!(s.instr.proposals.mutable_externals, 1);
    assert_eq!(s.instr.proposals.bigint_externals, 1);
    let m = module_of(vec![Section::Global {
        size: 12,
        globals: vec![global(ValueType::I64, true)],
    }]);
    let s = get_stats(&m).unwrap();
    assert_eq!(s.instr.proposals.mutable_externals, 0);
    assert_eq!(s.instr.proposals.bigint_externals, 0);
}

#[test]
fn imports_are_external_and_share_the_index_space() {
    let m = module_of(vec![
        Section::Type {
            size: 20,
            types: vec![
                FuncType { params: vec![ValueType::I64, ValueType::I64], results: vec![] },
                FuncType { params: vec![], results: vec![ValueType::I32] },
                FuncType { params: vec![ValueType::I32], results: vec![ValueType::I64] },
            ],
        },
        Section::Import {
            size: 30,
            imports: vec![
                import("env", "f", ImportDesc::Func(0)),
                import("env", "g", ImportDesc::Global(global(ValueType::I64, false))),
                import("env", "m", ImportDesc::Mem),
                import("env", "t", ImportDesc::Table),
            ],
        },
        Section::Function { size: 3, type_ids: vec![1, 2] },
        Section::Global { size: 8, globals: vec![global(ValueType::I32, true)] },
        Section::Export {
            size: 20,
            exports: vec![
                export("one", ExportDesc::Func(1)),
                export("two", ExportDesc::Func(2)),
                export("again", ExportDesc::Func(0)),
                export("h", ExportDesc::Global(1)),
                export("mem", ExportDesc::Mem(0)),
            ],
        },
        Section::Code { size: 9, bodies: vec![vec![p(0x0B)], vec![p(0x0B)]] },
    ]);
    let s = get_stats(&m).unwrap();
    // f (two i64 params, counted once), g (i64), and the function of type 2.
    assert_eq!(s.instr.proposals.bigint_externals, 3);
    assert_eq!(s.instr.proposals.mutable_externals, 1);
    assert_eq!(s.imports.funcs, 1);
    assert_eq!(s.imports.globals, 1);
    assert_eq!(s.imports.memories, 1);
    assert_eq!(s.imports.tables, 1);
    assert_eq!(s.exports.funcs, 3);
    assert_eq!(s.exports.globals, 1);
    assert_eq!(s.exports.memories, 1);
    assert_eq!(s.exports.tables, 0);
    assert_eq!(s.funcs, 2);
}

#[test]
fn export_past_the_index_space_fails() {
    let m = module_of(vec![
        Section::Type { size: 4, types: vec![FuncType { params: vec![], results: vec![] }] },
        Section::Function { size: 2, type_ids: vec![0] },
        Section::Export { size: 6, exports: vec![export("f", ExportDesc::Func(1))] },
    ]);
    assert_eq!(get_stats(&m).err(), Some(StatsError::IndexOutOfBounds));
    let m = module_of(vec![Section::Export { size: 6, exports: vec![export("g", ExportDesc::Global(0))] }]);
    assert_eq!(get_stats(&m).err(), Some(StatsError::IndexOutOfBounds));
}

#[test]
fn external_function_with_unknown_type_fails() {
    let m = module_of(vec![Section::Import {
        size: 8,
        imports: vec![import("env", "f", ImportDesc::Func(3))],
    }]);
    assert_eq!(get_stats(&m).err(), Some(StatsError::IndexOutOfBounds));
    // A local function that is not external is never looked up.
    let m = module_of(vec![Section::Function { size: 2, type_ids: vec![7] }]);
    assert!(get_stats(&m).is_ok());
}

#[test]
fn sizes_by_section_class() {
    let m = Module {
        sections: vec![
            Section::Custom { size: 11, name: "name".to_string() },
            Section::Type { size: 13, types: vec![] },
            Section::Import { size: 17, imports: vec![] },
            Section::Function { size: 19, type_ids: vec![] },
            Section::Table { size: 23 },
            Section::Memory { size: 29, shared: vec![] },
            Section::Global { size: 31, globals: vec![] },
            Section::Export { size: 37, exports: vec![] },
            Section::Start,
            Section::Element { size: 41 },
            Section::DataCount,
            Section::Code { size: 43, bodies: vec![] },
            Section::Data { size: 47 },
            Section::Custom { size: 53, name: "name".to_string() },
        ],
        total_size: 400,
    };
    assert!(m.is_well_formed());
    let s = get_stats(&m).unwrap();
    assert_eq!(s.size.custom, 64);
    assert_eq!(s.size.types, 13);
    assert_eq!(s.size.externals, 54);
    assert_eq!(s.size.descriptors, 102);
    assert_eq!(s.size.init, 88);
    assert_eq!(s.size.code, 43);
    assert_eq!(s.size.total, 400);
    let sum = s.size.code + s.size.init + s.size.externals + s.size.types + s.size.custom + s.size.descriptors;
    assert_eq!(sum, 364);
    assert!(sum <= s.size.total);
    assert_eq!(s.custom_sections, vec!["name".to_string(), "name".to_string()]);
    assert!(s.has_start);
    assert_eq!(s.instr.proposals.bulk, 1);
    assert_eq!(s.language, Language::Unknown);
}

#[test]
fn section_side_effects_on_proposals() {
    let m = module_of(vec![
        Section::Type {
            size: 12,
            types: vec![
                FuncType { params: vec![], results: vec![ValueType::I32, ValueType::I32] },
                FuncType { params: vec![], results: vec![ValueType::I32] },
                FuncType { params: vec![], results: vec![ValueType::F32, ValueType::F64, ValueType::I32] },
            ],
        },
        Section::Memory { size: 7, shared: vec![true, false, true] },
        Section::DataCount,
        Section::Code { size: 10, bodies: vec![vec![Opcode::Misc(8), Opcode::Atomic(0x10), p(0x0B)]] },
    ]);
    let s = get_stats(&m).unwrap();
    assert_eq!(s.instr.proposals.multi_value, 2);
    assert_eq!(s.instr.proposals.atomics, 3);
    assert_eq!(s.instr.proposals.bulk, 2);
    assert!(!s.has_start);
}

#[test]
fn ill_formed_module_is_detected() {
    let m = Module { sections: vec![Section::Data { size: 10 }], total_size: 9 };
    assert!(!m.is_well_formed());
    let m = Module { sections: vec![Section::Code { size: 2, bodies: vec![vec![p(0x01); 5]] }], total_size: 5 };
    assert!(!m.is_well_formed());
    let m = Module { sections: vec![Section::Code { size: 2, bodies: vec![vec![p(0x01); 5]] }], total_size: 6 };
    assert!(m.is_well_formed());
}

#[test]
fn maybe_external_keeps_only_external_values() {
    assert_eq!(MaybeExternal { value: 3u32, is_external: true }.external(), Some(3));
    assert_eq!(MaybeExternal { value: 3u32, is_external: false }.external(), None);
}

#[test]
fn exception_tags_count_in_no_kind() {
    let m = module_of(vec![
        Section::Import { size: 9, imports: vec![import("env", "e", ImportDesc::Tag)] },
        Section::Export { size: 5, exports: vec![export("e", ExportDesc::Tag(0))] },
    ]);
    let s = get_stats(&m).unwrap();
    assert_eq!(s.imports.funcs + s.imports.globals + s.imports.memories + s.imports.tables, 0);
    assert_eq!(s.exports.funcs + s.exports.globals + s.exports.memories + s.exports.tables, 0);
    assert_eq!(s.size.externals, 14);
}
