use vstd::prelude::*;
use crate::classify::{
    Category, InstructionStats, InstructionCategoryStats, Proposal, ProposalStats, category_count,
    flat, get_instruction_stats, proposal_count, lemma_counts_concat, lemma_category_count_le_len,
    lemma_proposal_count_le_len, lemma_category_sum, is_tail_call,
};
use crate::language::{Language, export_names, import_paths, infer_language, language_of};
use crate::module::{
    Bucket, Export, ExportDesc, FuncType, GlobalType, Import, ImportDesc, Module, Section,
    ValueType, lemma_totals_grow, total_bytes, total_items,
};
use crate::opcode::Opcode;

verus! {

/// An entry of an index space, with whether it is reachable from outside the
/// module (imported or exported).
#[derive(Clone, Copy, Debug, PartialEq, Eq)]
pub struct MaybeExternal<T> {
    pub value: T,
    pub is_external: bool,
}

impl<T> MaybeExternal<T> {
    /// The entry's value where it is external.
    pub fn external(self) -> (r: Option<T>)
        ensures
            self.is_external ==> r == Some(self.value),
            !self.is_external ==> r is None,
    {
        if self.is_external {
            Some(self.value)
        } else {
            None
        }
    }
}

/// The kinds of entity that imports and exports carry.
#[derive(Clone, Copy, Debug, PartialEq, Eq, Structural)]
pub enum ExternalKind {
    Func,
    Memory,
    Global,
    Table,
}

#[derive(Clone, Copy, Debug, PartialEq, Eq, Default)]
pub struct SizeStats {
    pub code: usize,
    pub init: usize,
    pub externals: usize,
    pub types: usize,
    pub custom: usize,
    pub descriptors: usize,
    pub total: usize,
}

impl SizeStats {
    pub open spec fn get(&self, b: Bucket) -> usize {
        match b {
            Bucket::Code => self.code,
            Bucket::Init => self.init,
            Bucket::Externals => self.externals,
            Bucket::Types => self.types,
            Bucket::Custom => self.custom,
            Bucket::Descriptors => self.descriptors,
        }
    }

    /// The sum of the six size classes.
    pub open spec fn buckets_sum(&self) -> int {
        self.code + self.init + self.externals + self.types + self.custom + self.descriptors
    }
}

#[derive(Clone, Copy, Debug, PartialEq, Eq, Default)]
pub struct ExternalStats {
    pub funcs: usize,
    pub memories: usize,
    pub globals: usize,
    pub tables: usize,
}

impl ExternalStats {
    pub open spec fn get(&self, k: ExternalKind) -> usize {
        match k {
            ExternalKind::Func => self.funcs,
            ExternalKind::Memory => self.memories,
            ExternalKind::Global => self.globals,
            ExternalKind::Table => self.tables,
        }
    }

    /// Counts one more entity of kind `k`.
    pub fn bump(&mut self, k: ExternalKind)
        requires
            old(self).get(k) < usize::MAX,
        ensures
            final(self).get(k) == old(self).get(k) + 1,
            forall|j: ExternalKind| j != k ==> final(self).get(j) == old(self).get(j),
    {
        match k {
            ExternalKind::Func => self.funcs = self.funcs + 1,
            ExternalKind::Memory => self.memories = self.memories + 1,
            ExternalKind::Global => self.globals = self.globals + 1,
            ExternalKind::Table => self.tables = self.tables + 1,
        }
    }
}

/// The profile of a module.
#[derive(Debug)]
pub struct Stats {
    pub funcs: usize,
    pub language: Language,
    pub instr: InstructionStats,
    pub size: SizeStats,
    pub imports: ExternalStats,
    pub exports: ExternalStats,
    pub custom_sections: Vec<String>,
    pub has_start: bool,
}

/// Why a module cannot be profiled.
#[derive(Clone, Copy, Debug, PartialEq, Eq, Structural)]
pub enum StatsError {
    /// An export, or the type of an external function, refers past the end of
    /// its index space.
    IndexOutOfBounds,
}

/// The kind an import is counted under; exception tags are counted under none.
pub open spec fn import_kind(d: ImportDesc) -> Option<ExternalKind> {
    match d {
        ImportDesc::Func(_) => Some(ExternalKind::Func),
        ImportDesc::Table => Some(ExternalKind::Table),
        ImportDesc::Mem => Some(ExternalKind::Memory),
        ImportDesc::Global(_) => Some(ExternalKind::Global),
        ImportDesc::Tag => None,
    }
}

/// The kind an export is counted under; exception tags are counted under none.
pub open spec fn export_kind(d: ExportDesc) -> Option<ExternalKind> {
    match d {
        ExportDesc::Func(_) => Some(ExternalKind::Func),
        ExportDesc::Table(_) => Some(ExternalKind::Table),
        ExportDesc::Mem(_) => Some(ExternalKind::Memory),
        ExportDesc::Global(_) => Some(ExternalKind::Global),
        ExportDesc::Tag(_) => None,
    }
}

/// How many of `imports` are of kind `k`.
pub open spec fn import_count(imports: Seq<Import>, k: ExternalKind) -> nat
    decreases imports.len(),
{
    if imports.len() == 0 {
        0
    } else {
        import_count(imports.drop_last(), k) + if import_kind(imports.last().desc) == Some(k) {
            1nat
        } else {
            0nat
        }
    }
}

/// How many of `exports` are of kind `k`.
pub open spec fn export_count(exports: Seq<Export>, k: ExternalKind) -> nat
    decreases exports.len(),
{
    if exports.len() == 0 {
        0
    } else {
        export_count(exports.drop_last(), k) + if export_kind(exports.last().desc) == Some(k) {
            1nat
        } else {
            0nat
        }
    }
}

/// The entries of the last import section of `secs` (none if there is none).
pub open spec fn last_imports(secs: Seq<Section>) -> Seq<Import>
    decreases secs.len(),
{
    if secs.len() == 0 {
        Seq::empty()
    } else {
        match secs.last() {
            Section::Import { imports, .. } => imports@,
            _ => last_imports(secs.drop_last()),
        }
    }
}

/// The entries of the last export section of `secs`.
pub open spec fn last_exports(secs: Seq<Section>) -> Seq<Export>
    decreases secs.len(),
{
    if secs.len() == 0 {
        Seq::empty()
    } else {
        match secs.last() {
            Section::Export { exports, .. } => exports@,
            _ => last_exports(secs.drop_last()),
        }
    }
}

/// The function types of the last type section of `secs`.
pub open spec fn last_types(secs: Seq<Section>) -> Seq<FuncType>
    decreases secs.len(),
{
    if secs.len() == 0 {
        Seq::empty()
    } else {
        match secs.last() {
            Section::Type { types, .. } => types@,
            _ => last_types(secs.drop_last()),
        }
    }
}

/// The number of bodies of the last code section of `secs`.
pub open spec fn last_code_funcs(secs: Seq<Section>) -> nat
    decreases secs.len(),
{
    if secs.len() == 0 {
        0
    } else {
        match secs.last() {
            Section::Code { bodies, .. } => bodies@.len(),
            _ => last_code_funcs(secs.drop_last()),
        }
    }
}

/// The encoded size of the last code section of `secs`.
pub open spec fn last_code_size(secs: Seq<Section>) -> nat
    decreases secs.len(),
{
    if secs.len() == 0 {
        0
    } else {
        match secs.last() {
            Section::Code { size, .. } => size as nat,
            _ => last_code_size(secs.drop_last()),
        }
    }
}

/// The bytes of the sections of `secs` that go to size class `b`.
pub open spec fn bucket_bytes(secs: Seq<Section>, b: Bucket) -> nat
    decreases secs.len(),
{
    if secs.len() == 0 {
        0
    } else {
        bucket_bytes(secs.drop_last(), b) + if secs.last().bucket() == Some(b) {
            secs.last().spec_size()
        } else {
            0
        }
    }
}

/// The names of the custom sections of `secs`, in order, repeats kept.
pub open spec fn custom_names(secs: Seq<Section>) -> Seq<String>
    decreases secs.len(),
{
    if secs.len() == 0 {
        Seq::empty()
    } else {
        match secs.last() {
            Section::Custom { name, .. } => custom_names(secs.drop_last()).push(name),
            _ => custom_names(secs.drop_last()),
        }
    }
}

pub open spec fn has_start(secs: Seq<Section>) -> bool
    decreases secs.len(),
{
    secs.len() > 0 && (secs.last() is Start || has_start(secs.drop_last()))
}

/// The instructions of all code sections of `secs`, in order.
pub open spec fn code_ops(secs: Seq<Section>) -> Seq<Opcode>
    decreases secs.len(),
{
    if secs.len() == 0 {
        Seq::empty()
    } else {
        code_ops(secs.drop_last()) + match secs.last() {
            Section::Code { bodies, .. } => flat(bodies@),
            _ => Seq::empty(),
        }
    }
}

pub open spec fn multi_value_count(types: Seq<FuncType>) -> nat
    decreases types.len(),
{
    if types.len() == 0 {
        0
    } else {
        multi_value_count(types.drop_last()) + if types.last().results@.len() > 1 {
            1nat
        } else {
            0nat
        }
    }
}

pub open spec fn shared_count(shared: Seq<bool>) -> nat
    decreases shared.len(),
{
    if shared.len() == 0 {
        0
    } else {
        shared_count(shared.drop_last()) + if shared.last() {
            1nat
        } else {
            0nat
        }
    }
}

/// What a section itself adds to proposal `p`: function types with several
/// results to multi-value, shared memories to atomics, a data-count section to
/// bulk memory.
pub open spec fn section_proposal(sec: Section, p: Proposal) -> nat {
    match sec {
        Section::Type { types, .. } => if p == Proposal::MultiValue {
            multi_value_count(types@)
        } else {
            0
        },
        Section::Memory { shared, .. } => if p == Proposal::Atomics {
            shared_count(shared@)
        } else {
            0
        },
        Section::DataCount => if p == Proposal::Bulk {
            1
        } else {
            0
        },
        _ => 0,
    }
}

pub open spec fn section_proposals(secs: Seq<Section>, p: Proposal) -> nat
    decreases secs.len(),
{
    if secs.len() == 0 {
        0
    } else {
        section_proposals(secs.drop_last(), p) + section_proposal(secs.last(), p)
    }
}

/// `t` with the entry at `idx` marked external, where `idx` is in range.
pub open spec fn mark<T>(t: Seq<MaybeExternal<T>>, idx: u32) -> Seq<MaybeExternal<T>> {
    if idx < t.len() {
        t.update(idx as int, MaybeExternal { value: t[idx as int].value, is_external: true })
    } else {
        t
    }
}

/// The function index space after the exports `es` are marked.
pub open spec fn mark_funcs(t: Seq<MaybeExternal<u32>>, es: Seq<Export>) -> Seq<MaybeExternal<u32>>
    decreases es.len(),
{
    if es.len() == 0 {
        t
    } else {
        let m = mark_funcs(t, es.drop_last());
        match es.last().desc {
            ExportDesc::Func(idx) => mark(m, idx),
            _ => m,
        }
    }
}

/// The global index space after the exports `es` are marked.
pub open spec fn mark_globals(t: Seq<MaybeExternal<GlobalType>>, es: Seq<Export>) -> Seq<
    MaybeExternal<GlobalType>,
>
    decreases es.len(),
{
    if es.len() == 0 {
        t
    } else {
        let m = mark_globals(t, es.drop_last());
        match es.last().desc {
            ExportDesc::Global(idx) => mark(m, idx),
            _ => m,
        }
    }
}

/// The function index space of `secs`: imported functions (external), then
/// declared ones, each with its type index; exports mark their entry.
pub open spec fn func_table(secs: Seq<Section>) -> Seq<MaybeExternal<u32>>
    decreases secs.len(),
{
    if secs.len() == 0 {
        Seq::empty()
    } else {
        let t = func_table(secs.drop_last());
        match secs.last() {
            Section::Import { imports, .. } => t + imported_funcs(imports@),
            Section::Function { type_ids, .. } => t + type_ids@.map_values(
                |id: u32| MaybeExternal { value: id, is_external: false },
            ),
            Section::Export { exports, .. } => mark_funcs(t, exports@),
            _ => t,
        }
    }
}

/// The global index space of `secs`, built in the same way.
pub open spec fn global_table(secs: Seq<Section>) -> Seq<MaybeExternal<GlobalType>>
    decreases secs.len(),
{
    if secs.len() == 0 {
        Seq::empty()
    } else {
        let t = global_table(secs.drop_last());
        match secs.last() {
            Section::Import { imports, .. } => t + imported_globals(imports@),
            Section::Global { globals, .. } => t + globals@.map_values(
                |g: GlobalType| MaybeExternal { value: g, is_external: false },
            ),
            Section::Export { exports, .. } => mark_globals(t, exports@),
            _ => t,
        }
    }
}

pub open spec fn imported_funcs(imports: Seq<Import>) -> Seq<MaybeExternal<u32>>
    decreases imports.len(),
{
    if imports.len() == 0 {
        Seq::empty()
    } else {
        imported_funcs(imports.drop_last()) + match imports.last().desc {
            ImportDesc::Func(id) => seq![MaybeExternal { value: id, is_external: true }],
            _ => Seq::empty(),
        }
    }
}

pub open spec fn imported_globals(imports: Seq<Import>) -> Seq<MaybeExternal<GlobalType>>
    decreases imports.len(),
{
    if imports.len() == 0 {
        Seq::empty()
    } else {
        imported_globals(imports.drop_last()) + match imports.last().desc {
            ImportDesc::Global(g) => seq![MaybeExternal { value: g, is_external: true }],
            _ => Seq::empty(),
        }
    }
}

/// Whether every function and global export of `secs` points inside the
/// index space built before its section.
pub open spec fn exports_in_bounds(secs: Seq<Section>) -> bool
    decreases secs.len(),
{
    secs.len() == 0 || (exports_in_bounds(secs.drop_last()) && match secs.last() {
        Section::Export { exports, .. } => forall|k: int|
            0 <= k < exports@.len() ==> match #[trigger] exports@[k].desc {
                ExportDesc::Func(idx) => idx < func_table(secs.drop_last()).len(),
                ExportDesc::Global(idx) => idx < global_table(secs.drop_last()).len(),
                _ => true,
            },
        _ => true,
    })
}

/// Whether every external function's type index names a type of `types`.
pub open spec fn types_in_bounds(t: Seq<MaybeExternal<u32>>, types: Seq<FuncType>) -> bool {
    forall|j: int| 0 <= j < t.len() && #[trigger] t[j].is_external ==> t[j].value < types.len()
}

pub open spec fn has_i64(ty: FuncType) -> bool {
    (exists|k: int| 0 <= k < ty.params@.len() && ty.params@[k] == ValueType::I64) || (exists|
        k: int,
    |
        0 <= k < ty.results@.len() && ty.results@[k] == ValueType::I64)
}

/// How many external globals of `t` are mutable.
pub open spec fn mutable_count(t: Seq<MaybeExternal<GlobalType>>) -> nat
    decreases t.len(),
{
    if t.len() == 0 {
        0
    } else {
        mutable_count(t.drop_last()) + if t.last().is_external && t.last().value.mutable {
            1nat
        } else {
            0nat
        }
    }
}

/// How many external globals of `t` hold a 64-bit integer.
pub open spec fn bigint_global_count(t: Seq<MaybeExternal<GlobalType>>) -> nat
    decreases t.len(),
{
    if t.len() == 0 {
        0
    } else {
        bigint_global_count(t.drop_last()) + if t.last().is_external && t.last().value.value_type
            == ValueType::I64 {
            1nat
        } else {
            0nat
        }
    }
}

/// How many external functions of `t` take or return a 64-bit integer.
pub open spec fn bigint_func_count(t: Seq<MaybeExternal<u32>>, types: Seq<FuncType>) -> nat
    decreases t.len(),
{
    if t.len() == 0 {
        0
    } else {
        bigint_func_count(t.drop_last(), types) + if t.last().is_external && has_i64(
            types[t.last().value as int],
        ) {
            1nat
        } else {
            0nat
        }
    }
}

/// What the audit of external entities adds to proposal counter `p`.
pub open spec fn audit_count(secs: Seq<Section>, p: Proposal) -> nat {
    if p == Proposal::MutableExternals {
        mutable_count(global_table(secs))
    } else if p == Proposal::BigintExternals {
        bigint_global_count(global_table(secs)) + bigint_func_count(
            func_table(secs),
            last_types(secs),
        )
    } else {
        0
    }
}

/// Whether `m` can be profiled: its exports and external function types
/// resolve.
pub open spec fn resolvable(m: Module) -> bool {
    exports_in_bounds(m.sections@) && types_in_bounds(
        func_table(m.sections@),
        last_types(m.sections@),
    )
}

/// The profile of `m`, field by field.
pub open spec fn profile_of(m: Module, st: Stats) -> bool {
    let secs = m.sections@;
    let ops = code_ops(secs);
    &&& st.funcs == last_code_funcs(secs)
    &&& st.language == language_of(import_paths(secs), export_names(secs))
    &&& st.instr.total == ops.len()
    &&& forall|c: Category| #[trigger] st.instr.categories.get(c) == category_count(ops, c)
    &&& forall|p: Proposal| #[trigger] st.instr.proposals.get(p) == proposal_count(ops, p)
        + section_proposals(secs, p) + audit_count(secs, p)
    &&& st.size.code == last_code_size(secs)
    &&& forall|b: Bucket| b != Bucket::Code ==> #[trigger] st.size.get(b) == bucket_bytes(secs, b)
    &&& st.size.total == m.total_size
    &&& forall|k: ExternalKind| #[trigger] st.imports.get(k) == import_count(last_imports(secs), k)
    &&& forall|k: ExternalKind| #[trigger] st.exports.get(k) == export_count(last_exports(secs), k)
    &&& st.custom_sections@ == custom_names(secs)
    &&& st.has_start == has_start(secs)
}

proof fn lemma_import_count_le(imports: Seq<Import>, k: ExternalKind)
    ensures
        import_count(imports, k) <= imports.len(),
    decreases imports.len(),
{
    if imports.len() > 0 {
        lemma_import_count_le(imports.drop_last(), k);
    }
}

proof fn lemma_export_count_le(exports: Seq<Export>, k: ExternalKind)
    ensures
        export_count(exports, k) <= exports.len(),
    decreases exports.len(),
{
    if exports.len() > 0 {
        lemma_export_count_le(exports.drop_last(), k);
    }
}

fn import_kind_of(d: &ImportDesc) -> (r: Option<ExternalKind>)
    ensures
        r == import_kind(*d),
{
    match d {
        ImportDesc::Func(_) => Some(ExternalKind::Func),
        ImportDesc::Table => Some(ExternalKind::Table),
        ImportDesc::Mem => Some(ExternalKind::Memory),
        ImportDesc::Global(_) => Some(ExternalKind::Global),
        ImportDesc::Tag => None,
    }
}

fn export_kind_of(d: &ExportDesc) -> (r: Option<ExternalKind>)
    ensures
        r == export_kind(*d),
{
    match d {
        ExportDesc::Func(_) => Some(ExternalKind::Func),
        ExportDesc::Table(_) => Some(ExternalKind::Table),
        ExportDesc::Mem(_) => Some(ExternalKind::Memory),
        ExportDesc::Global(_) => Some(ExternalKind::Global),
        ExportDesc::Tag(_) => None,
    }
}

fn import_stats(imports: &Vec<Import>) -> (r: ExternalStats)
    ensures
        forall|k: ExternalKind| #[trigger] r.get(k) == import_count(imports@, k),
{
    let mut r = ExternalStats { funcs: 0, memories: 0, globals: 0, tables: 0 };
    let mut i: usize = 0;
    while i < imports.len()
        invariant
            i <= imports@.len(),
            forall|k: ExternalKind| #[trigger] r.get(k) == import_count(
                imports@.subrange(0, i as int),
                k,
            ),
        decreases imports@.len() - i,
    {
        proof {
            let q = imports@.subrange(0, i + 1);
            assert(q.drop_last() =~= imports@.subrange(0, i as int));
            if let Some(kd) = import_kind(imports@[i as int].desc) {
                lemma_import_count_le(imports@.subrange(0, i as int), kd);
            }
        }
        if let Some(kd) = import_kind_of(&imports[i].desc) {
            r.bump(kd);
        }
        proof {
            assert forall|k: ExternalKind| #[trigger] r.get(k) == import_count(
                imports@.subrange(0, i + 1),
                k,
            ) by {
                assert(imports@.subrange(0, i + 1).last() == imports@[i as int]);
            }
        }
        i = i + 1;
    }
    assert(imports@.subrange(0, i as int) =~= imports@);
    r
}

fn export_stats(exports: &Vec<Export>) -> (r: ExternalStats)
    ensures
        forall|k: ExternalKind| #[trigger] r.get(k) == export_count(exports@, k),
{
    let mut r = ExternalStats { funcs: 0, memories: 0, globals: 0, tables: 0 };
    let mut i: usize = 0;
    while i < exports.len()
        invariant
            i <= exports@.len(),
            forall|k: ExternalKind| #[trigger] r.get(k) == export_count(
                exports@.subrange(0, i as int),
                k,
            ),
        decreases exports@.len() - i,
    {
        proof {
            let q = exports@.subrange(0, i + 1);
            assert(q.drop_last() =~= exports@.subrange(0, i as int));
            if let Some(kd) = export_kind(exports@[i as int].desc) {
                lemma_export_count_le(exports@.subrange(0, i as int), kd);
            }
        }
        if let Some(kd) = export_kind_of(&exports[i].desc) {
            r.bump(kd);
        }
        proof {
            assert forall|k: ExternalKind| #[trigger] r.get(k) == export_count(
                exports@.subrange(0, i + 1),
                k,
            ) by {
                assert(exports@.subrange(0, i + 1).last() == exports@[i as int]);
            }
        }
        i = i + 1;
    }
    assert(exports@.subrange(0, i as int) =~= exports@);
    r
}

proof fn lemma_imported_len(imports: Seq<Import>)
    ensures
        imported_funcs(imports).len() + imported_globals(imports).len() <= imports.len(),
    decreases imports.len(),
{
    if imports.len() > 0 {
        lemma_imported_len(imports.drop_last());
    }
}

/// Appends the imported functions and globals to their index spaces, marked external.
fn push_imports(
    funcs: &mut Vec<MaybeExternal<u32>>,
    globals: &mut Vec<MaybeExternal<GlobalType>>,
    imports: &Vec<Import>,
)
    ensures
        final(funcs)@ == old(funcs)@ + imported_funcs(imports@),
        final(globals)@ == old(globals)@ + imported_globals(imports@),
{
    let mut i: usize = 0;
    while i < imports.len()
        invariant
            i <= imports@.len(),
            funcs@ == old(funcs)@ + imported_funcs(imports@.subrange(0, i as int)),
            globals@ == old(globals)@ + imported_globals(imports@.subrange(0, i as int)),
        decreases imports@.len() - i,
    {
        proof {
            assert(imports@.subrange(0, i + 1).drop_last() =~= imports@.subrange(0, i as int));
        }
        match imports[i].desc {
            ImportDesc::Func(id) => {
                funcs.push(MaybeExternal { value: id, is_external: true });
            },
            ImportDesc::Global(g) => {
                globals.push(MaybeExternal { value: g, is_external: true });
            },
            _ => {},
        }
        i = i + 1;
        assert(funcs@ =~= old(funcs)@ + imported_funcs(imports@.subrange(0, i as int)));
        assert(globals@ =~= old(globals)@ + imported_globals(imports@.subrange(0, i as int)));
    }
    assert(imports@.subrange(0, i as int) =~= imports@);
}

proof fn lemma_mark_len(ft: Seq<MaybeExternal<u32>>, gt: Seq<MaybeExternal<GlobalType>>, es: Seq<Export>)
    ensures
        mark_funcs(ft, es).len() == ft.len(),
        mark_globals(gt, es).len() == gt.len(),
    decreases es.len(),
{
    if es.len() > 0 {
        lemma_mark_len(ft, gt, es.drop_last());
    }
}

/// Whether each function and global export of `es` lies inside tables of
/// `nf` functions and `ng` globals.
pub open spec fn exports_fit(es: Seq<Export>, nf: nat, ng: nat) -> bool {
    forall|k: int|
        0 <= k < es.len() ==> match #[trigger] es[k].desc {
            ExportDesc::Func(idx) => idx < nf,
            ExportDesc::Global(idx) => idx < ng,
            _ => true,
        }
}

/// Marks the exported functions and globals external; false where an export
/// points past the end of its index space.
fn mark_exports(
    funcs: &mut Vec<MaybeExternal<u32>>,
    globals: &mut Vec<MaybeExternal<GlobalType>>,
    exports: &Vec<Export>,
) -> (ok: bool)
    ensures
        ok == exports_fit(exports@, old(funcs)@.len(), old(globals)@.len()),
        ok ==> final(funcs)@ == mark_funcs(old(funcs)@, exports@),
        ok ==> final(globals)@ == mark_globals(old(globals)@, exports@),
{
    let mut i: usize = 0;
    while i < exports.len()
        invariant
            i <= exports@.len(),
            funcs@ == mark_funcs(old(funcs)@, exports@.subrange(0, i as int)),
            globals@ == mark_globals(old(globals)@, exports@.subrange(0, i as int)),
            funcs@.len() == old(funcs)@.len(),
            globals@.len() == old(globals)@.len(),
            exports_fit(exports@.subrange(0, i as int), old(funcs)@.len(), old(globals)@.len()),
        decreases exports@.len() - i,
    {
        proof {
            assert(exports@.subrange(0, i + 1).drop_last() =~= exports@.subrange(0, i as int));
        }
        match exports[i].desc {
            ExportDesc::Func(idx) => {
                if idx as usize >= funcs.len() {
                    assert(!exports_fit(exports@, old(funcs)@.len(), old(globals)@.len()));
                    return false;
                }
                let v = funcs[idx as usize].value;
                funcs.set(idx as usize, MaybeExternal { value: v, is_external: true });
            },
            ExportDesc::Global(idx) => {
                if idx as usize >= globals.len() {
                    assert(!exports_fit(exports@, old(funcs)@.len(), old(globals)@.len()));
                    return false;
                }
                let v = globals[idx as usize].value;
                globals.set(idx as usize, MaybeExternal { value: v, is_external: true });
            },
            _ => {},
        }
        i = i + 1;
        proof {
            let q = exports@.subrange(0, i as int);
            assert forall|k: int| 0 <= k < q.len() implies match #[trigger] q[k].desc {
                ExportDesc::Func(idx) => idx < old(funcs)@.len(),
                ExportDesc::Global(idx) => idx < old(globals)@.len(),
                _ => true,
            } by {
                if k < i - 1 {
                    assert(q[k] == exports@.subrange(0, i - 1)[k]);
                }
            }
            assert(funcs@ =~= mark_funcs(old(funcs)@, q));
            assert(globals@ =~= mark_globals(old(globals)@, q));
        }
    }
    assert(exports@.subrange(0, i as int) =~= exports@);
    true
}

fn count_multi_value(types: &Vec<FuncType>) -> (r: usize)
    ensures
        r == multi_value_count(types@),
{
    let mut r: usize = 0;
    let mut i: usize = 0;
    while i < types.len()
        invariant
            i <= types@.len(),
            r == multi_value_count(types@.subrange(0, i as int)),
            r <= i,
        decreases types@.len() - i,
    {
        proof {
            assert(types@.subrange(0, i + 1).drop_last() =~= types@.subrange(0, i as int));
        }
        if types[i].results.len() > 1 {
            r = r + 1;
        }
        i = i + 1;
    }
    assert(types@.subrange(0, i as int) =~= types@);
    r
}

fn count_shared(shared: &Vec<bool>) -> (r: usize)
    ensures
        r == shared_count(shared@),
{
    let mut r: usize = 0;
    let mut i: usize = 0;
    while i < shared.len()
        invariant
            i <= shared@.len(),
            r == shared_count(shared@.subrange(0, i as int)),
            r <= i,
        decreases shared@.len() - i,
    {
        proof {
            assert(shared@.subrange(0, i + 1).drop_last() =~= shared@.subrange(0, i as int));
        }
        if shared[i] {
            r = r + 1;
        }
        i = i + 1;
    }
    assert(shared@.subrange(0, i as int) =~= shared@);
    r
}

fn sig_has_i64(ty: &FuncType) -> (r: bool)
    ensures
        r == has_i64(*ty),
{
    let mut i: usize = 0;
    while i < ty.params.len()
        invariant
            i <= ty.params@.len(),
            forall|k: int| 0 <= k < i ==> ty.params@[k] != ValueType::I64,
        decreases ty.params@.len() - i,
    {
        if ty.params[i] == ValueType::I64 {
            return true;
        }
        i = i + 1;
    }
    let mut j: usize = 0;
    while j < ty.results.len()
        invariant
            j <= ty.results@.len(),
            forall|k: int| 0 <= k < ty.params@.len() ==> ty.params@[k] != ValueType::I64,
            forall|k: int| 0 <= k < j ==> ty.results@[k] != ValueType::I64,
        decreases ty.results@.len() - j,
    {
        if ty.results[j] == ValueType::I64 {
            return true;
        }
        j = j + 1;
    }
    false
}

proof fn lemma_bytes_bound(secs: Seq<Section>)
    ensures
        forall|b: Bucket| #[trigger] bucket_bytes(secs, b) <= total_bytes(secs),
        last_code_size(secs) <= total_bytes(secs),
    decreases secs.len(),
{
    if secs.len() > 0 {
        lemma_bytes_bound(secs.drop_last());
        assert forall|b: Bucket| #[trigger] bucket_bytes(secs, b) <= total_bytes(secs) by {
            assert(bucket_bytes(secs.drop_last(), b) <= total_bytes(secs.drop_last()));
        }
    }
}

proof fn lemma_multi_value_le(types: Seq<FuncType>)
    ensures
        multi_value_count(types) <= types.len(),
    decreases types.len(),
{
    if types.len() > 0 {
        lemma_multi_value_le(types.drop_last());
    }
}

proof fn lemma_shared_le(shared: Seq<bool>)
    ensures
        shared_count(shared) <= shared.len(),
    decreases shared.len(),
{
    if shared.len() > 0 {
        lemma_shared_le(shared.drop_last());
    }
}

proof fn lemma_items_bound(secs: Seq<Section>, q: Proposal)
    ensures
        proposal_count(code_ops(secs), q) + section_proposals(secs, q) <= total_items(secs),
        code_ops(secs).len() <= total_items(secs),
        func_table(secs).len() + global_table(secs).len() <= total_items(secs),
    decreases secs.len(),
{
    if secs.len() > 0 {
        let d = secs.drop_last();
        lemma_items_bound(d, q);
        let x = match secs.last() {
            Section::Code { bodies, .. } => flat(bodies@),
            _ => Seq::empty(),
        };
        lemma_counts_concat(code_ops(d), x);
        lemma_proposal_count_le_len(x, q);
        match secs.last() {
            Section::Type { types, .. } => lemma_multi_value_le(types@),
            Section::Memory { shared, .. } => lemma_shared_le(shared@),
            Section::Import { imports, .. } => lemma_imported_len(imports@),
            Section::Export { exports, .. } => lemma_mark_len(func_table(d), global_table(d), exports@),
            _ => {},
        }
    }
}

proof fn lemma_no_audit_counts(ops: Seq<Opcode>, secs: Seq<Section>)
    ensures
        proposal_count(ops, Proposal::MutableExternals) == 0,
        proposal_count(ops, Proposal::BigintExternals) == 0,
        section_proposals(secs, Proposal::MutableExternals) == 0,
        section_proposals(secs, Proposal::BigintExternals) == 0,
    decreases ops.len() + secs.len(),
{
    if ops.len() > 0 {
        lemma_no_audit_counts(ops.drop_last(), secs);
    } else if secs.len() > 0 {
        lemma_no_audit_counts(ops, secs.drop_last());
    }
}

/// Appends the declared functions to the function index space.
fn push_declared_funcs(funcs: &mut Vec<MaybeExternal<u32>>, type_ids: &Vec<u32>)
    ensures
        final(funcs)@ == old(funcs)@ + type_ids@.map_values(
            |id: u32| MaybeExternal { value: id, is_external: false },
        ),
{
    let mut i: usize = 0;
    while i < type_ids.len()
        invariant
            i <= type_ids@.len(),
            funcs@ == old(funcs)@ + type_ids@.subrange(0, i as int).map_values(
                |id: u32| MaybeExternal { value: id, is_external: false },
            ),
        decreases type_ids@.len() - i,
    {
        funcs.push(MaybeExternal { value: type_ids[i], is_external: false });
        i = i + 1;
        assert(funcs@ =~= old(funcs)@ + type_ids@.subrange(0, i as int).map_values(
            |id: u32| MaybeExternal { value: id, is_external: false },
        ));
    }
    assert(type_ids@.subrange(0, i as int) =~= type_ids@);
}

/// Appends the declared globals to the global index space.
fn push_declared_globals(globals: &mut Vec<MaybeExternal<GlobalType>>, decl: &Vec<GlobalType>)
    ensures
        final(globals)@ == old(globals)@ + decl@.map_values(
            |g: GlobalType| MaybeExternal { value: g, is_external: false },
        ),
{
    let mut i: usize = 0;
    while i < decl.len()
        invariant
            i <= decl@.len(),
            globals@ == old(globals)@ + decl@.subrange(0, i as int).map_values(
                |g: GlobalType| MaybeExternal { value: g, is_external: false },
            ),
        decreases decl@.len() - i,
    {
        globals.push(MaybeExternal { value: decl[i], is_external: false });
        i = i + 1;
        assert(globals@ =~= old(globals)@ + decl@.subrange(0, i as int).map_values(
            |g: GlobalType| MaybeExternal { value: g, is_external: false },
        ));
    }
    assert(decl@.subrange(0, i as int) =~= decl@);
}

/// The state of the single pass over the sections.
struct Walk {
    stats: Stats,
    funcs: Vec<MaybeExternal<u32>>,
    globals: Vec<MaybeExternal<GlobalType>>,
    /// The position of the last type section met so far.
    types_at: Option<usize>,
}

/// `w` holds what the first `s` sections of `m` contribute.
spec fn walked(w: Walk, m: Module, s: int) -> bool {
    let secs = m.sections@;
    let p = secs.subrange(0, s);
    let st = w.stats;
    let ops = code_ops(p);
    &&& 0 <= s <= secs.len()
    &&& st.funcs == last_code_funcs(p)
    &&& st.language == language_of(import_paths(secs), export_names(secs))
    &&& st.instr.total == ops.len()
    &&& forall|c: Category| #[trigger] st.instr.categories.get(c) == category_count(ops, c)
    &&& forall|q: Proposal| #[trigger] st.instr.proposals.get(q) == proposal_count(ops, q)
        + section_proposals(p, q)
    &&& st.size.code == last_code_size(p)
    &&& forall|b: Bucket| b != Bucket::Code ==> #[trigger] st.size.get(b) == bucket_bytes(p, b)
    &&& st.size.total == m.total_size
    &&& forall|k: ExternalKind| #[trigger] st.imports.get(k) == import_count(last_imports(p), k)
    &&& forall|k: ExternalKind| #[trigger] st.exports.get(k) == export_count(last_exports(p), k)
    &&& st.custom_sections@ == custom_names(p)
    &&& st.has_start == has_start(p)
    &&& w.funcs@ == func_table(p)
    &&& w.globals@ == global_table(p)
    &&& exports_in_bounds(p)
    &&& match w.types_at {
        Some(t) => t < s && match secs[t as int] {
            Section::Type { types, .. } => last_types(p) == types@,
            _ => false,
        },
        None => last_types(p) == Seq::<FuncType>::empty(),
    }
}

/// Takes the section at position `s` into the walk; false where one of its
/// exports points past the end of its index space.
#[verifier::rlimit(50)]
fn step(w: &mut Walk, m: &Module, s: usize) -> (ok: bool)
    requires
        walked(*old(w), *m, s as int),
        s < m.sections@.len(),
        m.wf(),
    ensures
        ok ==> walked(*final(w), *m, s + 1),
        !ok ==> !exports_in_bounds(m.sections@.subrange(0, s + 1)),
{
    let ghost secs = m.sections@;
    let ghost p = secs.subrange(0, s as int);
    let ghost p1 = secs.subrange(0, s + 1);
    proof {
        assert(p1.drop_last() =~= p);
        assert(p1.last() == secs[s as int]);
        lemma_totals_grow(secs, s + 1);
        lemma_bytes_bound(p1);
        lemma_items_bound(p1, Proposal::Atomics);
        lemma_items_bound(p1, Proposal::MultiValue);
        lemma_items_bound(p1, Proposal::Bulk);
        assert(bucket_bytes(p1, Bucket::Custom) <= total_bytes(p1));
        assert(bucket_bytes(p1, Bucket::Types) <= total_bytes(p1));
        assert(bucket_bytes(p1, Bucket::Externals) <= total_bytes(p1));
        assert(bucket_bytes(p1, Bucket::Descriptors) <= total_bytes(p1));
        assert(bucket_bytes(p1, Bucket::Init) <= total_bytes(p1));
        assert(old(w).stats.size.get(Bucket::Custom) == bucket_bytes(p, Bucket::Custom));
        assert(old(w).stats.size.get(Bucket::Types) == bucket_bytes(p, Bucket::Types));
        assert(old(w).stats.size.get(Bucket::Externals) == bucket_bytes(p, Bucket::Externals));
        assert(old(w).stats.size.get(Bucket::Descriptors) == bucket_bytes(p, Bucket::Descriptors));
        assert(old(w).stats.size.get(Bucket::Init) == bucket_bytes(p, Bucket::Init));
    }
    match &m.sections[s] {
        Section::Custom { size, name } => {
            w.stats.size.custom = w.stats.size.custom + *size;
            w.stats.custom_sections.push(name.clone());
        },
        Section::Type { size, types } => {
            w.stats.size.types = w.stats.size.types + *size;
            let n = count_multi_value(types);
            w.stats.instr.proposals.add(Proposal::MultiValue, n);
            w.types_at = Some(s);
        },
        Section::Import { size, imports } => {
            w.stats.size.externals = w.stats.size.externals + *size;
            w.stats.imports = import_stats(imports);
            push_imports(&mut w.funcs, &mut w.globals, imports);
        },
        Section::Function { size, type_ids } => {
            w.stats.size.descriptors = w.stats.size.descriptors + *size;
            push_declared_funcs(&mut w.funcs, type_ids);
        },
        Section::Table { size } => {
            w.stats.size.descriptors = w.stats.size.descriptors + *size;
        },
        Section::Memory { size, shared } => {
            w.stats.size.descriptors = w.stats.size.descriptors + *size;
            let n = count_shared(shared);
            w.stats.instr.proposals.add(Proposal::Atomics, n);
        },
        Section::Global { size, globals } => {
            w.stats.size.descriptors = w.stats.size.descriptors + *size;
            push_declared_globals(&mut w.globals, globals);
        },
        Section::Export { size, exports } => {
            w.stats.size.externals = w.stats.size.externals + *size;
            w.stats.exports = export_stats(exports);
            if !mark_exports(&mut w.funcs, &mut w.globals, exports) {
                return false;
            }
        },
        Section::Start => {
            w.stats.has_start = true;
        },
        Section::Element { size } => {
            w.stats.size.init = w.stats.size.init + *size;
        },
        Section::Data { size } => {
            w.stats.size.init = w.stats.size.init + *size;
        },
        Section::DataCount => {
            w.stats.instr.proposals.add(Proposal::Bulk, 1);
        },
        Section::Code { size, bodies } => {
            proof {
                lemma_counts_concat(code_ops(p), flat(bodies@));
                assert forall|c: Category| #[trigger] w.stats.instr.categories.get(c)
                    + category_count(flat(bodies@), c) <= usize::MAX by {
                    lemma_category_count_le_len(code_ops(p1), c);
                }
                assert forall|q: Proposal| #[trigger] w.stats.instr.proposals.get(q)
                    + proposal_count(flat(bodies@), q) <= usize::MAX by {
                    lemma_items_bound(p1, q);
                }
            }
            w.stats.size.code = *size;
            w.stats.funcs = bodies.len();
            let code = get_instruction_stats(bodies);
            w.stats.instr.absorb(&code);
        },
        Section::Other => {},
    }
    true
}

/// Profiles a decoded module in one pass over its sections: instruction mix,
/// proposal usage, sizes by section class, import and export counts, custom
/// section names, and the guessed toolchain. Fails where an export, or the
/// type of an external function, refers past the end of its index space.
pub fn get_stats(module: &Module) -> (r: Result<Stats, StatsError>)
    requires
        module.wf(),
    ensures
        r is Ok <==> resolvable(*module),
        r matches Ok(st) ==> profile_of(*module, st),
        r matches Err(e) ==> e == StatsError::IndexOutOfBounds,
{
    let ghost secs = module.sections@;
    let mut w = Walk {
        stats: Stats {
            funcs: 0,
            language: infer_language(module),
            instr: InstructionStats {
                total: 0,
                proposals: ProposalStats::new(),
                categories: InstructionCategoryStats::new(),
            },
            size: SizeStats {
                code: 0,
                init: 0,
                externals: 0,
                types: 0,
                custom: 0,
                descriptors: 0,
                total: module.total_size,
            },
            imports: ExternalStats { funcs: 0, memories: 0, globals: 0, tables: 0 },
            exports: ExternalStats { funcs: 0, memories: 0, globals: 0, tables: 0 },
            custom_sections: Vec::new(),
            has_start: false,
        },
        funcs: Vec::new(),
        globals: Vec::new(),
        types_at: None,
    };
    proof {
        assert(secs.subrange(0, 0) =~= Seq::<Section>::empty());
        assert(w.stats.custom_sections@ =~= custom_names(secs.subrange(0, 0)));
        assert(w.funcs@ =~= func_table(secs.subrange(0, 0)));
        assert(w.globals@ =~= global_table(secs.subrange(0, 0)));
    }
    let mut s: usize = 0;
    while s < module.sections.len()
        invariant
            walked(w, *module, s as int),
            module.wf(),
            secs == module.sections@,
        decreases module.sections@.len() - s,
    {
        if !step(&mut w, module, s) {
            proof {
                lemma_bounds_kept(secs, s + 1);
            }
            return Err(StatsError::IndexOutOfBounds);
        }
        s = s + 1;
    }
    proof {
        assert(secs.subrange(0, s as int) =~= secs);
    }
    audit(w, module)
}

/// A failed bounds check on the first `i` sections fails on all of them.
proof fn lemma_bounds_kept(secs: Seq<Section>, i: int)
    requires
        0 <= i <= secs.len(),
        !exports_in_bounds(secs.subrange(0, i)),
    ensures
        !exports_in_bounds(secs),
    decreases secs.len(),
{
    if i < secs.len() {
        assert(secs.drop_last().subrange(0, i) =~= secs.subrange(0, i));
        lemma_bounds_kept(secs.drop_last(), i);
    } else {
        assert(secs.subrange(0, i) =~= secs);
    }
}

/// Counts the external globals that are mutable or 64-bit, and the external
/// functions whose signature has a 64-bit integer, once the walk is done.
fn audit(w: Walk, module: &Module) -> (r: Result<Stats, StatsError>)
    requires
        walked(w, *module, module.sections@.len() as int),
        module.wf(),
    ensures
        r is Ok <==> resolvable(*module),
        r matches Ok(st) ==> profile_of(*module, st),
        r matches Err(e) ==> e == StatsError::IndexOutOfBounds,
{
    let ghost secs = module.sections@;
    proof {
        assert(secs.subrange(0, secs.len() as int) =~= secs);
        lemma_items_bound(secs, Proposal::Atomics);
        lemma_totals_grow(secs, secs.len() as int);
    }
    let Walk { mut stats, funcs, globals, types_at } = w;
    let mut mutable: usize = 0;
    let mut bigint: usize = 0;
    let mut j: usize = 0;
    while j < globals.len()
        invariant
            j <= globals@.len(),
            mutable == mutable_count(globals@.subrange(0, j as int)),
            bigint == bigint_global_count(globals@.subrange(0, j as int)),
            mutable <= j,
            bigint <= j,
        decreases globals@.len() - j,
    {
        proof {
            assert(globals@.subrange(0, j + 1).drop_last() =~= globals@.subrange(0, j as int));
        }
        match globals[j].external() {
            Some(g) => {
                if g.mutable {
                    mutable = mutable + 1;
                }
                if g.value_type == ValueType::I64 {
                    bigint = bigint + 1;
                }
            },
            None => {},
        }
        j = j + 1;
    }
    proof {
        assert(globals@.subrange(0, j as int) =~= globals@);
    }
    let empty: Vec<FuncType> = Vec::new();
    let types: &Vec<FuncType> = match types_at {
        Some(t) => match &module.sections[t] {
            Section::Type { types, .. } => types,
            _ => &empty,
        },
        None => &empty,
    };
    assert(types@ == last_types(secs));
    let mut k: usize = 0;
    let mut bigint_funcs: usize = 0;
    while k < funcs.len()
        invariant
            k <= funcs@.len(),
            secs == module.sections@,
            types@ == last_types(secs),
            funcs@ == func_table(secs),
            bigint_funcs == bigint_func_count(funcs@.subrange(0, k as int), types@),
            bigint_funcs <= k,
            forall|i: int|
                0 <= i < k && #[trigger] funcs@[i].is_external ==> funcs@[i].value < types@.len(),
        decreases funcs@.len() - k,
    {
        proof {
            assert(funcs@.subrange(0, k + 1).drop_last() =~= funcs@.subrange(0, k as int));
        }
        match funcs[k].external() {
            Some(type_id) => {
                if type_id as usize >= types.len() {
                    assert(funcs@[k as int].is_external && funcs@[k as int].value >= types@.len());
                    assert(!types_in_bounds(func_table(secs), last_types(secs)));
                    return Err(StatsError::IndexOutOfBounds);
                }
                if sig_has_i64(&types[type_id as usize]) {
                    bigint_funcs = bigint_funcs + 1;
                }
            },
            None => {},
        }
        k = k + 1;
    }
    proof {
        assert(funcs@.subrange(0, k as int) =~= funcs@);
        lemma_no_audit_counts(code_ops(secs), secs);
    }
    stats.instr.proposals.mutable_externals = mutable;
    stats.instr.proposals.bigint_externals = bigint + bigint_funcs;
    proof {
        assert forall|q: Proposal| #[trigger] stats.instr.proposals.get(q) == proposal_count(
            code_ops(secs),
            q,
        ) + section_proposals(secs, q) + audit_count(secs, q) by {
            assert(w.stats.instr.proposals.get(q) == proposal_count(code_ops(secs), q)
                + section_proposals(secs, q));
        }
    }
    Ok(stats)
}

/// Whether no instruction of `secs` is a tail call.
pub open spec fn no_tail_calls(secs: Seq<Section>) -> bool {
    forall|i: int| 0 <= i < code_ops(secs).len() ==> !is_tail_call(#[trigger] code_ops(secs)[i])
}

/// The instruction total is the sum of the eleven category counters, each
/// instruction counting once, where the code holds no tail call (a tail call
/// counts in two categories).
pub proof fn law_total_is_category_sum(m: Module, st: Stats)
    requires
        profile_of(m, st),
        no_tail_calls(m.sections@),
    ensures
        st.instr.categories.sum() == st.instr.total,
        forall|c: Category| #[trigger] st.instr.categories.get(c) <= st.instr.total,
{
    let ops = code_ops(m.sections@);
    lemma_category_sum(ops);
    assert(st.instr.categories.get(Category::LoadStore) == category_count(ops, Category::LoadStore));
    assert(st.instr.categories.get(Category::LocalVar) == category_count(ops, Category::LocalVar));
    assert(st.instr.categories.get(Category::GlobalVar) == category_count(ops, Category::GlobalVar));
    assert(st.instr.categories.get(Category::Table) == category_count(ops, Category::Table));
    assert(st.instr.categories.get(Category::Memory) == category_count(ops, Category::Memory));
    assert(st.instr.categories.get(Category::ControlFlow) == category_count(
        ops,
        Category::ControlFlow,
    ));
    assert(st.instr.categories.get(Category::DirectCalls) == category_count(
        ops,
        Category::DirectCalls,
    ));
    assert(st.instr.categories.get(Category::IndirectCalls) == category_count(
        ops,
        Category::IndirectCalls,
    ));
    assert(st.instr.categories.get(Category::Constants) == category_count(ops, Category::Constants));
    assert(st.instr.categories.get(Category::WaitNotify) == category_count(
        ops,
        Category::WaitNotify,
    ));
    assert(st.instr.categories.get(Category::Other) == category_count(ops, Category::Other));
    assert forall|c: Category| #[trigger] st.instr.categories.get(c) <= st.instr.total by {
        lemma_category_count_le_len(ops, c);
    }
}

/// Whether `secs` defines no function body.
pub open spec fn no_bodies(secs: Seq<Section>) -> bool {
    forall|i: int|
        0 <= i < secs.len() ==> match #[trigger] secs[i] {
            Section::Code { bodies, .. } => bodies@.len() == 0,
            _ => true,
        }
}

proof fn lemma_no_bodies(secs: Seq<Section>)
    requires
        no_bodies(secs),
    ensures
        code_ops(secs).len() == 0,
        last_code_funcs(secs) == 0,
    decreases secs.len(),
{
    if secs.len() > 0 {
        let d = secs.drop_last();
        assert forall|i: int| 0 <= i < d.len() implies match #[trigger] d[i] {
            Section::Code { bodies, .. } => bodies@.len() == 0,
            _ => true,
        } by {
            assert(d[i] == secs[i]);
        }
        lemma_no_bodies(d);
        if let Section::Code { bodies, .. } = secs.last() {
            assert(secs[secs.len() - 1] == secs.last());
            assert(bodies@ =~= Seq::<Vec<Opcode>>::empty());
        }
    }
}

/// A module without function bodies has no functions and no instructions.
pub proof fn law_no_functions(m: Module, st: Stats)
    requires
        profile_of(m, st),
        no_bodies(m.sections@),
    ensures
        st.funcs == 0,
        st.instr.total == 0,
{
    lemma_no_bodies(m.sections@);
}

proof fn lemma_mark_global_counts(t: Seq<MaybeExternal<GlobalType>>, idx: u32)
    requires
        idx < t.len(),
        !t[idx as int].is_external,
    ensures
        mutable_count(mark(t, idx)) == mutable_count(t) + if t[idx as int].value.mutable {
            1nat
        } else {
            0nat
        },
        bigint_global_count(mark(t, idx)) == bigint_global_count(t) + if t[idx as int].value.value_type
            == ValueType::I64 {
            1nat
        } else {
            0nat
        },
    decreases t.len(),
{
    let u = mark(t, idx);
    if idx < t.len() - 1 {
        lemma_mark_global_counts(t.drop_last(), idx);
        assert(u.drop_last() =~= mark(t.drop_last(), idx));
    } else {
        assert(u.drop_last() =~= t.drop_last());
    }
}

/// Exporting a mutable global of type i64 that was not yet external adds
/// exactly one to the mutable-externals count and one to the bigint count.
pub proof fn law_exported_mutable_i64_global(t: Seq<MaybeExternal<GlobalType>>, idx: u32)
    requires
        idx < t.len(),
        !t[idx as int].is_external,
        t[idx as int].value.mutable,
        t[idx as int].value.value_type == ValueType::I64,
    ensures
        mutable_count(mark(t, idx)) == mutable_count(t) + 1,
        bigint_global_count(mark(t, idx)) == bigint_global_count(t) + 1,
{
    lemma_mark_global_counts(t, idx);
}

proof fn lemma_buckets_within(secs: Seq<Section>)
    ensures
        last_code_size(secs) + bucket_bytes(secs, Bucket::Init) + bucket_bytes(
            secs,
            Bucket::Externals,
        ) + bucket_bytes(secs, Bucket::Types) + bucket_bytes(secs, Bucket::Custom) + bucket_bytes(
            secs,
            Bucket::Descriptors,
        ) <= total_bytes(secs),
    decreases secs.len(),
{
    if secs.len() > 0 {
        lemma_buckets_within(secs.drop_last());
    }
}

/// The six size classes together never exceed the length of the encoding.
pub proof fn law_buckets_within_total(m: Module, st: Stats)
    requires
        m.wf(),
        profile_of(m, st),
    ensures
        st.size.buckets_sum() <= st.size.total,
{
    let secs = m.sections@;
    lemma_buckets_within(secs);
    assert(st.size.get(Bucket::Init) == bucket_bytes(secs, Bucket::Init));
    assert(st.size.get(Bucket::Externals) == bucket_bytes(secs, Bucket::Externals));
    assert(st.size.get(Bucket::Types) == bucket_bytes(secs, Bucket::Types));
    assert(st.size.get(Bucket::Custom) == bucket_bytes(secs, Bucket::Custom));
    assert(st.size.get(Bucket::Descriptors) == bucket_bytes(secs, Bucket::Descriptors));
}

} // verus!
