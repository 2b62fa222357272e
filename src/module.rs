use vstd::prelude::*;
use crate::opcode::Opcode;

verus! {

/// A WebAssembly value type.
#[derive(Clone, Copy, Debug, PartialEq, Eq, Structural)]
pub enum ValueType {
    I32,
    I64,
    F32,
    F64,
    V128,
    Ref,
}

/// A function signature.
#[derive(Debug)]
pub struct FuncType {
    pub params: Vec<ValueType>,
    pub results: Vec<ValueType>,
}

/// The type of a global: its value type and whether it may be written.
#[derive(Clone, Copy, Debug, PartialEq, Eq, Structural)]
pub struct GlobalType {
    pub value_type: ValueType,
    pub mutable: bool,
}

/// The two-part name of an import.
#[derive(Debug)]
pub struct ImportPath {
    pub module: String,
    pub name: String,
}

/// What an import brings in; a function import carries its type index.
#[derive(Clone, Copy, Debug, PartialEq, Eq, Structural)]
pub enum ImportDesc {
    Func(u32),
    Table,
    Mem,
    Global(GlobalType),
    /// An exception tag.
    Tag,
}

#[derive(Debug)]
pub struct Import {
    pub path: ImportPath,
    pub desc: ImportDesc,
}

/// What an export exposes; functions and globals by their index.
#[derive(Clone, Copy, Debug, PartialEq, Eq, Structural)]
pub enum ExportDesc {
    Func(u32),
    Table(u32),
    Mem(u32),
    Global(u32),
    /// An exception tag.
    Tag(u32),
}

#[derive(Debug)]
pub struct Export {
    pub name: String,
    pub desc: ExportDesc,
}

/// One section of a decoded module. `size` is the number of bytes the
/// section's encoding occupies.
#[derive(Debug)]
pub enum Section {
    Custom { size: usize, name: String },
    Type { size: usize, types: Vec<FuncType> },
    Import { size: usize, imports: Vec<Import> },
    /// The type index of each locally defined function.
    Function { size: usize, type_ids: Vec<u32> },
    Table { size: usize },
    /// Whether each declared memory is shared.
    Memory { size: usize, shared: Vec<bool> },
    Global { size: usize, globals: Vec<GlobalType> },
    Export { size: usize, exports: Vec<Export> },
    Start,
    Element { size: usize },
    /// The opcodes of each function body.
    Code { size: usize, bodies: Vec<Vec<Opcode>> },
    Data { size: usize },
    DataCount,
    /// A section kind that no statistic reads.
    Other,
}

/// A decoded module: its sections in the order met, and the length of its
/// whole encoding.
#[derive(Debug)]
pub struct Module {
    pub sections: Vec<Section>,
    pub total_size: usize,
}

/// The size classes that section bytes are counted in.
#[derive(Clone, Copy, Debug, PartialEq, Eq, Structural)]
pub enum Bucket {
    Code,
    Init,
    Externals,
    Types,
    Custom,
    Descriptors,
}

impl Section {
    /// The size class this section's bytes go to, if any.
    pub open spec fn bucket(&self) -> Option<Bucket> {
        match self {
            Section::Custom { .. } => Some(Bucket::Custom),
            Section::Type { .. } => Some(Bucket::Types),
            Section::Import { .. } | Section::Export { .. } => Some(Bucket::Externals),
            Section::Function { .. } | Section::Table { .. } | Section::Memory { .. }
            | Section::Global { .. } => Some(Bucket::Descriptors),
            Section::Element { .. } | Section::Data { .. } => Some(Bucket::Init),
            Section::Code { .. } => Some(Bucket::Code),
            _ => None,
        }
    }

    /// The encoded size of a section that belongs to a size class, else 0.
    pub open spec fn spec_size(&self) -> nat {
        match self {
            Section::Custom { size, .. } => *size as nat,
            Section::Type { size, .. } => *size as nat,
            Section::Import { size, .. } => *size as nat,
            Section::Function { size, .. } => *size as nat,
            Section::Table { size } => *size as nat,
            Section::Memory { size, .. } => *size as nat,
            Section::Global { size, .. } => *size as nat,
            Section::Export { size, .. } => *size as nat,
            Section::Element { size } => *size as nat,
            Section::Code { size, .. } => *size as nat,
            Section::Data { size } => *size as nat,
            _ => 0,
        }
    }

    /// The number of entries the section lists (instructions, for code), plus one
    /// for the section itself. Each takes at least one byte of the encoding.
    pub open spec fn items(&self) -> nat {
        1 + match self {
            Section::Type { types, .. } => types@.len(),
            Section::Import { imports, .. } => imports@.len(),
            Section::Function { type_ids, .. } => type_ids@.len(),
            Section::Memory { shared, .. } => shared@.len(),
            Section::Global { globals, .. } => globals@.len(),
            Section::Export { exports, .. } => exports@.len(),
            Section::Code { bodies, .. } => crate::classify::flat(bodies@).len(),
            _ => 0,
        }
    }
}

/// The sum of the encoded sizes of `secs`.
pub open spec fn total_bytes(secs: Seq<Section>) -> nat
    decreases secs.len(),
{
    if secs.len() == 0 {
        0
    } else {
        total_bytes(secs.drop_last()) + secs.last().spec_size()
    }
}

/// The number of items of `secs`.
pub open spec fn total_items(secs: Seq<Section>) -> nat
    decreases secs.len(),
{
    if secs.len() == 0 {
        0
    } else {
        total_items(secs.drop_last()) + secs.last().items()
    }
}

impl Module {
    /// A module as a decoder produces it: its sections fit in its encoding,
    /// and so do their entries, each taking at least one byte.
    pub open spec fn wf(&self) -> bool {
        &&& total_bytes(self.sections@) <= self.total_size
        &&& total_items(self.sections@) <= self.total_size
    }

    /// Whether the sections' sizes and entries fit in `total_size`.
    pub fn is_well_formed(&self) -> (r: bool)
        ensures
            r == self.wf(),
    {
        let secs = &self.sections;
        let limit = self.total_size;
        let mut bytes: usize = 0;
        let mut items: usize = 0;
        let mut s: usize = 0;
        while s < secs.len()
            invariant
                s <= secs@.len(),
                bytes == total_bytes(secs@.subrange(0, s as int)),
                items == total_items(secs@.subrange(0, s as int)),
                bytes <= limit,
                items <= limit,
                limit == self.total_size,
                secs == self.sections,
            decreases secs@.len() - s,
        {
            proof {
                assert(secs@.subrange(0, s + 1).drop_last() =~= secs@.subrange(0, s as int));
                lemma_totals_grow(secs@, s + 1);
            }
            let sec = &secs[s];
            let size = section_size(sec);
            if size > limit - bytes {
                return false;
            }
            bytes = bytes + size;
            let n = match entry_count(sec, limit - items) {
                Some(n) => n,
                None => {
                    return false;
                },
            };
            if n > limit - items {
                return false;
            }
            items = items + n;
            s = s + 1;
        }
        assert(secs@.subrange(0, s as int) =~= secs@);
        true
    }
}

/// The totals of a prefix never exceed those of the whole.
pub proof fn lemma_totals_grow(secs: Seq<Section>, i: int)
    requires
        0 <= i <= secs.len(),
    ensures
        total_bytes(secs.subrange(0, i)) <= total_bytes(secs),
        total_items(secs.subrange(0, i)) <= total_items(secs),
    decreases secs.len(),
{
    if i < secs.len() {
        assert(secs.drop_last().subrange(0, i) =~= secs.subrange(0, i));
        lemma_totals_grow(secs.drop_last(), i);
    } else {
        assert(secs.subrange(0, i) =~= secs);
    }
}

fn section_size(sec: &Section) -> (r: usize)
    ensures
        r == sec.spec_size(),
{
    match sec {
        Section::Custom { size, .. } => *size,
        Section::Type { size, .. } => *size,
        Section::Import { size, .. } => *size,
        Section::Function { size, .. } => *size,
        Section::Table { size } => *size,
        Section::Memory { size, .. } => *size,
        Section::Global { size, .. } => *size,
        Section::Export { size, .. } => *size,
        Section::Element { size } => *size,
        Section::Code { size, .. } => *size,
        Section::Data { size } => *size,
        _ => 0,
    }
}

/// The number of items of `sec`, where it is at most `cap`.
fn entry_count(sec: &Section, cap: usize) -> (r: Option<usize>)
    ensures
        r matches Some(n) ==> n == sec.items(),
        r is None ==> sec.items() > cap,
{
    let n: usize = match sec {
        Section::Type { types, .. } => types.len(),
        Section::Import { imports, .. } => imports.len(),
        Section::Function { type_ids, .. } => type_ids.len(),
        Section::Memory { shared, .. } => shared.len(),
        Section::Global { globals, .. } => globals.len(),
        Section::Export { exports, .. } => exports.len(),
        Section::Code { bodies, .. } => {
            let mut total: usize = 0;
            let mut i: usize = 0;
            while i < bodies.len()
                invariant
                    i <= bodies@.len(),
                    total == crate::classify::flat(bodies@.subrange(0, i as int)).len(),
                    total <= cap,
                    sec.items() == 1 + crate::classify::flat(bodies@).len(),
                decreases bodies@.len() - i,
            {
                proof {
                    assert(bodies@.subrange(0, i + 1).drop_last() =~= bodies@.subrange(0, i as int));
                    crate::classify::lemma_flat_prefix_len(bodies@, i + 1);
                    assert(bodies@.subrange(0, i + 1).last() == bodies@[i as int]);
                }
                let len = bodies[i].len();
                if len > cap - total {
                    return None;
                }
                total = total + len;
                i = i + 1;
            }
            assert(bodies@.subrange(0, i as int) =~= bodies@);
            total
        },
        _ => 0,
    };
    if n >= cap {
        return None;
    }
    Some(n + 1)
}

} // verus!
