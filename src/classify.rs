use vstd::prelude::*;
use crate::opcode::Opcode;

verus! {

/// The semantic bucket an instruction counts toward.
#[derive(Clone, Copy, Debug, PartialEq, Eq, Structural)]
pub enum Category {
    LoadStore,
    LocalVar,
    GlobalVar,
    Table,
    Memory,
    ControlFlow,
    DirectCalls,
    IndirectCalls,
    Constants,
    WaitNotify,
    Other,
}

/// A proposal counter. The first eight are fed by instructions and sections;
/// the last two by the index-space audit of external functions and globals.
#[derive(Clone, Copy, Debug, PartialEq, Eq, Structural)]
pub enum Proposal {
    Atomics,
    RefTypes,
    Simd,
    TailCalls,
    Bulk,
    MultiValue,
    NonTrappingConv,
    SignExtend,
    MutableExternals,
    BigintExternals,
}

/// The category every occurrence of `op` counts toward.
pub open spec fn category_of(op: Opcode) -> Category {
    match op {
        Opcode::Plain(b) => {
            if b <= 0x05 || (0x0B <= b <= 0x0F) || (0x1A <= b <= 0x1C) {
                Category::ControlFlow
            } else if b == 0x10 || b == 0x12 {
                Category::DirectCalls
            } else if b == 0x11 || b == 0x13 {
                Category::IndirectCalls
            } else if (0x41 <= b <= 0x44) || b == 0xD0 || b == 0xD2 {
                Category::Constants
            } else if 0x20 <= b <= 0x22 {
                Category::LocalVar
            } else if 0x23 <= b <= 0x24 {
                Category::GlobalVar
            } else if 0x25 <= b <= 0x26 {
                Category::Table
            } else if 0x28 <= b <= 0x3E {
                Category::LoadStore
            } else if 0x3F <= b <= 0x40 {
                Category::Memory
            } else {
                Category::Other
            }
        },
        Opcode::Misc(c) => {
            if 0x08 <= c <= 0x0B {
                Category::Memory
            } else if 0x0C <= c <= 0x11 {
                Category::Table
            } else {
                Category::Other
            }
        },
        Opcode::Simd(c) => {
            if c <= 11 || (84 <= c <= 91) {
                Category::LoadStore
            } else if c == 12 {
                Category::Constants
            } else {
                Category::Other
            }
        },
        Opcode::Atomic(c) => {
            if c <= 0x02 {
                Category::WaitNotify
            } else if 0x10 <= c <= 0x1D {
                Category::LoadStore
            } else {
                Category::Other
            }
        },
        Opcode::Gc(_) => Category::Other,
    }
}

/// Tail calls (`return_call`, `return_call_indirect`) are also control transfers.
pub open spec fn is_tail_call(op: Opcode) -> bool {
    op == Opcode::Plain(0x12) || op == Opcode::Plain(0x13)
}

/// Whether an occurrence of `op` increments the counter of `c`: its own
/// category, and for a tail call control flow as well.
pub open spec fn counts_in(op: Opcode, c: Category) -> bool {
    category_of(op) == c || (is_tail_call(op) && c == Category::ControlFlow)
}

/// The proposal counter an occurrence of `op` increments, if any.
pub open spec fn proposal_of(op: Opcode) -> Option<Proposal> {
    match op {
        Opcode::Plain(b) => {
            if b == 0x12 || b == 0x13 {
                Some(Proposal::TailCalls)
            } else if 0xD0 <= b <= 0xD2 {
                Some(Proposal::RefTypes)
            } else if b == 0xAD || (0xC0 <= b <= 0xC4) {
                Some(Proposal::SignExtend)
            } else {
                None
            }
        },
        Opcode::Misc(c) => {
            if c <= 0x07 {
                Some(Proposal::NonTrappingConv)
            } else if c == 0x0F || c == 0x10 {
                Some(Proposal::RefTypes)
            } else if c <= 0x11 {
                Some(Proposal::Bulk)
            } else {
                None
            }
        },
        Opcode::Simd(_) => Some(Proposal::Simd),
        Opcode::Atomic(_) => Some(Proposal::Atomics),
        Opcode::Gc(_) => None,
    }
}

/// How many instructions of `ops` count toward category `c`.
pub open spec fn category_count(ops: Seq<Opcode>, c: Category) -> nat
    decreases ops.len(),
{
    if ops.len() == 0 {
        0
    } else {
        category_count(ops.drop_last(), c) + if counts_in(ops.last(), c) {
            1nat
        } else {
            0nat
        }
    }
}

/// How many instructions of `ops` count toward proposal `p`.
pub open spec fn proposal_count(ops: Seq<Opcode>, p: Proposal) -> nat
    decreases ops.len(),
{
    if ops.len() == 0 {
        0
    } else {
        proposal_count(ops.drop_last(), p) + if proposal_of(ops.last()) == Some(p) {
            1nat
        } else {
            0nat
        }
    }
}

/// The instructions of a list of function bodies, one body after another.
pub open spec fn flat(bodies: Seq<Vec<Opcode>>) -> Seq<Opcode>
    decreases bodies.len(),
{
    if bodies.len() == 0 {
        Seq::empty()
    } else {
        flat(bodies.drop_last()) + bodies.last()@
    }
}

pub proof fn lemma_category_count_le_len(ops: Seq<Opcode>, c: Category)
    ensures
        category_count(ops, c) <= ops.len(),
    decreases ops.len(),
{
    if ops.len() > 0 {
        lemma_category_count_le_len(ops.drop_last(), c);
    }
}

pub proof fn lemma_proposal_count_le_len(ops: Seq<Opcode>, p: Proposal)
    ensures
        proposal_count(ops, p) <= ops.len(),
    decreases ops.len(),
{
    if ops.len() > 0 {
        lemma_proposal_count_le_len(ops.drop_last(), p);
    }
}

pub proof fn lemma_counts_concat(a: Seq<Opcode>, b: Seq<Opcode>)
    ensures
        forall|c: Category| category_count(a + b, c) == category_count(a, c) + category_count(b, c),
        forall|p: Proposal| proposal_count(a + b, p) == proposal_count(a, p) + proposal_count(b, p),
    decreases b.len(),
{
    if b.len() > 0 {
        lemma_counts_concat(a, b.drop_last());
        assert((a + b).drop_last() =~= a + b.drop_last());
        assert((a + b).last() == b.last());
        assert forall|c: Category| category_count(a + b, c) == category_count(a, c)
            + category_count(b, c) by {
            assert(category_count(a + b.drop_last(), c) == category_count(a, c)
                + category_count(b.drop_last(), c));
        }
        assert forall|p: Proposal| proposal_count(a + b, p) == proposal_count(a, p)
            + proposal_count(b, p) by {
            assert(proposal_count(a + b.drop_last(), p) == proposal_count(a, p)
                + proposal_count(b.drop_last(), p));
        }
    } else {
        assert(a + b =~= a);
    }
}

pub exec fn category(op: Opcode) -> (r: Category)
    ensures
        r == category_of(op),
{
    match op {
        Opcode::Plain(b) => {
            if b <= 0x05 || (0x0B <= b && b <= 0x0F) || (0x1A <= b && b <= 0x1C) {
                Category::ControlFlow
            } else if b == 0x10 || b == 0x12 {
                Category::DirectCalls
            } else if b == 0x11 || b == 0x13 {
                Category::IndirectCalls
            } else if (0x41 <= b && b <= 0x44) || b == 0xD0 || b == 0xD2 {
                Category::Constants
            } else if 0x20 <= b && b <= 0x22 {
                Category::LocalVar
            } else if 0x23 <= b && b <= 0x24 {
                Category::GlobalVar
            } else if 0x25 <= b && b <= 0x26 {
                Category::Table
            } else if 0x28 <= b && b <= 0x3E {
                Category::LoadStore
            } else if 0x3F <= b && b <= 0x40 {
                Category::Memory
            } else {
                Category::Other
            }
        },
        Opcode::Misc(c) => {
            if 0x08 <= c && c <= 0x0B {
                Category::Memory
            } else if 0x0C <= c && c <= 0x11 {
                Category::Table
            } else {
                Category::Other
            }
        },
        Opcode::Simd(c) => {
            if c <= 11 || (84 <= c && c <= 91) {
                Category::LoadStore
            } else if c == 12 {
                Category::Constants
            } else {
                Category::Other
            }
        },
        Opcode::Atomic(c) => {
            if c <= 0x02 {
                Category::WaitNotify
            } else if 0x10 <= c && c <= 0x1D {
                Category::LoadStore
            } else {
                Category::Other
            }
        },
        Opcode::Gc(_) => Category::Other,
    }
}

pub exec fn proposal(op: Opcode) -> (r: Option<Proposal>)
    ensures
        r == proposal_of(op),
{
    match op {
        Opcode::Plain(b) => {
            if b == 0x12 || b == 0x13 {
                Some(Proposal::TailCalls)
            } else if 0xD0 <= b && b <= 0xD2 {
                Some(Proposal::RefTypes)
            } else if b == 0xAD || (0xC0 <= b && b <= 0xC4) {
                Some(Proposal::SignExtend)
            } else {
                None
            }
        },
        Opcode::Misc(c) => {
            if c <= 0x07 {
                Some(Proposal::NonTrappingConv)
            } else if c == 0x0F || c == 0x10 {
                Some(Proposal::RefTypes)
            } else if c <= 0x11 {
                Some(Proposal::Bulk)
            } else {
                None
            }
        },
        Opcode::Simd(_) => Some(Proposal::Simd),
        Opcode::Atomic(_) => Some(Proposal::Atomics),
        Opcode::Gc(_) => None,
    }
}

pub exec fn tail_call(op: Opcode) -> (r: bool)
    ensures
        r == is_tail_call(op),
{
    match op {
        Opcode::Plain(b) => b == 0x12 || b == 0x13,
        _ => false,
    }
}

#[derive(Clone, Copy, Debug, PartialEq, Eq, Default)]
pub struct ProposalStats {
    pub atomics: usize,
    pub ref_types: usize,
    pub simd: usize,
    pub tail_calls: usize,
    pub bulk: usize,
    pub multi_value: usize,
    pub non_trapping_conv: usize,
    pub sign_extend: usize,
    pub mutable_externals: usize,
    pub bigint_externals: usize,
}

impl ProposalStats {
    pub open spec fn get(&self, p: Proposal) -> usize {
        match p {
            Proposal::Atomics => self.atomics,
            Proposal::RefTypes => self.ref_types,
            Proposal::Simd => self.simd,
            Proposal::TailCalls => self.tail_calls,
            Proposal::Bulk => self.bulk,
            Proposal::MultiValue => self.multi_value,
            Proposal::NonTrappingConv => self.non_trapping_conv,
            Proposal::SignExtend => self.sign_extend,
            Proposal::MutableExternals => self.mutable_externals,
            Proposal::BigintExternals => self.bigint_externals,
        }
    }

    /// All counters at zero.
    pub fn new() -> (r: Self)
        ensures
            forall|p: Proposal| r.get(p) == 0,
    {
        ProposalStats {
            atomics: 0,
            ref_types: 0,
            simd: 0,
            tail_calls: 0,
            bulk: 0,
            multi_value: 0,
            non_trapping_conv: 0,
            sign_extend: 0,
            mutable_externals: 0,
            bigint_externals: 0,
        }
    }

    /// Adds `n` to the counter of `p`.
    pub fn add(&mut self, p: Proposal, n: usize)
        requires
            old(self).get(p) + n <= usize::MAX,
        ensures
            final(self).get(p) == old(self).get(p) + n,
            forall|q: Proposal| q != p ==> final(self).get(q) == old(self).get(q),
    {
        match p {
            Proposal::Atomics => self.atomics = self.atomics + n,
            Proposal::RefTypes => self.ref_types = self.ref_types + n,
            Proposal::Simd => self.simd = self.simd + n,
            Proposal::TailCalls => self.tail_calls = self.tail_calls + n,
            Proposal::Bulk => self.bulk = self.bulk + n,
            Proposal::MultiValue => self.multi_value = self.multi_value + n,
            Proposal::NonTrappingConv => self.non_trapping_conv = self.non_trapping_conv + n,
            Proposal::SignExtend => self.sign_extend = self.sign_extend + n,
            Proposal::MutableExternals => self.mutable_externals = self.mutable_externals + n,
            Proposal::BigintExternals => self.bigint_externals = self.bigint_externals + n,
        }
    }
}

#[derive(Clone, Copy, Debug, PartialEq, Eq, Default)]
pub struct InstructionCategoryStats {
    pub load_store: usize,
    pub local_var: usize,
    pub global_var: usize,
    pub table: usize,
    pub memory: usize,
    pub control_flow: usize,
    pub direct_calls: usize,
    pub indirect_calls: usize,
    pub constants: usize,
    pub wait_notify: usize,
    pub other: usize,
}

impl InstructionCategoryStats {
    pub open spec fn get(&self, c: Category) -> usize {
        match c {
            Category::LoadStore => self.load_store,
            Category::LocalVar => self.local_var,
            Category::GlobalVar => self.global_var,
            Category::Table => self.table,
            Category::Memory => self.memory,
            Category::ControlFlow => self.control_flow,
            Category::DirectCalls => self.direct_calls,
            Category::IndirectCalls => self.indirect_calls,
            Category::Constants => self.constants,
            Category::WaitNotify => self.wait_notify,
            Category::Other => self.other,
        }
    }

    /// The sum of all eleven counters.
    pub open spec fn sum(&self) -> int {
        self.load_store + self.local_var + self.global_var + self.table + self.memory
            + self.control_flow + self.direct_calls + self.indirect_calls + self.constants
            + self.wait_notify + self.other
    }

    /// All counters at zero.
    pub fn new() -> (r: Self)
        ensures
            forall|c: Category| r.get(c) == 0,
    {
        InstructionCategoryStats {
            load_store: 0,
            local_var: 0,
            global_var: 0,
            table: 0,
            memory: 0,
            control_flow: 0,
            direct_calls: 0,
            indirect_calls: 0,
            constants: 0,
            wait_notify: 0,
            other: 0,
        }
    }

    /// Adds `n` to the counter of `c`.
    pub fn add(&mut self, c: Category, n: usize)
        requires
            old(self).get(c) + n <= usize::MAX,
        ensures
            final(self).get(c) == old(self).get(c) + n,
            forall|d: Category| d != c ==> final(self).get(d) == old(self).get(d),
    {
        match c {
            Category::LoadStore => self.load_store = self.load_store + n,
            Category::LocalVar => self.local_var = self.local_var + n,
            Category::GlobalVar => self.global_var = self.global_var + n,
            Category::Table => self.table = self.table + n,
            Category::Memory => self.memory = self.memory + n,
            Category::ControlFlow => self.control_flow = self.control_flow + n,
            Category::DirectCalls => self.direct_calls = self.direct_calls + n,
            Category::IndirectCalls => self.indirect_calls = self.indirect_calls + n,
            Category::Constants => self.constants = self.constants + n,
            Category::WaitNotify => self.wait_notify = self.wait_notify + n,
            Category::Other => self.other = self.other + n,
        }
    }
}

#[derive(Clone, Copy, Debug, PartialEq, Eq, Default)]
pub struct InstructionStats {
    pub total: usize,
    pub proposals: ProposalStats,
    pub categories: InstructionCategoryStats,
}

impl InstructionStats {
    /// The stats of an instruction sequence: its length, and for each category
    /// and proposal how many of its instructions count toward it.
    pub open spec fn describes(&self, ops: Seq<Opcode>) -> bool {
        &&& self.total == ops.len()
        &&& forall|c: Category| #[trigger] self.categories.get(c) == category_count(ops, c)
        &&& forall|p: Proposal| #[trigger] self.proposals.get(p) == proposal_count(ops, p)
    }
}

/// A tail call counts in control flow and in its own call category, and in the
/// tail-call proposal; no other counter moves.
pub proof fn law_tail_call_counts(ops: Seq<Opcode>, op: Opcode)
    requires
        is_tail_call(op),
    ensures
        category_of(op) == Category::DirectCalls || category_of(op) == Category::IndirectCalls,
        forall|c: Category| #[trigger] category_count(ops.push(op), c) == category_count(ops, c)
            + if c == Category::ControlFlow || c == category_of(op) {
            1nat
        } else {
            0nat
        },
        forall|p: Proposal| #[trigger] proposal_count(ops.push(op), p) == proposal_count(ops, p)
            + if p == Proposal::TailCalls {
            1nat
        } else {
            0nat
        },
{
    assert(ops.push(op).drop_last() =~= ops);
}

/// Without tail calls, every instruction counts in exactly one category.
pub proof fn lemma_category_sum(ops: Seq<Opcode>)
    requires
        forall|i: int| 0 <= i < ops.len() ==> !is_tail_call(#[trigger] ops[i]),
    ensures
        category_count(ops, Category::LoadStore) + category_count(ops, Category::LocalVar)
            + category_count(ops, Category::GlobalVar) + category_count(ops, Category::Table)
            + category_count(ops, Category::Memory) + category_count(ops, Category::ControlFlow)
            + category_count(ops, Category::DirectCalls) + category_count(
            ops,
            Category::IndirectCalls,
        ) + category_count(ops, Category::Constants) + category_count(ops, Category::WaitNotify)
            + category_count(ops, Category::Other) == ops.len(),
    decreases ops.len(),
{
    if ops.len() > 0 {
        let d = ops.drop_last();
        assert forall|i: int| 0 <= i < d.len() implies !is_tail_call(#[trigger] d[i]) by {
            assert(d[i] == ops[i]);
        }
        lemma_category_sum(d);
        assert(!is_tail_call(ops[ops.len() - 1]));
    }
}

impl InstructionStats {
    /// Adds every counter of `o` to the same counter of `self`.
    pub fn absorb(&mut self, o: &InstructionStats)
        requires
            old(self).total + o.total <= usize::MAX,
            forall|c: Category| #[trigger] old(self).categories.get(c) + o.categories.get(c) <= usize::MAX,
            forall|p: Proposal| #[trigger] old(self).proposals.get(p) + o.proposals.get(p) <= usize::MAX,
        ensures
            final(self).total == old(self).total + o.total,
            forall|c: Category| #[trigger] final(self).categories.get(c) == old(self).categories.get(c)
                + o.categories.get(c),
            forall|p: Proposal| #[trigger] final(self).proposals.get(p) == old(self).proposals.get(p)
                + o.proposals.get(p),
    {
        self.total = self.total + o.total;
        self.categories.add(Category::LoadStore, o.categories.load_store);
        self.categories.add(Category::LocalVar, o.categories.local_var);
        self.categories.add(Category::GlobalVar, o.categories.global_var);
        self.categories.add(Category::Table, o.categories.table);
        self.categories.add(Category::Memory, o.categories.memory);
        self.categories.add(Category::ControlFlow, o.categories.control_flow);
        self.categories.add(Category::DirectCalls, o.categories.direct_calls);
        self.categories.add(Category::IndirectCalls, o.categories.indirect_calls);
        self.categories.add(Category::Constants, o.categories.constants);
        self.categories.add(Category::WaitNotify, o.categories.wait_notify);
        self.categories.add(Category::Other, o.categories.other);
        self.proposals.add(Proposal::Atomics, o.proposals.atomics);
        self.proposals.add(Proposal::RefTypes, o.proposals.ref_types);
        self.proposals.add(Proposal::Simd, o.proposals.simd);
        self.proposals.add(Proposal::TailCalls, o.proposals.tail_calls);
        self.proposals.add(Proposal::Bulk, o.proposals.bulk);
        self.proposals.add(Proposal::MultiValue, o.proposals.multi_value);
        self.proposals.add(Proposal::NonTrappingConv, o.proposals.non_trapping_conv);
        self.proposals.add(Proposal::SignExtend, o.proposals.sign_extend);
        self.proposals.add(Proposal::MutableExternals, o.proposals.mutable_externals);
        self.proposals.add(Proposal::BigintExternals, o.proposals.bigint_externals);
    }
}

/// Tallies the instructions of all function bodies, in order.
pub fn get_instruction_stats(funcs: &Vec<Vec<Opcode>>) -> (r: InstructionStats)
    requires
        flat(funcs@).len() <= usize::MAX,
    ensures
        r.describes(flat(funcs@)),
{
    let mut stats = InstructionStats {
        total: 0,
        proposals: ProposalStats::new(),
        categories: InstructionCategoryStats::new(),
    };
    let ghost mut seen: Seq<Opcode> = Seq::empty();
    let mut i: usize = 0;
    while i < funcs.len()
        invariant
            i <= funcs@.len(),
            seen == flat(funcs@.subrange(0, i as int)),
            flat(funcs@).len() <= usize::MAX,
            stats.describes(seen),
            seen.len() <= flat(funcs@).len(),
        decreases funcs@.len() - i,
    {
        let body = &funcs[i];
        let ghost before = seen;
        proof {
            assert(funcs@.subrange(0, i + 1).drop_last() =~= funcs@.subrange(0, i as int));
            lemma_flat_prefix_len(funcs@, i + 1);
        }
        let mut j: usize = 0;
        while j < body.len()
            invariant
                i < funcs@.len(),
                body == funcs@[i as int],
                j <= body@.len(),
                seen == before + body@.subrange(0, j as int),
                before + body@ == flat(funcs@.subrange(0, i + 1)),
                flat(funcs@.subrange(0, i + 1)).len() <= usize::MAX,
                stats.describes(seen),
            decreases body@.len() - j,
        {
            let op = body[j];
            proof {
                assert((before + body@.subrange(0, j + 1)).drop_last() =~= seen);
                assert(before + body@.subrange(0, j + 1) =~= seen.push(op));
                assert(body@.subrange(0, j + 1).len() <= body@.len());
                lemma_category_count_le_len(seen, category_of(op));
                lemma_category_count_le_len(seen, Category::ControlFlow);
            }
            stats.total = stats.total + 1;
            stats.categories.add(category(op), 1);
            if tail_call(op) {
                stats.categories.add(Category::ControlFlow, 1);
            }
            match proposal(op) {
                Some(p) => {
                    proof {
                        lemma_proposal_count_le_len(seen, p);
                    }
                    stats.proposals.add(p, 1);
                },
                None => {},
            }
            proof {
                seen = seen.push(op);
            }
            j = j + 1;
        }
        proof {
            assert(body@.subrange(0, j as int) =~= body@);
        }
        i = i + 1;
    }
    proof {
        assert(funcs@.subrange(0, i as int) =~= funcs@);
    }
    stats
}

pub proof fn lemma_flat_prefix_len(bodies: Seq<Vec<Opcode>>, k: int)
    requires
        0 <= k <= bodies.len(),
    ensures
        flat(bodies.subrange(0, k)).len() <= flat(bodies).len(),
    decreases bodies.len(),
{
    if k < bodies.len() {
        assert(bodies.drop_last().subrange(0, k) =~= bodies.subrange(0, k));
        lemma_flat_prefix_len(bodies.drop_last(), k);
    } else {
        assert(bodies.subrange(0, k) =~= bodies);
    }
}

} // verus!
