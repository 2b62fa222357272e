use vstd::prelude::*;
use vstd::string::StrSliceExecFns;
use crate::module::{ExportDesc, Import, ImportPath, Module, Section};

verus! {

/// The toolchain a module is guessed to come from.
#[derive(Clone, Copy, Debug, PartialEq, Eq, Structural)]
pub enum Language {
    Rust,
    Emscripten,
    /// Some evidence points to Emscripten, by patterns that are not very reliable.
    LikelyEmscripten,
    /// Declared, but no rule detects it yet.
    AssemblyScript,
    Blazor,
    Unknown,
    Go,
}

impl Default for Language {
    fn default() -> (r: Self)
        ensures
            r == Language::Unknown,
    {
        Language::Unknown
    }
}

/// Whether `p` occurs in `s` as a contiguous run.
pub open spec fn has_substring(s: Seq<char>, p: Seq<char>) -> bool {
    exists|i: int| 0 <= i <= s.len() - p.len() && #[trigger] s.subrange(i, i + p.len()) == p
}

/// A test on one import that a provenance rule looks for.
#[derive(Clone, Copy, Debug, PartialEq, Eq, Structural)]
pub enum ImportRule {
    /// The name mentions Blazor.
    Blazor,
    /// The name mentions Emscripten.
    Emscripten,
    /// The module is the Go runtime's.
    GoModule,
    /// The name or module is one that wasm-bindgen generates.
    Bindgen,
    /// Module "a", name "a".
    MinifiedA,
    /// Module "a", name "b".
    MinifiedB,
    /// Module "env", name "a".
    EnvA,
    /// Module "env", name "b".
    EnvB,
}

pub open spec fn rule_holds(rule: ImportRule, i: ImportPath) -> bool {
    match rule {
        ImportRule::Blazor => has_substring(i.name@, "blazor"@),
        ImportRule::Emscripten => has_substring(i.name@, "emscripten"@),
        ImportRule::GoModule => i.module@ == "go"@,
        ImportRule::Bindgen => has_substring(i.name@, "wbindgen"@) || has_substring(i.name@, "wbg"@)
            || i.module@ == "wbg"@ || i.module@ == "wbindgen"@,
        ImportRule::MinifiedA => i.module@ == "a"@ && i.name@ == "a"@,
        ImportRule::MinifiedB => i.module@ == "a"@ && i.name@ == "b"@,
        ImportRule::EnvA => i.module@ == "env"@ && i.name@ == "a"@,
        ImportRule::EnvB => i.module@ == "env"@ && i.name@ == "b"@,
    }
}

/// Whether some import of `imports` passes `rule`.
pub open spec fn some_import(imports: Seq<ImportPath>, rule: ImportRule) -> bool {
    exists|k: int| 0 <= k < imports.len() && rule_holds(rule, #[trigger] imports[k])
}

/// Whether some export name mentions wasm-bindgen.
pub open spec fn bindgen_export(exports: Seq<String>) -> bool {
    exists|k: int| 0 <= k < exports.len() && has_substring(#[trigger] exports[k]@, "wbindgen"@)
}

/// The verdict of the provenance rules, the first that matches winning.
pub open spec fn language_of(imports: Seq<ImportPath>, exports: Seq<String>) -> Language {
    if some_import(imports, ImportRule::Blazor) {
        Language::Blazor
    } else if some_import(imports, ImportRule::Emscripten) {
        Language::Emscripten
    } else if some_import(imports, ImportRule::GoModule) {
        Language::Go
    } else if some_import(imports, ImportRule::Bindgen) || bindgen_export(exports) {
        Language::Rust
    } else if (some_import(imports, ImportRule::MinifiedA) && some_import(
        imports,
        ImportRule::MinifiedB,
    )) || (some_import(imports, ImportRule::EnvA) && some_import(imports, ImportRule::EnvB)) {
        Language::LikelyEmscripten
    } else {
        Language::Unknown
    }
}

/// The paths of the imports of `secs`, in order.
pub open spec fn import_paths(secs: Seq<Section>) -> Seq<ImportPath>
    decreases secs.len(),
{
    if secs.len() == 0 {
        Seq::empty()
    } else {
        import_paths(secs.drop_last()) + match secs.last() {
            Section::Import { imports, .. } => imports@.map_values(|i: Import| i.path),
            _ => Seq::empty(),
        }
    }
}

/// The names of the exports of `secs`, in order.
pub open spec fn export_names(secs: Seq<Section>) -> Seq<String>
    decreases secs.len(),
{
    if secs.len() == 0 {
        Seq::empty()
    } else {
        export_names(secs.drop_last()) + match secs.last() {
            Section::Export { exports, .. } => exports@.map_values(|e: crate::module::Export| e.name),
            _ => Seq::empty(),
        }
    }
}

fn chars_of(s: &str) -> (r: Vec<char>)
    ensures
        r@ == s@,
{
    let n = s.unicode_len();
    let mut r: Vec<char> = Vec::new();
    let mut i: usize = 0;
    while i < n
        invariant
            n == s@.len(),
            i <= n,
            r@ == s@.subrange(0, i as int),
        decreases n - i,
    {
        r.push(s.get_char(i));
        i = i + 1;
        assert(r@ =~= s@.subrange(0, i as int));
    }
    assert(s@.subrange(0, n as int) =~= s@);
    r
}

/// Whether `pat` occurs in `s`.
pub fn contains(s: &str, pat: &str) -> (r: bool)
    ensures
        r == has_substring(s@, pat@),
{
    let hay = chars_of(s);
    let p = chars_of(pat);
    if p.len() == 0 {
        assert(s@.subrange(0, 0 + pat@.len() as int) =~= pat@);
        return true;
    }
    if p.len() > hay.len() {
        return false;
    }
    let last = hay.len() - p.len();
    let mut i: usize = 0;
    while i <= last
        invariant
            hay@ == s@,
            p@ == pat@,
            last == hay@.len() - p@.len(),
            i <= last + 1,
            0 < p@.len() <= hay@.len() <= usize::MAX,
            forall|k: int| 0 <= k < i ==> #[trigger] hay@.subrange(k, k + p@.len()) != p@,
        decreases last + 1 - i,
    {
        let mut j: usize = 0;
        let mut same = true;
        while j < p.len()
            invariant
                i <= last,
                last == hay@.len() - p@.len(),
                0 < p@.len() <= hay@.len() <= usize::MAX,
                j <= p@.len(),
                same == (forall|m: int| 0 <= m < j ==> hay@[i + m] == p@[m]),
            decreases p@.len() - j,
        {
            if hay[i + j] != p[j] {
                same = false;
            }
            j = j + 1;
        }
        if same {
            assert(hay@.subrange(i as int, i + p@.len()) =~= p@);
            return true;
        }
        proof {
            if hay@.subrange(i as int, i + p@.len()) == p@ {
                assert forall|m: int| 0 <= m < j implies hay@[i + m] == p@[m] by {
                    assert(hay@.subrange(i as int, i + p@.len())[m] == p@[m]);
                }
            }
        }
        i = i + 1;
    }
    false
}

/// Whether `a` and `b` hold the same characters.
pub fn same_text(a: &str, b: &str) -> (r: bool)
    ensures
        r == (a@ == b@),
{
    let x = chars_of(a);
    let y = chars_of(b);
    if x.len() != y.len() {
        return false;
    }
    let mut i: usize = 0;
    while i < x.len()
        invariant
            x@ == a@,
            y@ == b@,
            x@.len() == y@.len(),
            i <= x@.len(),
            forall|k: int| 0 <= k < i ==> x@[k] == y@[k],
        decreases x@.len() - i,
    {
        if x[i] != y[i] {
            return false;
        }
        i = i + 1;
    }
    assert(x@ =~= y@);
    true
}

fn path_is(i: &ImportPath, module: &str, name: &str) -> (r: bool)
    ensures
        r == (i.module@ == module@ && i.name@ == name@),
{
    same_text(i.module.as_str(), module) && same_text(i.name.as_str(), name)
}

/// Whether the import `i` passes `rule`.
pub fn check_rule(rule: ImportRule, i: &ImportPath) -> (r: bool)
    ensures
        r == rule_holds(rule, *i),
{
    match rule {
        ImportRule::Blazor => contains(i.name.as_str(), "blazor"),
        ImportRule::Emscripten => contains(i.name.as_str(), "emscripten"),
        ImportRule::GoModule => same_text(i.module.as_str(), "go"),
        ImportRule::Bindgen => contains(i.name.as_str(), "wbindgen") || contains(
            i.name.as_str(),
            "wbg",
        ) || same_text(i.module.as_str(), "wbg") || same_text(i.module.as_str(), "wbindgen"),
        ImportRule::MinifiedA => path_is(i, "a", "a"),
        ImportRule::MinifiedB => path_is(i, "a", "b"),
        ImportRule::EnvA => path_is(i, "env", "a"),
        ImportRule::EnvB => path_is(i, "env", "b"),
    }
}

fn any_import(imports: &Vec<ImportPath>, rule: ImportRule) -> (r: bool)
    ensures
        r == some_import(imports@, rule),
{
    let mut k: usize = 0;
    while k < imports.len()
        invariant
            k <= imports@.len(),
            forall|m: int| 0 <= m < k ==> !rule_holds(rule, #[trigger] imports@[m]),
        decreases imports@.len() - k,
    {
        if check_rule(rule, &imports[k]) {
            return true;
        }
        k = k + 1;
    }
    false
}

fn any_bindgen_export(exports: &Vec<String>) -> (r: bool)
    ensures
        r == bindgen_export(exports@),
{
    let mut k: usize = 0;
    while k < exports.len()
        invariant
            k <= exports@.len(),
            forall|m: int| 0 <= m < k ==> !has_substring(#[trigger] exports@[m]@, "wbindgen"@),
        decreases exports@.len() - k,
    {
        if contains(exports[k].as_str(), "wbindgen") {
            return true;
        }
        k = k + 1;
    }
    false
}

/// Applies the provenance rules, in their fixed order, to the import paths and
/// export names of a module.
pub fn language_from_names(imports: &Vec<ImportPath>, exports: &Vec<String>) -> (r: Language)
    ensures
        r == language_of(imports@, exports@),
{
    if any_import(imports, ImportRule::Blazor) {
        return Language::Blazor;
    }
    if any_import(imports, ImportRule::Emscripten) {
        return Language::Emscripten;
    }
    if any_import(imports, ImportRule::GoModule) {
        return Language::Go;
    }
    if any_import(imports, ImportRule::Bindgen) || any_bindgen_export(exports) {
        return Language::Rust;
    }
    if (any_import(imports, ImportRule::MinifiedA) && any_import(imports, ImportRule::MinifiedB))
        || (any_import(imports, ImportRule::EnvA) && any_import(imports, ImportRule::EnvB)) {
        return Language::LikelyEmscripten;
    }
    Language::Unknown
}

/// Guesses the toolchain of `module` from all of its import paths and export names.
pub fn infer_language(module: &Module) -> (r: Language)
    ensures
        r == language_of(import_paths(module.sections@), export_names(module.sections@)),
{
    let secs = &module.sections;
    let mut imports: Vec<ImportPath> = Vec::new();
    let mut exports: Vec<String> = Vec::new();
    let mut s: usize = 0;
    while s < secs.len()
        invariant
            s <= secs@.len(),
            imports@ == import_paths(secs@.subrange(0, s as int)),
            exports@ == export_names(secs@.subrange(0, s as int)),
        decreases secs@.len() - s,
    {
        proof {
            assert(secs@.subrange(0, s + 1).drop_last() =~= secs@.subrange(0, s as int));
        }
        match &secs[s] {
            Section::Import { imports: items, .. } => {
                let ghost start = imports@;
                let mut k: usize = 0;
                while k < items.len()
                    invariant
                        k <= items@.len(),
                        imports@ == start + items@.subrange(0, k as int).map_values(
                            |i: Import| i.path,
                        ),
                    decreases items@.len() - k,
                {
                    let p = &items[k].path;
                    imports.push(ImportPath { module: p.module.clone(), name: p.name.clone() });
                    k = k + 1;
                    assert(imports@ =~= start + items@.subrange(0, k as int).map_values(
                        |i: Import| i.path,
                    ));
                }
                assert(items@.subrange(0, k as int) =~= items@);
            },
            Section::Export { exports: items, .. } => {
                let ghost start = exports@;
                let mut k: usize = 0;
                while k < items.len()
                    invariant
                        k <= items@.len(),
                        exports@ == start + items@.subrange(0, k as int).map_values(
                            |e: crate::module::Export| e.name,
                        ),
                    decreases items@.len() - k,
                {
                    exports.push(items[k].name.clone());
                    k = k + 1;
                    assert(exports@ =~= start + items@.subrange(0, k as int).map_values(
                        |e: crate::module::Export| e.name,
                    ));
                }
                assert(items@.subrange(0, k as int) =~= items@);
            },
            _ => {
                assert(imports@ =~= import_paths(secs@.subrange(0, s + 1)));
                assert(exports@ =~= export_names(secs@.subrange(0, s + 1)));
            },
        }
        s = s + 1;
    }
    assert(secs@.subrange(0, s as int) =~= secs@);
    language_from_names(&imports, &exports)
}

/// An import from the Go runtime's module makes the verdict Go whatever else the
/// module holds, short of a Blazor or Emscripten import, whose rules come first.
pub proof fn law_go_module_wins(imports: Seq<ImportPath>, exports: Seq<String>)
    requires
        some_import(imports, ImportRule::GoModule),
        !some_import(imports, ImportRule::Blazor),
        !some_import(imports, ImportRule::Emscripten),
    ensures
        language_of(imports, exports) == Language::Go,
{
}

/// A Blazor import beside Emscripten imports gives Blazor, never Emscripten.
pub proof fn law_blazor_before_emscripten(imports: Seq<ImportPath>, exports: Seq<String>)
    requires
        some_import(imports, ImportRule::Blazor),
        some_import(imports, ImportRule::Emscripten),
    ensures
        language_of(imports, exports) == Language::Blazor,
{
}

proof fn lemma_short_names()
    ensures
        "a"@.len() == 1,
        "b"@.len() == 1,
        "c"@.len() == 1,
        "a"@ != "b"@,
        "c"@ != "b"@,
        "a"@ != "go"@,
        "a"@ != "wbg"@,
        "a"@ != "wbindgen"@,
        "a"@ != "env"@,
        "blazor"@.len() == 6,
        "emscripten"@.len() == 10,
        "wbindgen"@.len() == 8,
        "wbg"@.len() == 3,
{
    reveal_strlit("a");
    reveal_strlit("b");
    reveal_strlit("c");
    reveal_strlit("go");
    reveal_strlit("wbg");
    reveal_strlit("wbindgen");
    reveal_strlit("env");
    reveal_strlit("blazor");
    reveal_strlit("emscripten");
    assert("a"@[0] != "b"@[0]);
    assert("c"@[0] != "b"@[0]);
}

/// Whether `imports` is exactly the two imports from module "a" named `x` and `y`.
pub open spec fn two_minified(imports: Seq<ImportPath>, x: Seq<char>, y: Seq<char>) -> bool {
    &&& imports.len() == 2
    &&& imports[0].module@ == "a"@ && imports[0].name@ == x
    &&& imports[1].module@ == "a"@ && imports[1].name@ == y
}

/// Imports `a.a` and `a.b` alone give LikelyEmscripten (where no export name
/// mentions wasm-bindgen); with `a.c` in place of `a.b` the verdict is Unknown.
pub proof fn law_minified_pair(imports: Seq<ImportPath>, exports: Seq<String>)
    requires
        two_minified(imports, "a"@, "b"@) || two_minified(imports, "a"@, "c"@),
        !bindgen_export(exports),
    ensures
        two_minified(imports, "a"@, "b"@) ==> language_of(imports, exports)
            == Language::LikelyEmscripten,
        two_minified(imports, "a"@, "c"@) ==> language_of(imports, exports) == Language::Unknown,
{
    lemma_short_names();
    assert forall|k: int| 0 <= k < imports.len() implies !rule_holds(
        ImportRule::Blazor,
        #[trigger] imports[k],
    ) && !rule_holds(ImportRule::Emscripten, imports[k]) && !rule_holds(
        ImportRule::GoModule,
        imports[k],
    ) && !rule_holds(ImportRule::Bindgen, imports[k]) && !rule_holds(ImportRule::EnvA, imports[k])
        && !rule_holds(ImportRule::EnvB, imports[k]) by {
        assert(imports[k].name@.len() == 1);
    }
    if two_minified(imports, "a"@, "b"@) {
        assert(rule_holds(ImportRule::MinifiedA, imports[0]));
        assert(rule_holds(ImportRule::MinifiedB, imports[1]));
    } else {
        assert forall|k: int| 0 <= k < imports.len() implies !rule_holds(
            ImportRule::MinifiedB,
            #[trigger] imports[k],
        ) by {}
    }
}

} // verus!
