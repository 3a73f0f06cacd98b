//! Symbol resolution for one module: find the code section, keep the code
//! symbols confined to it, relocate them by the load address, deduplicate by
//! address (last writer wins), and infer missing sizes by stretching each
//! entry to the next one, or to the section end.

use vstd::prelude::*;
use crate::sorted_map::{SortedMap, has_key};
use crate::scanner::str_equal;

verus! {

/// ELF global binding, as the symbol table encodes it.
pub const STB_GLOBAL: u8 = 1;

/// One section header of a debug object: its name, when the string table
/// resolves it, and its declared size.
pub struct Section {
    pub name: Option<String>,
    pub size: u64,
}

/// One symbol-table entry of a debug object: its name when resolvable, its
/// value (section-relative address), declared size, owning section index,
/// whether it is typed as a function, and its binding.
pub struct SymEntry {
    pub name: Option<String>,
    pub value: u64,
    pub size: u64,
    pub shndx: usize,
    pub is_func: bool,
    pub binding: u8,
}

/// What a kept symbol contributes: name, declared size, function flag.
pub struct SymData {
    pub name: Seq<char>,
    pub size: u64,
    pub is_func: bool,
}

/// A symbol emitted for one module: absolute address, inferred size, kind
/// flag, and the `module.symbol` qualified name.
#[derive(Debug)]
pub struct ResolvedSymbol {
    pub addr: u64,
    pub size: u64,
    pub is_func: bool,
    pub qualified_name: String,
}

/// Why one module yields no symbols.
#[derive(Clone, Copy, Debug, PartialEq, Eq, Structural)]
pub enum ResolveError {
    /// The debug object is missing, unreadable, or not parseable.
    MissingOrInvalidObject,
    /// The object has no section named `.text`.
    NoCodeSection,
}

pub open spec fn sec_is_text(s: Section) -> bool {
    s.name is Some && s.name.unwrap()@ == ".text"@
}

/// Index of the first section named `.text`, if any.
pub open spec fn first_text(secs: Seq<Section>) -> Option<int>
    decreases secs.len(),
{
    if secs.len() == 0 {
        None
    } else if sec_is_text(secs.first()) {
        Some(0)
    } else {
        match first_text(secs.drop_first()) {
            Some(i) => Some(i + 1),
            None => None,
        }
    }
}

proof fn lemma_first_text_found(secs: Seq<Section>, i: int)
    requires
        0 <= i < secs.len(),
        forall|k: int| 0 <= k < i ==> !sec_is_text(secs[k]),
        sec_is_text(secs[i]),
    ensures
        first_text(secs) == Some(i),
    decreases i,
{
    if i == 0 {
    } else {
        assert(!sec_is_text(secs.first()));
        assert(forall|k: int| 0 <= k < i - 1 ==> secs.drop_first()[k] == secs[k + 1]);
        lemma_first_text_found(secs.drop_first(), i - 1);
    }
}

proof fn lemma_first_text_none(secs: Seq<Section>)
    requires
        forall|k: int| 0 <= k < secs.len() ==> !sec_is_text(secs[k]),
    ensures
        first_text(secs) is None,
    decreases secs.len(),
{
    if secs.len() > 0 {
        assert(forall|k: int| 0 <= k < secs.len() - 1 ==> secs.drop_first()[k] == secs[k + 1]);
        lemma_first_text_none(secs.drop_first());
    }
}

/// Locate the `.text` section: its index and declared size.
pub fn find_text_section(secs: &Vec<Section>) -> (r: Option<(usize, u64)>)
    ensures
        match r {
            Some(p) => first_text(secs@) == Some(p.0 as int) && secs@[p.0 as int].size == p.1,
            None => first_text(secs@) is None,
        },
{
    let mut i: usize = 0;
    while i < secs.len()
        invariant
            0 <= i <= secs@.len(),
            forall|k: int| 0 <= k < i ==> !sec_is_text(secs@[k]),
        decreases secs@.len() - i,
    {
        let is_text = match &secs[i].name {
            Some(n) => str_equal(n.as_str(), ".text"),
            None => false,
        };
        if is_text {
            proof {
                lemma_first_text_found(secs@, i as int);
            }
            return Some((i, secs[i].size));
        }
        i = i + 1;
    }
    proof {
        lemma_first_text_none(secs@);
    }
    None
}

/// Whether a symbol survives the filter: it lies in the `.text` section (by
/// index, and its value within the section's extent), is a function or a
/// global, its name resolved, and its relocated address fits in a `u64`.
pub open spec fn keeps(sym: SymEntry, ti: int, load: u64, tsize: u64) -> bool {
    &&& sym.shndx == ti
    &&& sym.is_func || sym.binding == STB_GLOBAL
    &&& sym.name is Some
    &&& sym.value < tsize
    &&& load + sym.value <= 0xffff_ffff_ffff_ffffu64
}

pub open spec fn sym_data(sym: SymEntry) -> SymData {
    SymData { name: sym.name.unwrap()@, size: sym.size, is_func: sym.is_func }
}

/// The working map of one module: the kept symbols in iteration order, keyed
/// by value, a later symbol overwriting an earlier one at the same value.
pub open spec fn sym_map(syms: Seq<SymEntry>, ti: int, load: u64, tsize: u64) -> Map<u64, SymData>
    decreases syms.len(),
{
    if syms.len() == 0 {
        Map::empty()
    } else {
        let m = sym_map(syms.drop_last(), ti, load, tsize);
        if keeps(syms.last(), ti, load, tsize) {
            m.insert(syms.last().value, sym_data(syms.last()))
        } else {
            m
        }
    }
}

/// Every entry of the working map originates in a kept symbol with that value,
/// and carries that symbol's data.
pub proof fn lemma_sym_map_source(syms: Seq<SymEntry>, ti: int, load: u64, tsize: u64, v: u64)
    requires
        sym_map(syms, ti, load, tsize).contains_key(v),
    ensures
        exists|j: int|
            0 <= j < syms.len() && keeps(syms[j], ti, load, tsize) && syms[j].value == v
                && sym_map(syms, ti, load, tsize)[v] == sym_data(syms[j]),
    decreases syms.len(),
{
    let m = sym_map(syms, ti, load, tsize);
    if syms.len() > 0 {
        let last = syms.last();
        if keeps(last, ti, load, tsize) && last.value == v {
            assert(syms[syms.len() - 1] == last);
            assert(m[v] == sym_data(last));
        } else {
            lemma_sym_map_source(syms.drop_last(), ti, load, tsize, v);
            let j = choose|j: int|
                0 <= j < syms.drop_last().len() && keeps(syms.drop_last()[j], ti, load, tsize)
                    && syms.drop_last()[j].value == v && sym_map(
                    syms.drop_last(),
                    ti,
                    load,
                    tsize,
                )[v] == sym_data(syms.drop_last()[j]);
            assert(syms.drop_last()[j] == syms[j]);
        }
    }
}

/// The working map holds, at the value of a kept symbol that no later kept
/// symbol shares, exactly that symbol's data: the last writer wins.
pub proof fn lemma_sym_map_last_writer(
    syms: Seq<SymEntry>,
    ti: int,
    load: u64,
    tsize: u64,
    j: int,
)
    requires
        0 <= j < syms.len(),
        keeps(syms[j], ti, load, tsize),
        forall|k: int|
            j < k < syms.len() ==> !(keeps(syms[k], ti, load, tsize) && syms[k].value
                == syms[j].value),
    ensures
        sym_map(syms, ti, load, tsize).contains_key(syms[j].value),
        sym_map(syms, ti, load, tsize)[syms[j].value] == sym_data(syms[j]),
    decreases syms.len(),
{
    if j == syms.len() - 1 {
        assert(syms.last() == syms[j]);
    } else {
        assert(forall|k: int| 0 <= k < syms.len() - 1 ==> syms.drop_last()[k] == syms[k]);
        lemma_sym_map_last_writer(syms.drop_last(), ti, load, tsize, j);
        assert(syms.last() == syms[syms.len() - 1]);
    }
}

/// The module-qualified symbol name.
pub open spec fn qualified(module: Seq<char>, name: Seq<char>) -> Seq<char> {
    module + "."@ + name
}

/// What a correct emission for one module is: the entries of the working map,
/// in strictly ascending address order, complete, each relocated by `load`,
/// qualified by the module name, and its size inferred — the declared size
/// when nonzero, else stretched to the next entry or to the section end.
pub open spec fn is_resolution(
    m: Map<u64, SymData>,
    module: Seq<char>,
    load: u64,
    tsize: u64,
    out: Seq<ResolvedSymbol>,
) -> bool {
    &&& forall|i: int, j: int| 0 <= i < j < out.len() ==> out[i].addr < out[j].addr
    &&& forall|i: int|
        #![trigger out[i]]
        0 <= i < out.len() ==> {
            &&& load <= out[i].addr
            &&& m.contains_key((out[i].addr - load) as u64)
            &&& out[i].is_func == m[(out[i].addr - load) as u64].is_func
            &&& out[i].qualified_name@ == qualified(module, m[(out[i].addr - load) as u64].name)
            &&& out[i].size == (if m[(out[i].addr - load) as u64].size != 0 {
                m[(out[i].addr - load) as u64].size as int
            } else if i + 1 < out.len() {
                out[i + 1].addr - out[i].addr
            } else {
                load + tsize - out[i].addr
            })
        }
    &&& forall|v: u64| m.contains_key(v) ==> exists|i: int|
        0 <= i < out.len() && out[i].addr == load + v
}

/// What a whole-module resolution must yield: no `.text` section is the
/// `NoCodeSection` error; otherwise exactly the resolution of the working map
/// against that section's index and size.
pub open spec fn resolve_spec_ok(
    module: Seq<char>,
    load: u64,
    secs: Seq<Section>,
    syms: Seq<SymEntry>,
    r: Result<Vec<ResolvedSymbol>, ResolveError>,
) -> bool {
    match first_text(secs) {
        None => r == Err::<Vec<ResolvedSymbol>, ResolveError>(ResolveError::NoCodeSection),
        Some(ti) => r is Ok && is_resolution(
            sym_map(syms, ti, load, secs[ti].size),
            module,
            load,
            secs[ti].size,
            r.unwrap()@,
        ),
    }
}

/// Resolve one module from its parsed section and symbol tables.
pub fn resolve_object(
    module: &str,
    load: u64,
    secs: &Vec<Section>,
    syms: &Vec<SymEntry>,
) -> (r: Result<Vec<ResolvedSymbol>, ResolveError>)
    ensures
        resolve_spec_ok(module@, load, secs@, syms@, r),
{
    match find_text_section(secs) {
        None => Err(ResolveError::NoCodeSection),
        Some(p) => {
            let (ti, tsize) = p;
            Ok(resolve_symbols(module, load, ti, tsize, syms))
        },
    }
}

struct WorkItem {
    name: String,
    size: u64,
    is_func: bool,
}

impl View for WorkItem {
    type V = SymData;

    closed spec fn view(&self) -> SymData {
        SymData { name: self.name@, size: self.size, is_func: self.is_func }
    }
}

/// Resolve the symbols of one module, given the index and size of its `.text`
/// section: exactly the working map of the kept symbols, ordered by address,
/// sizes inferred.
pub fn resolve_symbols(
    module: &str,
    load: u64,
    text_index: usize,
    tsize: u64,
    syms: &Vec<SymEntry>,
) -> (out: Vec<ResolvedSymbol>)
    ensures
        is_resolution(
            sym_map(syms@, text_index as int, load, tsize),
            module@,
            load,
            tsize,
            out@,
        ),
{
    let ghost ti = text_index as int;
    let mut work: SortedMap<WorkItem> = SortedMap::new();
    let mut i: usize = 0;
    proof {
        assert(syms@.subrange(0, 0) =~= Seq::<SymEntry>::empty());
    }
    while i < syms.len()
        invariant
            0 <= i <= syms@.len(),
            ti == text_index as int,
            work.wf(),
            work@ == sym_map(syms@.subrange(0, i as int), ti, load, tsize),
        decreases syms@.len() - i,
    {
        proof {
            assert(syms@.subrange(0, i + 1).drop_last() =~= syms@.subrange(0, i as int));
            assert(syms@.subrange(0, i + 1).last() == syms@[i as int]);
        }
        let s = &syms[i];
        if s.shndx == text_index && (s.is_func || s.binding == STB_GLOBAL) && s.value < tsize
            && load <= u64::MAX - s.value {
            match &s.name {
                Some(n) => {
                    assert(keeps(syms@[i as int], ti, load, tsize));
                    work.insert(
                        s.value,
                        WorkItem { name: n.clone(), size: s.size, is_func: s.is_func },
                    );
                    proof {
                        assert(sym_data(syms@[i as int]) == SymData {
                            name: n@,
                            size: s.size,
                            is_func: s.is_func,
                        });
                    }
                },
                None => {
                    assert(!keeps(syms@[i as int], ti, load, tsize));
                },
            }
        } else {
            assert(!keeps(syms@[i as int], ti, load, tsize));
        }
        i = i + 1;
    }
    proof {
        assert(syms@.subrange(0, syms@.len() as int) =~= syms@);
    }
    let ghost m = sym_map(syms@, ti, load, tsize);
    let es = work.entries();
    proof {
        assert forall|i: int| 0 <= i < es@.len() implies es@[i].0 < tsize && load + es@[i].0
            <= 0xffff_ffff_ffff_ffffu64 by {
            assert(m.contains_key(es@[i].0));
            lemma_sym_map_source(syms@, ti, load, tsize, es@[i].0);
        }
    }
    let n = es.len();
    let mut out: Vec<ResolvedSymbol> = Vec::new();
    let mut k: usize = 0;
    while k < n
        invariant
            0 <= k <= n,
            n == es@.len(),
            ti == text_index as int,
            m == sym_map(syms@, ti, load, tsize),
            work@ == m,
            forall|i: int, j: int| 0 <= i < j < es@.len() ==> es@[i].0 < es@[j].0,
            forall|i: int|
                0 <= i < es@.len() ==> m.contains_key(es@[i].0) && m[es@[i].0] == es@[i].1@,
            forall|key: u64| m.contains_key(key) ==> has_key(es@, key),
            forall|i: int| 0 <= i < es@.len() ==> es@[i].0 < tsize && load + es@[i].0
                <= 0xffff_ffff_ffff_ffffu64,
            out@.len() == k,
            forall|i: int| 0 <= i < k ==> out@[i].addr == load + es@[i].0,
            forall|i: int| 0 <= i < k ==> out@[i].is_func == es@[i].1@.is_func,
            forall|i: int| 0 <= i < k ==> out@[i].qualified_name@ == qualified(
                module@,
                es@[i].1@.name,
            ),
            forall|i: int|
                0 <= i < k ==> out@[i].size == (if es@[i].1@.size != 0 {
                    es@[i].1@.size as int
                } else if i + 1 < es@.len() {
                    es@[i + 1].0 - es@[i].0
                } else {
                    tsize - es@[i].0
                }),
        decreases n - k,
    {
        let value = es[k].0;
        let item = &es[k].1;
        proof {
            assert(m.contains_key(es@[k as int].0));
            lemma_sym_map_source(syms@, ti, load, tsize, es@[k as int].0);
        }
        let addr = load + value;
        let size: u64 = if item.size != 0 {
            item.size
        } else if k + 1 < n {
            es[k + 1].0 - value
        } else {
            tsize - value
        };
        let mut q = String::from_str(module);
        q.append(".");
        q.append(item.name.as_str());
        out.push(ResolvedSymbol { addr, size, is_func: item.is_func, qualified_name: q });
        k = k + 1;
    }
    proof {
        assert forall|v: u64| m.contains_key(v) implies exists|i: int|
            0 <= i < out@.len() && out@[i].addr == load + v by {
            assert(has_key(es@, v));
            let i = choose|i: int| 0 <= i < es@.len() && es@[i].0 == v;
            assert(out@[i].addr == load + v);
        }
        assert forall|i: int, j: int| 0 <= i < j < out@.len() implies out@[i].addr
            < out@[j].addr by {
            assert(es@[i].0 < es@[j].0);
        }
        assert forall|i: int| 0 <= i < out@.len() implies {
            &&& load <= out@[i].addr
            &&& m.contains_key((out@[i].addr - load) as u64)
            &&& out@[i].is_func == m[(out@[i].addr - load) as u64].is_func
            &&& out@[i].qualified_name@ == qualified(module@, m[(out@[i].addr - load) as u64].name)
            &&& out@[i].size == (if m[(out@[i].addr - load) as u64].size != 0 {
                m[(out@[i].addr - load) as u64].size as int
            } else if i + 1 < out@.len() {
                out@[i + 1].addr - out@[i].addr
            } else {
                load + tsize - out@[i].addr
            })
        } by {
            assert((out@[i].addr - load) as u64 == es@[i].0);
            assert(m[es@[i].0] == es@[i].1@);
            if i + 1 < out@.len() {
                assert(out@[i + 1].addr == load + es@[i + 1].0);
            }
        }
    }
    out
}

} // verus!
