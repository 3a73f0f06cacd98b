//! The properties the library promises beyond the individual contracts: how
//! scanned events shape the final load mapping, and what the emitted entries
//! owe to the object's symbol table.

use vstd::prelude::*;
use vstd::map::*;
use crate::scanner::{spec_parse_line, SpecEvent};
use crate::table::{apply_event, scan_map};
use crate::resolver::{
    SymEntry, SymData, ResolvedSymbol, keeps, sym_map, sym_data, is_resolution, qualified,
    lemma_sym_map_source, lemma_sym_map_last_writer,
};
use crate::render::{spec_line, flag_seq};
use crate::hexnum::hex_render;
use crate::object::process_spec_ok;

verus! {

/// A well-formed load line followed by no failure line at its address leaves
/// that address present in the final mapping, however many other lines follow.
pub proof fn lemma_load_address_persists(lines: Seq<Seq<char>>, i: int, addr: u64, module: Seq<char>)
    requires
        0 <= i < lines.len(),
        spec_parse_line(lines[i]) == (SpecEvent::Load { addr, module }),
        forall|j: int|
            i < j < lines.len() ==> !((#[trigger] spec_parse_line(lines[j]))
                matches SpecEvent::Failure { addr: a } && a == addr),
    ensures
        scan_map(lines).contains_key(addr),
    decreases lines.len(),
{
    if i == lines.len() - 1 {
        assert(lines.last() == lines[i]);
    } else {
        let prefix = lines.drop_last();
        assert(forall|k: int| 0 <= k < prefix.len() ==> prefix[k] == lines[k]);
        lemma_load_address_persists(prefix, i, addr, module);
        let e = spec_parse_line(lines.last());
        assert(spec_parse_line(lines[lines.len() - 1]) == e);
        match e {
            SpecEvent::Load { addr: a, module: m } => {},
            SpecEvent::Failure { addr: a } => {
                assert(a != addr);
            },
            SpecEvent::Ignored => {},
        }
    }
}

/// A well-formed load line whose address no later line retracts or reloads
/// leaves exactly its module name, suffix stripped, in the final mapping.
pub proof fn lemma_load_persists(lines: Seq<Seq<char>>, i: int, addr: u64, module: Seq<char>)
    requires
        0 <= i < lines.len(),
        spec_parse_line(lines[i]) == (SpecEvent::Load { addr, module }),
        forall|j: int|
            i < j < lines.len() ==> !((#[trigger] spec_parse_line(lines[j]))
                matches SpecEvent::Failure { addr: a } && a == addr),
        forall|j: int|
            i < j < lines.len() ==> !((#[trigger] spec_parse_line(lines[j]))
                matches SpecEvent::Load { addr: a, module: m } && a == addr),
    ensures
        scan_map(lines).contains_key(addr),
        scan_map(lines)[addr] == module,
    decreases lines.len(),
{
    if i == lines.len() - 1 {
        assert(lines.last() == lines[i]);
    } else {
        let prefix = lines.drop_last();
        assert(forall|k: int| 0 <= k < prefix.len() ==> prefix[k] == lines[k]);
        lemma_load_persists(prefix, i, addr, module);
        let e = spec_parse_line(lines.last());
        assert(spec_parse_line(lines[lines.len() - 1]) == e);
        match e {
            SpecEvent::Load { addr: a, module: m } => {
                assert(a != addr);
            },
            SpecEvent::Failure { addr: a } => {
                assert(a != addr);
            },
            SpecEvent::Ignored => {},
        }
    }
}

/// A failure line retracts the entry at its address for good, unless a later
/// load line reuses the address: however many unrelated lines follow, the
/// address is absent from the final mapping.
pub proof fn lemma_failure_retracts(lines: Seq<Seq<char>>, j: int, addr: u64)
    requires
        0 <= j < lines.len(),
        spec_parse_line(lines[j]) == (SpecEvent::Failure { addr }),
        forall|k: int|
            j < k < lines.len() ==> !((#[trigger] spec_parse_line(lines[k]))
                matches SpecEvent::Load { addr: a, module: m } && a == addr),
    ensures
        !scan_map(lines).contains_key(addr),
    decreases lines.len(),
{
    if j == lines.len() - 1 {
        assert(lines.last() == lines[j]);
    } else {
        let prefix = lines.drop_last();
        assert(forall|k: int| 0 <= k < prefix.len() ==> prefix[k] == lines[k]);
        lemma_failure_retracts(prefix, j, addr);
        let e = spec_parse_line(lines.last());
        assert(spec_parse_line(lines[lines.len() - 1]) == e);
        match e {
            SpecEvent::Load { addr: a, module: m } => {
                assert(a != addr);
            },
            SpecEvent::Failure { addr: a } => {},
            SpecEvent::Ignored => {},
        }
    }
}

/// A failure event at an address with no current entry is a no-op: it neither
/// fails nor changes the mapping at any key.
pub proof fn lemma_failure_without_entry_noop(m: Map<u64, Seq<char>>, addr: u64)
    requires
        !m.contains_key(addr),
    ensures
        apply_event(m, SpecEvent::Failure { addr }) == m,
{
    assert_maps_equal!(m.remove(addr), m, k => {});
}

/// Every emitted entry stems from a kept symbol, confined by index to the
/// `.text` section: nothing outside that section is ever emitted.
pub proof fn lemma_only_text_section(
    syms: Seq<SymEntry>,
    ti: int,
    load: u64,
    tsize: u64,
    module: Seq<char>,
    out: Seq<ResolvedSymbol>,
    i: int,
)
    requires
        is_resolution(sym_map(syms, ti, load, tsize), module, load, tsize, out),
        0 <= i < out.len(),
    ensures
        exists|j: int|
            0 <= j < syms.len() && (#[trigger] keeps(syms[j], ti, load, tsize)) && syms[j].shndx
                == ti && out[i].addr == load + syms[j].value,
{
    let m = sym_map(syms, ti, load, tsize);
    let v = (out[i].addr - load) as u64;
    assert(m.contains_key(v));
    lemma_sym_map_source(syms, ti, load, tsize, v);
    let j = choose|j: int|
        0 <= j < syms.len() && keeps(syms[j], ti, load, tsize) && syms[j].value == v && m[v]
            == sym_data(syms[j]);
    assert(keeps(syms[j], ti, load, tsize) && syms[j].shndx == ti && out[i].addr == load
        + syms[j].value);
}

/// Every emitted address lies within the module's code span,
/// `[load, load + tsize)`: the section confinement holds after relocation.
pub proof fn lemma_addresses_in_range(
    syms: Seq<SymEntry>,
    ti: int,
    load: u64,
    tsize: u64,
    module: Seq<char>,
    out: Seq<ResolvedSymbol>,
    i: int,
)
    requires
        is_resolution(sym_map(syms, ti, load, tsize), module, load, tsize, out),
        0 <= i < out.len(),
    ensures
        load <= out[i].addr < load + tsize,
{
    let m = sym_map(syms, ti, load, tsize);
    let v = (out[i].addr - load) as u64;
    assert(m.contains_key(v));
    lemma_sym_map_source(syms, ti, load, tsize, v);
    let j = choose|j: int|
        0 <= j < syms.len() && keeps(syms[j], ti, load, tsize) && syms[j].value == v && m[v]
            == sym_data(syms[j]);
    assert(syms[j].value < tsize);
}

/// The kind flag of an emitted line sits right after the fixed directive text
/// and is `f` exactly for a function entry, `o` for any other.
pub proof fn lemma_kind_flag(r: ResolvedSymbol)
    ensures
        flag_seq(r.is_func) == seq![if r.is_func { 'f' } else { 'o' }],
        spec_line(r)[hex_render(r.addr as int).len() as int + 9] == (if r.is_func {
            'f'
        } else {
            'o'
        }),
{
    reveal_strlit("f");
    reveal_strlit("o");
    reveal_strlit("::nmadd -");
    assert(("::nmadd -"@).len() == 9);
    assert(flag_seq(r.is_func) =~= seq![if r.is_func { 'f' } else { 'o' }]);
    let a = hex_render(r.addr as int);
    let p = a.len() as int + 9;
    let abf = a + "::nmadd -"@ + flag_seq(r.is_func);
    assert(abf[p] == (if r.is_func { 'f' } else { 'o' }));
    let s1 = abf + " -s "@;
    let s2 = s1 + hex_render(r.size as int);
    let s3 = s2 + " \""@;
    let s4 = s3 + r.qualified_name@;
    let s5 = s4 + "\""@;
    assert(s1[p] == abf[p]);
    assert(s2[p] == s1[p]);
    assert(s3[p] == s2[p]);
    assert(s4[p] == s3[p]);
    assert(s5[p] == s4[p]);
    assert(spec_line(r) == s5);
}

/// A symbol emitted with no later kept symbol at its address is emitted
/// exactly once — a later symbol at the same address would have replaced it —
/// with its own function flag, whatever its binding, and its own name.
pub proof fn lemma_last_writer_emitted(
    syms: Seq<SymEntry>,
    ti: int,
    load: u64,
    tsize: u64,
    module: Seq<char>,
    out: Seq<ResolvedSymbol>,
    j: int,
)
    requires
        is_resolution(sym_map(syms, ti, load, tsize), module, load, tsize, out),
        0 <= j < syms.len(),
        keeps(syms[j], ti, load, tsize),
        forall|k: int|
            j < k < syms.len() ==> !((#[trigger] keeps(syms[k], ti, load, tsize)) && syms[k].value
                == syms[j].value),
    ensures
        exists|i: int| 0 <= i < out.len() && (#[trigger] out[i].addr) == load + syms[j].value,
        forall|i1: int, i2: int|
            0 <= i1 < out.len() && 0 <= i2 < out.len() && out[i1].addr == load + syms[j].value
                && out[i2].addr == load + syms[j].value ==> i1 == i2,
        forall|i: int|
            0 <= i < out.len() && (#[trigger] out[i].addr) == load + syms[j].value ==> {
                &&& out[i].is_func == syms[j].is_func
                &&& out[i].qualified_name@ == qualified(module, syms[j].name.unwrap()@)
            },
{
    let m = sym_map(syms, ti, load, tsize);
    let v = syms[j].value;
    lemma_sym_map_last_writer(syms, ti, load, tsize, j);
    assert(m.contains_key(v));
    assert(m[v] == sym_data(syms[j]));
    assert forall|i1: int, i2: int|
        0 <= i1 < out.len() && 0 <= i2 < out.len() && out[i1].addr == load + v && out[i2].addr
            == load + v implies i1 == i2 by {
        if i1 < i2 {
            assert(out[i1].addr < out[i2].addr);
        }
        if i2 < i1 {
            assert(out[i2].addr < out[i1].addr);
        }
    }
    assert forall|i: int|
        0 <= i < out.len() && (#[trigger] out[i].addr) == load + v implies {
        &&& out[i].is_func == syms[j].is_func
        &&& out[i].qualified_name@ == qualified(module, syms[j].name.unwrap()@)
    } by {
        assert((out[i].addr - load) as u64 == v);
    }
}

proof fn lemma_resolution_addrs_agree(
    m: Map<u64, SymData>,
    module: Seq<char>,
    load: u64,
    tsize: u64,
    out1: Seq<ResolvedSymbol>,
    out2: Seq<ResolvedSymbol>,
    i: int,
)
    requires
        is_resolution(m, module, load, tsize, out1),
        is_resolution(m, module, load, tsize, out2),
        0 <= i < out1.len(),
        0 <= i < out2.len(),
        forall|k: int| 0 <= k < i ==> out1[k].addr == out2[k].addr,
    ensures
        out1[i].addr == out2[i].addr,
{
    let v2 = (out2[i].addr - load) as u64;
    assert(m.contains_key(v2));
    let j = choose|j: int| 0 <= j < out1.len() && out1[j].addr == load + v2;
    assert(out1[j].addr == out2[i].addr);
    if j < i {
        assert(out2[j].addr == out1[j].addr);
        assert(out2[j].addr < out2[i].addr);
        assert(false);
    }
    assert(out1[i].addr <= out1[j].addr);
    let v1 = (out1[i].addr - load) as u64;
    assert(m.contains_key(v1));
    let j2 = choose|j2: int| 0 <= j2 < out2.len() && out2[j2].addr == load + v1;
    assert(out2[j2].addr == out1[i].addr);
    if j2 < i {
        assert(out1[j2].addr == out2[j2].addr);
        assert(out1[j2].addr < out1[i].addr);
        assert(false);
    }
    assert(out2[i].addr <= out2[j2].addr);
}

proof fn lemma_resolution_addrs_prefix(
    m: Map<u64, SymData>,
    module: Seq<char>,
    load: u64,
    tsize: u64,
    out1: Seq<ResolvedSymbol>,
    out2: Seq<ResolvedSymbol>,
    n: int,
)
    requires
        is_resolution(m, module, load, tsize, out1),
        is_resolution(m, module, load, tsize, out2),
        0 <= n <= out1.len(),
        n <= out2.len(),
    ensures
        forall|k: int| 0 <= k < n ==> out1[k].addr == out2[k].addr,
    decreases n,
{
    if n > 0 {
        lemma_resolution_addrs_prefix(m, module, load, tsize, out1, out2, n - 1);
        lemma_resolution_addrs_agree(m, module, load, tsize, out1, out2, n - 1);
    }
}

/// The emission for one module is deterministic: any two outputs that resolve
/// the same working map agree entry for entry — address, size, kind flag and
/// qualified name.
pub proof fn lemma_resolution_unique(
    m: Map<u64, SymData>,
    module: Seq<char>,
    load: u64,
    tsize: u64,
    out1: Seq<ResolvedSymbol>,
    out2: Seq<ResolvedSymbol>,
)
    requires
        is_resolution(m, module, load, tsize, out1),
        is_resolution(m, module, load, tsize, out2),
    ensures
        out1.len() == out2.len(),
        forall|i: int|
            0 <= i < out1.len() ==> {
                &&& out1[i].addr == out2[i].addr
                &&& out1[i].size == out2[i].size
                &&& out1[i].is_func == out2[i].is_func
                &&& out1[i].qualified_name@ == out2[i].qualified_name@
            },
{
    let n = if out1.len() <= out2.len() {
        out1.len() as int
    } else {
        out2.len() as int
    };
    lemma_resolution_addrs_prefix(m, module, load, tsize, out1, out2, n);
    if out1.len() > n {
        let v = (out1[n].addr - load) as u64;
        assert(m.contains_key(v));
        let j = choose|j: int| 0 <= j < out2.len() && out2[j].addr == load + v;
        assert(out1[j].addr == out2[j].addr);
        assert(out1[j].addr < out1[n].addr);
        assert(false);
    }
    if out2.len() > n {
        let v = (out2[n].addr - load) as u64;
        assert(m.contains_key(v));
        let j = choose|j: int| 0 <= j < out1.len() && out1[j].addr == load + v;
        assert(out2[j].addr == out1[j].addr);
        assert(out2[j].addr < out2[n].addr);
        assert(false);
    }
    assert forall|i: int| 0 <= i < out1.len() implies {
        &&& out1[i].addr == out2[i].addr
        &&& out1[i].size == out2[i].size
        &&& out1[i].is_func == out2[i].is_func
        &&& out1[i].qualified_name@ == out2[i].qualified_name@
    } by {
        assert(out1[i].addr == out2[i].addr);
        let v = (out1[i].addr - load) as u64;
        assert(m.contains_key(v));
        if i + 1 < out1.len() {
            assert(out1[i + 1].addr == out2[i + 1].addr);
        }
    }
}

/// Processing a module is a pure one-shot transformation: two results that
/// both meet the processing contract for the same name, load address and
/// object bytes fail alike or print the very same lines.
pub proof fn lemma_process_deterministic(
    module: Seq<char>,
    load: u64,
    data: Seq<u8>,
    r1: Result<Vec<String>, crate::resolver::ResolveError>,
    r2: Result<Vec<String>, crate::resolver::ResolveError>,
)
    requires
        process_spec_ok(module, load, data, r1),
        process_spec_ok(module, load, data, r2),
    ensures
        r1 is Err ==> r1 == r2,
        r1 is Ok ==> r2 is Ok && r1.unwrap()@.len() == r2.unwrap()@.len() && forall|i: int|
            0 <= i < r1.unwrap()@.len() ==> r1.unwrap()@[i]@ == r2.unwrap()@[i]@,
{
    match crate::object::parsed_object(data) {
        None => {},
        Some(obj) => {
            match crate::resolver::first_text(obj.0) {
                None => {},
                Some(ti) => {
                    let m = sym_map(obj.1, ti, load, obj.0[ti].size);
                    let tsize = obj.0[ti].size;
                    let rs1 = choose|rs: Seq<ResolvedSymbol>|
                        {
                            &&& #[trigger] is_resolution(m, module, load, tsize, rs)
                            &&& r1.unwrap()@.len() == rs.len()
                            &&& forall|i: int|
                                0 <= i < rs.len() ==> r1.unwrap()@[i]@ == spec_line(rs[i])
                        };
                    let rs2 = choose|rs: Seq<ResolvedSymbol>|
                        {
                            &&& #[trigger] is_resolution(m, module, load, tsize, rs)
                            &&& r2.unwrap()@.len() == rs.len()
                            &&& forall|i: int|
                                0 <= i < rs.len() ==> r2.unwrap()@[i]@ == spec_line(rs[i])
                        };
                    lemma_resolution_unique(m, module, load, tsize, rs1, rs2);
                    assert forall|i: int|
                        0 <= i < r1.unwrap()@.len() implies r1.unwrap()@[i]@
                        == r2.unwrap()@[i]@ by {
                        assert(spec_line(rs1[i]) == spec_line(rs2[i]));
                    }
                },
            }
        },
    }
}

} // verus!
