use mdb_tianocore::render::{render_line, render_lines};
use mdb_tianocore::resolver::{
    find_text_section, resolve_object, resolve_symbols, ResolveError, ResolvedSymbol, Section,
    SymEntry, STB_GLOBAL,
};
use mdb_tianocore::table::scan_log;

const STB_LOCAL: u8 = 0;

fn sec(name: Option<&str>, size: u64) -> Section {
    Section {
        name: name.map(|s| s.to_string()),
        size,
    }
}

fn sym(name: Option<&str>, value: u64, size: u64, shndx: usize, is_func: bool, binding: u8) -> SymEntry {
    SymEntry {
        name: name.map(|s| s.to_string()),
        value,
        size,
        shndx,
        is_func,
        binding,
    }
}

#[test]
fn finds_first_text_section() {
    let secs = vec![sec(None, 0), sec(Some(".data"), 8), sec(Some(".text"), 0x40)];
    assert_eq!(find_text_section(&secs), Some((2, 0x40)));
}

#[test]
fn section_name_must_match_exactly() {
    let secs = vec![sec(Some(".text.init"), 0x40), sec(Some("text"), 0x40)];
    assert_eq!(find_text_section(&secs), None);
}

#[test]
fn missing_text_section_is_error() {
    let secs = vec![sec(None, 0), sec(Some(".data"), 8)];
    assert_eq!(find_text_section(&secs), None);
    let r = resolve_object("Mod", 0x1000, &secs, &vec![]);
    assert_eq!(r.unwrap_err(), ResolveError::NoCodeSection);
}

#[test]
fn sizes_stretch_to_next_entry_and_section_end() {
    // .text spans [0, 0x100); declared sizes A:0x10, B:0, C:0
    let secs = vec![sec(None, 0), sec(Some(".text"), 0x100)];
    let syms = vec![
        sym(Some("A"), 0x0, 0x10, 1, true, STB_LOCAL),
        sym(Some("B"), 0x20, 0, 1, true, STB_LOCAL),
        sym(Some("C"), 0x50, 0, 1, true, STB_LOCAL),
    ];
    let out = resolve_object("M", 0, &secs, &syms).unwrap();
    assert_eq!(out.len(), 3);
    assert_eq!((out[0].addr, out[0].size), (0x0, 0x10));
    assert_eq!((out[1].addr, out[1].size), (0x20, 0x30));
    assert_eq!((out[2].addr, out[2].size), (0x50, 0xb0));
}

#[test]
fn symbols_outside_text_index_never_emitted() {
    let secs = vec![sec(None, 0), sec(Some(".text"), 0x100), sec(Some(".data"), 0x100)];
    let syms = vec![
        sym(Some("Good"), 0x10, 4, 1, true, STB_GLOBAL),
        sym(Some("Data"), 0x20, 4, 2, true, STB_GLOBAL),
        sym(Some("Other"), 0x30, 4, 0, true, STB_GLOBAL),
    ];
    let out = resolve_object("M", 0, &secs, &syms).unwrap();
    assert_eq!(out.len(), 1);
    assert_eq!(out[0].qualified_name, "M.Good");
}

#[test]
fn kind_flag_follows_function_type_not_binding() {
    let secs = vec![sec(Some(".text"), 0x100)];
    let syms = vec![
        // a global non-function: kept, flagged as an object
        sym(Some("AsmHelper"), 0x0, 4, 0, false, STB_GLOBAL),
        // a local function: kept, flagged as a function
        sym(Some("LocalFn"), 0x10, 4, 0, true, STB_LOCAL),
        // a global function: still a function
        sym(Some("GlobalFn"), 0x20, 4, 0, true, STB_GLOBAL),
    ];
    let out = resolve_object("M", 0x1000, &secs, &syms).unwrap();
    let lines = render_lines(&out);
    assert_eq!(lines[0], "1000::nmadd -o -s 4 \"M.AsmHelper\"");
    assert_eq!(lines[1], "1010::nmadd -f -s 4 \"M.LocalFn\"");
    assert_eq!(lines[2], "1020::nmadd -f -s 4 \"M.GlobalFn\"");
}

#[test]
fn local_non_function_dropped() {
    let secs = vec![sec(Some(".text"), 0x100)];
    let syms = vec![sym(Some("quiet"), 0x0, 4, 0, false, STB_LOCAL)];
    let out = resolve_object("M", 0, &secs, &syms).unwrap();
    assert_eq!(out.len(), 0);
}

#[test]
fn unresolved_name_dropped() {
    let secs = vec![sec(Some(".text"), 0x100)];
    let syms = vec![
        sym(None, 0x0, 4, 0, true, STB_GLOBAL),
        sym(Some("Named"), 0x10, 4, 0, true, STB_GLOBAL),
    ];
    let out = resolve_object("M", 0, &secs, &syms).unwrap();
    assert_eq!(out.len(), 1);
    assert_eq!(out[0].qualified_name, "M.Named");
}

#[test]
fn duplicate_address_keeps_last_symbol() {
    let secs = vec![sec(Some(".text"), 0x100)];
    let syms = vec![
        sym(Some("first"), 0x40, 8, 0, true, STB_LOCAL),
        sym(Some("second"), 0x40, 4, 0, false, STB_GLOBAL),
    ];
    let out = resolve_object("M", 0x1000, &secs, &syms).unwrap();
    assert_eq!(out.len(), 1);
    assert_eq!(out[0].addr, 0x1040);
    assert_eq!(out[0].size, 4);
    assert!(!out[0].is_func);
    assert_eq!(out[0].qualified_name, "M.second");
}

#[test]
fn symbols_ordered_by_address() {
    let secs = vec![sec(Some(".text"), 0x100)];
    let syms = vec![
        sym(Some("late"), 0x80, 4, 0, true, STB_LOCAL),
        sym(Some("early"), 0x10, 4, 0, true, STB_LOCAL),
        sym(Some("middle"), 0x40, 4, 0, true, STB_LOCAL),
    ];
    let out = resolve_object("M", 0, &secs, &syms).unwrap();
    let addrs: Vec<u64> = out.iter().map(|r| r.addr).collect();
    assert_eq!(addrs, vec![0x10, 0x40, 0x80]);
}

#[test]
fn line_matches_output_grammar_exactly() {
    let r = ResolvedSymbol {
        addr: 0xdead_beef,
        size: 0x2a,
        is_func: true,
        qualified_name: "Mod.Sym".to_string(),
    };
    assert_eq!(render_line(&r), "deadbeef::nmadd -f -s 2a \"Mod.Sym\"");
    let r2 = ResolvedSymbol {
        addr: 0,
        size: 0,
        is_func: false,
        qualified_name: "a.b".to_string(),
    };
    assert_eq!(render_line(&r2), "0::nmadd -o -s 0 \"a.b\"");
}

#[test]
fn end_to_end_single_module() {
    let lines = vec!["Loading DXE at 0x1000 EntryPoint=0x1010 DXE.efi".to_string()];
    let table = scan_log(&lines);
    let es = table.entries();
    assert_eq!(es.len(), 1);
    let (addr, base) = (es[0].0, es[0].1.clone());
    assert_eq!(addr, 0x1000);
    assert_eq!(base, "DXE");
    let secs = vec![sec(Some(".text"), 0x100)];
    let syms = vec![sym(Some("Foo"), 0x10, 0x20, 0, true, STB_LOCAL)];
    let out = resolve_object(&base, addr, &secs, &syms).unwrap();
    let rendered = render_lines(&out);
    assert_eq!(rendered, vec!["1010::nmadd -f -s 20 \"DXE.Foo\"".to_string()]);
}

#[test]
fn resolve_symbols_direct() {
    let syms = vec![sym(Some("only"), 0x8, 0, 0, true, STB_LOCAL)];
    let out = resolve_symbols("K", 0x100, 0, 0x10, &syms);
    assert_eq!(out.len(), 1);
    assert_eq!(out[0].addr, 0x108);
    assert_eq!(out[0].size, 0x8);
}
