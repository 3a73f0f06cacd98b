use mdb_tianocore::hexnum::{hex_string, parse_hex};
use mdb_tianocore::scanner::{parse_line, tokenize, LogEvent};
use mdb_tianocore::table::scan_log;

fn strings(v: &[&str]) -> Vec<String> {
    v.iter().map(|s| s.to_string()).collect()
}

#[test]
fn tokenize_splits_on_whitespace() {
    let toks = tokenize("  Loading \t DXE  at 0x1000 ");
    assert_eq!(toks, strings(&["Loading", "DXE", "at", "0x1000"]));
}

#[test]
fn tokenize_empty_and_blank() {
    assert_eq!(tokenize(""), Vec::<String>::new());
    assert_eq!(tokenize("   \t  "), Vec::<String>::new());
}

#[test]
fn parse_hex_values() {
    assert_eq!(parse_hex("0"), Some(0));
    assert_eq!(parse_hex("1000"), Some(0x1000));
    assert_eq!(parse_hex("dedeadba5eball"), None);
    assert_eq!(parse_hex("DeadBeef"), Some(0xdead_beef));
    assert_eq!(parse_hex("ffffffffffffffff"), Some(u64::MAX));
}

#[test]
fn parse_hex_rejects_overflow() {
    assert_eq!(parse_hex("10000000000000000"), None);
    assert_eq!(parse_hex("ffffffffffffffff0"), None);
}

#[test]
fn parse_hex_rejects_junk() {
    assert_eq!(parse_hex(""), None);
    assert_eq!(parse_hex("0x10"), None);
    assert_eq!(parse_hex("+10"), None);
    assert_eq!(parse_hex("-10"), None);
    assert_eq!(parse_hex("12 4"), None);
}

#[test]
fn hex_string_renders_lowercase_minimal() {
    assert_eq!(hex_string(0), "0");
    assert_eq!(hex_string(0x1010), "1010");
    assert_eq!(hex_string(0xdead_beef), "deadbeef");
    assert_eq!(hex_string(u64::MAX), "ffffffffffffffff");
}

#[test]
fn hex_render_then_parse_round_trips() {
    for n in [0u64, 1, 15, 16, 0x1000, 0xdead_beef, u64::MAX] {
        assert_eq!(parse_hex(&hex_string(n)), Some(n));
    }
}

#[test]
fn load_line_parses() {
    let e = parse_line("Loading PEIM at 0x00005B4000 EntryPoint=0x00005B4400 PcdPeim.efi");
    match e {
        LogEvent::Load { addr, module } => {
            assert_eq!(addr, 0x5b4000);
            assert_eq!(module, "PcdPeim");
        }
        _ => panic!("expected a load event"),
    }
}

#[test]
fn failure_line_parses() {
    let e = parse_line("Error: Image at 00005B4000 start failed: Not Found");
    match e {
        LogEvent::Failure { addr } => assert_eq!(addr, 0x5b4000),
        _ => panic!("expected a failure event"),
    }
}

#[test]
fn unrelated_lines_ignored() {
    assert!(matches!(parse_line(""), LogEvent::Ignored));
    assert!(matches!(parse_line("Booting kernel"), LogEvent::Ignored));
    assert!(matches!(
        parse_line("Loading driver at 0x1000"),
        LogEvent::Ignored
    ));
}

#[test]
fn load_line_without_prefix_ignored() {
    // token 3 must carry the 0x prefix
    assert!(matches!(
        parse_line("Loading PEIM at 5B4000 EntryPoint=0x5B4400 PcdPeim.efi"),
        LogEvent::Ignored
    ));
}

#[test]
fn load_line_wrong_suffix_ignored() {
    assert!(matches!(
        parse_line("Loading PEIM at 0x5B4000 EntryPoint=0x5B4400 PcdPeim.so"),
        LogEvent::Ignored
    ));
}

#[test]
fn load_line_bad_address_ignored() {
    assert!(matches!(
        parse_line("Loading PEIM at 0xZZZZ EntryPoint=0x5B4400 PcdPeim.efi"),
        LogEvent::Ignored
    ));
    // a second 0x is not part of a hexadecimal numeral
    assert!(matches!(
        parse_line("Loading PEIM at 0x0x10 EntryPoint=0x5B4400 PcdPeim.efi"),
        LogEvent::Ignored
    ));
}

#[test]
fn failure_line_bad_address_ignored() {
    assert!(matches!(
        parse_line("Error: Image at 0x5B4000 start failed: x"),
        LogEvent::Ignored
    ));
}

#[test]
fn load_survives_unrelated_lines() {
    let lines = strings(&[
        "Loading PEIM at 0x1000 EntryPoint=0x1010 CorePeim.efi",
        "some chatter",
        "Loading DXE at 0x2000 EntryPoint=0x2040 DxeMain.efi",
        "more chatter",
    ]);
    let t = scan_log(&lines);
    let es = t.entries();
    assert_eq!(es.len(), 2);
    assert_eq!(es[0], (0x1000, "CorePeim".to_string()));
    assert_eq!(es[1], (0x2000, "DxeMain".to_string()));
}

#[test]
fn failure_retracts_earlier_load() {
    let lines = strings(&[
        "Loading PEIM at 0x1000 EntryPoint=0x1010 CorePeim.efi",
        "unrelated line one",
        "unrelated line two",
        "Error: Image at 1000 start failed: Aborted",
    ]);
    let t = scan_log(&lines);
    assert_eq!(t.entries().len(), 0);
}

#[test]
fn failure_without_load_is_noop() {
    let lines = strings(&[
        "Loading PEIM at 0x1000 EntryPoint=0x1010 CorePeim.efi",
        "Error: Image at 2000 start failed: Aborted",
    ]);
    let t = scan_log(&lines);
    let es = t.entries();
    assert_eq!(es.len(), 1);
    assert_eq!(es[0], (0x1000, "CorePeim".to_string()));
}

#[test]
fn later_load_overwrites_address() {
    let lines = strings(&[
        "Loading PEIM at 0x1000 EntryPoint=0x1010 First.efi",
        "Loading PEIM at 0x1000 EntryPoint=0x1010 Second.efi",
    ]);
    let t = scan_log(&lines);
    let es = t.entries();
    assert_eq!(es.len(), 1);
    assert_eq!(es[0], (0x1000, "Second".to_string()));
}

#[test]
fn reload_after_failure_stays() {
    let lines = strings(&[
        "Loading PEIM at 0x1000 EntryPoint=0x1010 First.efi",
        "Error: Image at 1000 start failed: Aborted",
        "Loading PEIM at 0x1000 EntryPoint=0x1010 Retry.efi",
    ]);
    let t = scan_log(&lines);
    let es = t.entries();
    assert_eq!(es.len(), 1);
    assert_eq!(es[0], (0x1000, "Retry".to_string()));
}

#[test]
fn entries_sorted_by_address() {
    let lines = strings(&[
        "Loading DXE at 0x3000 EntryPoint=0x3010 C.efi",
        "Loading DXE at 0x1000 EntryPoint=0x1010 A.efi",
        "Loading DXE at 0x2000 EntryPoint=0x2010 B.efi",
    ]);
    let t = scan_log(&lines);
    let es = t.entries();
    let addrs: Vec<u64> = es.iter().map(|e| e.0).collect();
    assert_eq!(addrs, vec![0x1000, 0x2000, 0x3000]);
}
