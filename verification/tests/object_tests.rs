//! Tests that feed real ELF images, built byte by byte, through the whole
//! module-processing pipeline.

use mdb_tianocore::object::process_module;
use mdb_tianocore::resolver::ResolveError;

struct SymSpec {
    name: &'static str,
    value: u64,
    size: u64,
    shndx: u16,
    is_func: bool,
    global: bool,
}

fn push_u16(v: &mut Vec<u8>, x: u16) {
    v.extend_from_slice(&x.to_le_bytes());
}

fn push_u32(v: &mut Vec<u8>, x: u32) {
    v.extend_from_slice(&x.to_le_bytes());
}

fn push_u64(v: &mut Vec<u8>, x: u64) {
    v.extend_from_slice(&x.to_le_bytes());
}

fn push_shdr(
    v: &mut Vec<u8>,
    name_off: u32,
    sh_type: u32,
    offset: u64,
    size: u64,
    link: u32,
    entsize: u64,
) {
    push_u32(v, name_off);
    push_u32(v, sh_type);
    push_u64(v, 0); // flags
    push_u64(v, 0); // addr
    push_u64(v, offset);
    push_u64(v, size);
    push_u32(v, link);
    push_u32(v, 0); // info
    push_u64(v, 1); // addralign
    push_u64(v, entsize);
}

/// Build a relocatable ELF64 image with sections
/// `[NULL, .text, .symtab, .strtab, .shstrtab]` and the given symbols, whose
/// `shndx` refers into that section table (`.text` is index 1).
fn build_elf(text_size: u64, syms: &[SymSpec]) -> Vec<u8> {
    // symbol string table
    let mut strtab: Vec<u8> = vec![0];
    let mut name_offs: Vec<u32> = Vec::new();
    for s in syms {
        name_offs.push(strtab.len() as u32);
        strtab.extend_from_slice(s.name.as_bytes());
        strtab.push(0);
    }
    // symbol table: one NULL symbol, then the given ones
    let mut symtab: Vec<u8> = vec![0; 24];
    for (i, s) in syms.iter().enumerate() {
        push_u32(&mut symtab, name_offs[i]);
        let bind: u8 = if s.global { 1 } else { 0 };
        let typ: u8 = if s.is_func { 2 } else { 1 };
        symtab.push((bind << 4) | typ);
        symtab.push(0); // st_other
        push_u16(&mut symtab, s.shndx);
        push_u64(&mut symtab, s.value);
        push_u64(&mut symtab, s.size);
    }
    // section-name string table
    let shstrtab: &[u8] = b"\0.text\0.symtab\0.strtab\0.shstrtab\0";
    let text_name: u32 = 1;
    let symtab_name: u32 = 7;
    let strtab_name: u32 = 15;
    let shstrtab_name: u32 = 23;

    let ehsize: u64 = 64;
    let text_off = ehsize;
    let symtab_off = text_off + text_size;
    let strtab_off = symtab_off + symtab.len() as u64;
    let shstr_off = strtab_off + strtab.len() as u64;
    let shoff = shstr_off + shstrtab.len() as u64;

    let mut v: Vec<u8> = Vec::new();
    // ELF header
    v.extend_from_slice(&[0x7f, b'E', b'L', b'F', 2, 1, 1, 0]);
    v.extend_from_slice(&[0; 8]);
    push_u16(&mut v, 1); // ET_REL
    push_u16(&mut v, 62); // EM_X86_64
    push_u32(&mut v, 1); // version
    push_u64(&mut v, 0); // entry
    push_u64(&mut v, 0); // phoff
    push_u64(&mut v, shoff);
    push_u32(&mut v, 0); // flags
    push_u16(&mut v, 64); // ehsize
    push_u16(&mut v, 0); // phentsize
    push_u16(&mut v, 0); // phnum
    push_u16(&mut v, 64); // shentsize
    push_u16(&mut v, 5); // shnum
    push_u16(&mut v, 4); // shstrndx
    assert_eq!(v.len(), 64);
    // section contents
    v.extend(std::iter::repeat(0x90).take(text_size as usize));
    v.extend_from_slice(&symtab);
    v.extend_from_slice(&strtab);
    v.extend_from_slice(shstrtab);
    // section headers
    push_shdr(&mut v, 0, 0, 0, 0, 0, 0);
    push_shdr(&mut v, text_name, 1, text_off, text_size, 0, 0);
    push_shdr(&mut v, symtab_name, 2, symtab_off, symtab.len() as u64, 3, 24);
    push_shdr(&mut v, strtab_name, 3, strtab_off, strtab.len() as u64, 0, 0);
    push_shdr(&mut v, shstrtab_name, 3, shstr_off, shstrtab.len() as u64, 0, 0);
    v
}

#[test]
fn whole_pipeline_on_a_real_object() {
    let data = build_elf(
        0x100,
        &[
            SymSpec { name: "Foo", value: 0x10, size: 0x20, shndx: 1, is_func: true, global: false },
            SymSpec { name: "Bar", value: 0x40, size: 0, shndx: 1, is_func: false, global: true },
            SymSpec { name: "Skip", value: 0x60, size: 4, shndx: 2, is_func: true, global: true },
        ],
    );
    let lines = process_module("DXE", 0x1000, &data).unwrap();
    assert_eq!(
        lines,
        vec![
            "1010::nmadd -f -s 20 \"DXE.Foo\"".to_string(),
            "1040::nmadd -o -s c0 \"DXE.Bar\"".to_string(),
        ]
    );
}

#[test]
fn object_without_text_section_reports_missing_section() {
    // no symbols needed; rename .text by pointing its header name elsewhere
    let mut data = build_elf(0x10, &[]);
    // the .text header's sh_name sits right after the first (null) header
    let shoff = u64::from_le_bytes(data[0x28..0x30].try_into().unwrap()) as usize;
    let text_hdr = shoff + 64;
    // point the name at ".symtab" instead
    data[text_hdr..text_hdr + 4].copy_from_slice(&7u32.to_le_bytes());
    let r = process_module("DXE", 0x1000, &data);
    assert_eq!(r.unwrap_err(), ResolveError::NoCodeSection);
}

#[test]
fn garbage_bytes_report_invalid_object() {
    let data: Vec<u8> = vec![1, 2, 3, 4, 5, 6, 7, 8];
    let r = process_module("DXE", 0x1000, &data);
    assert_eq!(r.unwrap_err(), ResolveError::MissingOrInvalidObject);
}
