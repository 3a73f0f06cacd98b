//! Reading a module's debug object. Parsing the ELF container is entrusted to
//! goblin behind the two declarations here; everything downstream of the
//! parsed tables is verified.

use vstd::prelude::*;
use crate::resolver::{
    Section, SymEntry, ResolvedSymbol, ResolveError, resolve_object, first_text, sym_map,
    is_resolution,
};
use crate::render::{render_lines, spec_line};

verus! {

/// The section table and the symbol table that the bytes of a debug object
/// hold, when they parse as an ELF image: a function of the bytes alone.
pub uninterp spec fn parsed_object(data: Seq<u8>) -> Option<(Seq<Section>, Seq<SymEntry>)>;

/// Relies on goblin::elf::Elf::parse and goblin::strtab::Strtab::get_at: the
/// object's section headers in table order, each with its name as resolved
/// through the section-header string table, and its declared size.
#[verifier::external_body]
fn parse_sections(data: &[u8]) -> (r: Option<Vec<Section>>)
    ensures
        r is Some <==> parsed_object(data@) is Some,
        r is Some ==> r.unwrap()@ == parsed_object(data@).unwrap().0,
{
    let elf = match goblin::elf::Elf::parse(data) { Ok(e) => e, Err(_) => return None };
    let mut out: Vec<Section> = Vec::new();
    for h in elf.section_headers.iter() {
        let name = match elf.shdr_strtab.get_at(h.sh_name) { Some(s) => Some(s.to_string()), None => None };
        out.push(Section { name, size: h.sh_size });
    }
    Some(out)
}

/// Relies on goblin::elf::Elf::parse, goblin::elf::sym::Sym::is_function and
/// st_bind, and goblin::strtab::Strtab::get_at: the object's symbol table in
/// iteration order, each entry's resolved name, value, declared size, section
/// index, function-type flag and binding.
#[verifier::external_body]
fn parse_symbols(data: &[u8]) -> (r: Option<Vec<SymEntry>>)
    ensures
        r is Some <==> parsed_object(data@) is Some,
        r is Some ==> r.unwrap()@ == parsed_object(data@).unwrap().1,
{
    let elf = match goblin::elf::Elf::parse(data) { Ok(e) => e, Err(_) => return None };
    let mut out: Vec<SymEntry> = Vec::new();
    for s in elf.syms.iter() {
        let name = match elf.strtab.get_at(s.st_name) { Some(n) => Some(n.to_string()), None => None };
        out.push(SymEntry {
            name, value: s.st_value, size: s.st_size, shndx: s.st_shndx,
            is_func: s.is_function(), binding: s.st_bind(),
        });
    }
    Some(out)
}

/// What processing one module's object bytes yields: the parse failure error
/// when the bytes are not an ELF image, the missing-section error when no
/// `.text` section exists, and otherwise the rendered lines of the module's
/// symbol resolution.
pub open spec fn process_spec_ok(
    module: Seq<char>,
    load: u64,
    data: Seq<u8>,
    r: Result<Vec<String>, ResolveError>,
) -> bool {
    match parsed_object(data) {
        None => r == Err::<Vec<String>, ResolveError>(ResolveError::MissingOrInvalidObject),
        Some(obj) => match first_text(obj.0) {
            None => r == Err::<Vec<String>, ResolveError>(ResolveError::NoCodeSection),
            Some(ti) => r is Ok && exists|rs: Seq<ResolvedSymbol>|
                {
                    &&& #[trigger] is_resolution(
                        sym_map(obj.1, ti, load, obj.0[ti].size),
                        module,
                        load,
                        obj.0[ti].size,
                        rs,
                    )
                    &&& r.unwrap()@.len() == rs.len()
                    &&& forall|i: int| 0 <= i < rs.len() ==> r.unwrap()@[i]@ == spec_line(rs[i])
                },
        },
    }
}

/// Process one module: parse its debug object's bytes, resolve its symbols
/// against the load address, and render the directive lines.
pub fn process_module(module: &str, load: u64, data: &[u8]) -> (r: Result<
    Vec<String>,
    ResolveError,
>)
    ensures
        process_spec_ok(module@, load, data@, r),
{
    let secs = match parse_sections(data) {
        Some(s) => s,
        None => {
            return Err(ResolveError::MissingOrInvalidObject);
        },
    };
    let syms = match parse_symbols(data) {
        Some(s) => s,
        None => {
            return Err(ResolveError::MissingOrInvalidObject);
        },
    };
    match resolve_object(module, load, &secs, &syms) {
        Ok(rs) => {
            let lines = render_lines(&rs);
            proof {
                let obj = parsed_object(data@).unwrap();
                let ti = first_text(obj.0).unwrap();
                assert(is_resolution(
                    sym_map(obj.1, ti, load, obj.0[ti].size),
                    module@,
                    load,
                    obj.0[ti].size,
                    rs@,
                ));
            }
            Ok(lines)
        },
        Err(e) => Err(e),
    }
}

} // verus!
