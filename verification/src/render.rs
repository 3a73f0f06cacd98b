//! Formatting resolved symbols as debugger directives, one line per symbol.

use vstd::prelude::*;
use crate::hexnum::{hex_render, hex_string};
use crate::resolver::ResolvedSymbol;

verus! {

/// The kind flag: `f` for a function symbol, `o` for any other.
pub open spec fn flag_seq(is_func: bool) -> Seq<char> {
    if is_func {
        "f"@
    } else {
        "o"@
    }
}

/// The exact output line for one resolved symbol:
/// `<hex-address>::nmadd -<f|o> -s <hex-size> "<qualified name>"`,
/// both numbers in minimal lowercase hexadecimal without a prefix.
pub open spec fn spec_line(r: ResolvedSymbol) -> Seq<char> {
    hex_render(r.addr as int) + "::nmadd -"@ + flag_seq(r.is_func) + " -s "@ + hex_render(
        r.size as int,
    ) + " \""@ + r.qualified_name@ + "\""@
}

/// Render one resolved symbol as its directive line.
pub fn render_line(r: &ResolvedSymbol) -> (s: String)
    ensures
        s@ == spec_line(*r),
{
    let mut s = hex_string(r.addr);
    s.append("::nmadd -");
    if r.is_func {
        s.append("f");
    } else {
        s.append("o");
    }
    s.append(" -s ");
    let sz = hex_string(r.size);
    s.append(sz.as_str());
    s.append(" \"");
    s.append(r.qualified_name.as_str());
    s.append("\"");
    s
}

/// Render a module's resolved symbols, in order.
pub fn render_lines(rs: &Vec<ResolvedSymbol>) -> (lines: Vec<String>)
    ensures
        lines@.len() == rs@.len(),
        forall|i: int| 0 <= i < rs@.len() ==> lines@[i]@ == spec_line(rs@[i]),
{
    let mut lines: Vec<String> = Vec::new();
    let mut i: usize = 0;
    while i < rs.len()
        invariant
            0 <= i <= rs@.len(),
            lines@.len() == i,
            forall|j: int| 0 <= j < i ==> lines@[j]@ == spec_line(rs@[j]),
        decreases rs@.len() - i,
    {
        let line = render_line(&rs[i]);
        lines.push(line);
        i = i + 1;
    }
    lines
}

} // verus!
