//! Boot-log line scanning: whitespace tokenization and recognition of the two
//! line shapes that matter, module-load events and load-failure events.

use vstd::prelude::*;
use crate::hexnum::{parse_hex, parse_hex_u64};

verus! {

/// The whitespace characters that separate tokens.
pub open spec fn is_space(c: char) -> bool {
    c == ' ' || c == '\t' || c == '\n' || c == '\r' || c == '\u{b}' || c == '\u{c}'
}

/// The maximal runs of non-whitespace characters of a line, in order.
pub open spec fn spec_tokens(s: Seq<char>) -> Seq<Seq<char>>
    decreases s.len(),
{
    if s.len() == 0 {
        Seq::empty()
    } else if is_space(s.first()) {
        spec_tokens(s.drop_first())
    } else {
        let rest = spec_tokens(s.drop_first());
        if s.len() > 1 && !is_space(s[1]) {
            rest.update(0, seq![s.first()] + rest[0])
        } else {
            seq![seq![s.first()]] + rest
        }
    }
}

/// The views of a sequence of owned strings.
pub open spec fn strs_view(v: Seq<String>) -> Seq<Seq<char>> {
    Seq::new(v.len(), |i: int| v[i]@)
}

/// A run of non-space characters followed by nothing or by a space is one
/// whole token, and scanning resumes after it.
pub proof fn lemma_tokens_word(w: Seq<char>, rest: Seq<char>)
    requires
        w.len() > 0,
        forall|i: int| 0 <= i < w.len() ==> !is_space(w[i]),
        rest.len() == 0 || is_space(rest[0]),
    ensures
        spec_tokens(w + rest) == seq![w] + spec_tokens(rest),
    decreases w.len(),
{
    let s = w + rest;
    assert(s.first() == w[0]);
    assert(!is_space(s.first()));
    if w.len() == 1 {
        assert(s.drop_first() =~= rest);
        if s.len() > 1 && !is_space(s[1]) {
            assert(is_space(rest[0]));
            assert(false);
        }
        assert(seq![s.first()] =~= w);
        assert(spec_tokens(s) == seq![w] + spec_tokens(rest));
    } else {
        assert(s.drop_first() =~= w.drop_first() + rest);
        assert(forall|i: int| 0 <= i < w.drop_first().len() ==> !is_space(w.drop_first()[i]));
        lemma_tokens_word(w.drop_first(), rest);
        let rest2 = spec_tokens(s.drop_first());
        assert(rest2 == seq![w.drop_first()] + spec_tokens(rest));
        assert(rest2[0] == w.drop_first());
        assert(s.len() > 1 && !is_space(s[1]));
        assert(spec_tokens(s) == rest2.update(0, seq![s.first()] + rest2[0]));
        assert(seq![s.first()] + w.drop_first() =~= w);
        assert(rest2.update(0, w) =~= seq![w] + spec_tokens(rest));
    }
}

fn is_space_char(c: char) -> (r: bool)
    ensures
        r == is_space(c),
{
    c == ' ' || c == '\t' || c == '\n' || c == '\r' || c == '\u{b}' || c == '\u{c}'
}

/// Split a line into its whitespace-separated tokens.
pub fn tokenize(s: &str) -> (r: Vec<String>)
    ensures
        strs_view(r@) == spec_tokens(s@),
{
    let n = s.unicode_len();
    let mut toks: Vec<String> = Vec::new();
    let mut i: usize = 0;
    let mut start: usize = 0;
    let mut in_tok: bool = false;
    proof {
        assert(s@.subrange(0, n as int) =~= s@);
        assert(strs_view(toks@) + spec_tokens(s@) =~= spec_tokens(s@));
    }
    while i < n
        invariant
            n == s@.len(),
            0 <= i <= n,
            in_tok ==> start < i,
            in_tok ==> forall|k: int| start <= k < i ==> !is_space(s@[k]),
            !in_tok ==> spec_tokens(s@) == strs_view(toks@) + spec_tokens(
                s@.subrange(i as int, n as int),
            ),
            in_tok ==> spec_tokens(s@) == strs_view(toks@) + spec_tokens(
                s@.subrange(start as int, n as int),
            ),
        decreases n - i,
    {
        let c = s.get_char(i);
        if is_space_char(c) {
            if in_tok {
                let w = s.substring_char(start, i);
                proof {
                    assert(s@.subrange(start as int, n as int) =~= s@.subrange(
                        start as int,
                        i as int,
                    ) + s@.subrange(i as int, n as int));
                    lemma_tokens_word(
                        s@.subrange(start as int, i as int),
                        s@.subrange(i as int, n as int),
                    );
                }
                let ghost old_toks = toks@;
                toks.push(String::from_str(w));
                proof {
                    assert(strs_view(toks@) =~= strs_view(old_toks) + seq![w@]);
                    assert(strs_view(toks@) + spec_tokens(s@.subrange(i as int, n as int))
                        =~= strs_view(old_toks) + (seq![w@] + spec_tokens(
                        s@.subrange(i as int, n as int),
                    )));
                }
                in_tok = false;
            }
            proof {
                assert(s@.subrange(i as int, n as int).drop_first() =~= s@.subrange(
                    i + 1,
                    n as int,
                ));
            }
        } else {
            if !in_tok {
                start = i;
                in_tok = true;
            }
        }
        i = i + 1;
    }
    if in_tok {
        let w = s.substring_char(start, n);
        proof {
            assert(s@.subrange(start as int, n as int) =~= s@.subrange(start as int, n as int)
                + Seq::<char>::empty());
            lemma_tokens_word(s@.subrange(start as int, n as int), Seq::<char>::empty());
        }
        let ghost old_toks = toks@;
        toks.push(String::from_str(w));
        proof {
            assert(strs_view(toks@) =~= strs_view(old_toks) + seq![w@]);
            assert(strs_view(toks@) =~= strs_view(old_toks) + (seq![w@] + spec_tokens(
                Seq::<char>::empty(),
            )));
        }
    } else {
        proof {
            assert(s@.subrange(n as int, n as int) =~= Seq::<char>::empty());
            assert(strs_view(toks@) + spec_tokens(Seq::<char>::empty()) =~= strs_view(toks@));
        }
    }
    toks
}

/// One boot-log line, as the scanner understands it.
pub enum LogEvent {
    /// A module was relocated to `addr`; `module` is its base name, with the
    /// image suffix already stripped.
    Load { addr: u64, module: String },
    /// The image at `addr` failed to start; its load event is retracted.
    Failure { addr: u64 },
    /// Any other line.
    Ignored,
}

/// Ghost counterpart of `LogEvent`, over character sequences.
pub enum SpecEvent {
    Load { addr: u64, module: Seq<char> },
    Failure { addr: u64 },
    Ignored,
}

pub open spec fn event_view(e: LogEvent) -> SpecEvent {
    match e {
        LogEvent::Load { addr, module } => SpecEvent::Load { addr, module: module@ },
        LogEvent::Failure { addr } => SpecEvent::Failure { addr },
        LogEvent::Ignored => SpecEvent::Ignored,
    }
}

pub open spec fn spec_starts_with(s: Seq<char>, p: Seq<char>) -> bool {
    s.len() >= p.len() && s.subrange(0, p.len() as int) == p
}

pub open spec fn spec_ends_with(s: Seq<char>, p: Seq<char>) -> bool {
    s.len() >= p.len() && s.subrange(s.len() - p.len(), s.len() as int) == p
}

/// Shape of a load line: `Loading <..> at 0x<addr> <..> <module>.efi`, judged
/// positionally on the tokens.
pub open spec fn load_shape(ts: Seq<Seq<char>>) -> bool {
    &&& ts.len() >= 6
    &&& ts[0] == "Loading"@
    &&& ts[2] == "at"@
    &&& spec_starts_with(ts[3], "0x"@)
    &&& spec_ends_with(ts[5], ".efi"@)
}

/// Shape of a failure line: the fixed prefix, and a fourth token to read the
/// address from.
pub open spec fn failure_shape(s: Seq<char>, ts: Seq<Seq<char>>) -> bool {
    spec_starts_with(s, "Error: Image at "@) && ts.len() >= 4
}

/// What one line means. A load line yields a `Load` event when its address
/// parses (prefix `0x` stripped, suffix `.efi` stripped from the name); a
/// failure line yields a `Failure` event when its bare address parses; every
/// other line, and either shape with an unparseable address, is ignored.
pub open spec fn spec_parse_line(s: Seq<char>) -> SpecEvent {
    let ts = spec_tokens(s);
    if load_shape(ts) {
        match parse_hex_u64(ts[3].subrange(2, ts[3].len() as int)) {
            Some(addr) => SpecEvent::Load {
                addr,
                module: ts[5].subrange(0, ts[5].len() - 4),
            },
            None => SpecEvent::Ignored,
        }
    } else if failure_shape(s, ts) {
        match parse_hex_u64(ts[3]) {
            Some(addr) => SpecEvent::Failure { addr },
            None => SpecEvent::Ignored,
        }
    } else {
        SpecEvent::Ignored
    }
}

pub(crate) fn str_equal(a: &str, b: &str) -> (r: bool)
    ensures
        r == (a@ == b@),
{
    let sa = String::from_str(a);
    let sb = String::from_str(b);
    sa == sb
}

fn starts_with_str(s: &str, p: &str) -> (r: bool)
    ensures
        r == spec_starts_with(s@, p@),
{
    let n = s.unicode_len();
    let m = p.unicode_len();
    if n < m {
        false
    } else {
        str_equal(s.substring_char(0, m), p)
    }
}

fn ends_with_str(s: &str, p: &str) -> (r: bool)
    ensures
        r == spec_ends_with(s@, p@),
{
    let n = s.unicode_len();
    let m = p.unicode_len();
    if n < m {
        false
    } else {
        str_equal(s.substring_char(n - m, n), p)
    }
}

/// Classify one boot-log line.
pub fn parse_line(s: &str) -> (e: LogEvent)
    ensures
        event_view(e) == spec_parse_line(s@),
{
    let toks = tokenize(s);
    proof {
        assert(strs_view(toks@).len() == toks@.len());
    }
    if toks.len() >= 6 && str_equal(toks[0].as_str(), "Loading") && str_equal(
        toks[2].as_str(),
        "at",
    ) && starts_with_str(toks[3].as_str(), "0x") && ends_with_str(toks[5].as_str(), ".efi") {
        proof {
            assert(toks@[0]@ == spec_tokens(s@)[0]);
            assert(toks@[2]@ == spec_tokens(s@)[2]);
            assert(toks@[3]@ == spec_tokens(s@)[3]);
            assert(toks@[5]@ == spec_tokens(s@)[5]);
            assert(load_shape(spec_tokens(s@)));
        }
        let t3 = toks[3].as_str();
        let l3 = t3.unicode_len();
        proof {
            reveal_strlit("0x");
            assert(t3@.len() >= 2);
        }
        let digits = t3.substring_char(2, l3);
        match parse_hex(digits) {
            Some(addr) => {
                let t5 = toks[5].as_str();
                let l5 = t5.unicode_len();
                proof {
                    reveal_strlit(".efi");
                    assert(t5@.len() >= 4);
                }
                let module = String::from_str(t5.substring_char(0, l5 - 4));
                LogEvent::Load { addr, module }
            },
            None => LogEvent::Ignored,
        }
    } else if starts_with_str(s, "Error: Image at ") && toks.len() >= 4 {
        proof {
            assert(toks@[3]@ == spec_tokens(s@)[3]);
            assert(!load_shape(spec_tokens(s@)));
        }
        match parse_hex(toks[3].as_str()) {
            Some(addr) => LogEvent::Failure { addr },
            None => LogEvent::Ignored,
        }
    } else {
        proof {
            assert(!load_shape(spec_tokens(s@)));
            assert(!failure_shape(s@, spec_tokens(s@)));
        }
        LogEvent::Ignored
    }
}

} // verus!
