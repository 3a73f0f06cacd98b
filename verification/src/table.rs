//! The load table: the mapping from load address to module base name that the
//! log scanner builds, kept sorted by address for deterministic iteration.

use vstd::prelude::*;
use crate::scanner::{spec_parse_line, SpecEvent, LogEvent, event_view, parse_line, strs_view};
use crate::sorted_map::SortedMap;
use crate::sorted_map::has_key;

verus! {

/// The final load mapping, keyed by address, iterable in ascending address
/// order.
pub struct LoadTable {
    map: SortedMap<String>,
}

impl LoadTable {
    pub closed spec fn wf(self) -> bool {
        self.map.wf()
    }

    pub fn new() -> (r: LoadTable)
        ensures
            r.wf(),
            r@ == Map::<u64, Seq<char>>::empty(),
    {
        LoadTable { map: SortedMap::new() }
    }

    /// Record a load event: insert, overwriting any earlier entry at the same
    /// address.
    pub fn insert(&mut self, addr: u64, name: String)
        requires
            old(self).wf(),
        ensures
            final(self).wf(),
            final(self)@ == old(self)@.insert(addr, name@),
    {
        self.map.insert(addr, name);
    }

    /// Record a failure event: remove the entry at the address, if any.
    pub fn remove(&mut self, addr: u64)
        requires
            old(self).wf(),
        ensures
            final(self).wf(),
            final(self)@ == old(self)@.remove(addr),
    {
        self.map.remove(addr);
    }

    /// Apply one scanned line to the table.
    pub fn apply(&mut self, e: LogEvent)
        requires
            old(self).wf(),
        ensures
            final(self).wf(),
            final(self)@ == apply_event(old(self)@, event_view(e)),
    {
        match e {
            LogEvent::Load { addr, module } => self.insert(addr, module),
            LogEvent::Failure { addr } => self.remove(addr),
            LogEvent::Ignored => {},
        }
    }

    /// The entries, in strictly ascending address order, each naming the
    /// module the table maps its address to.
    pub fn entries(&self) -> (r: &Vec<(u64, String)>)
        requires
            self.wf(),
        ensures
            forall|i: int, j: int| 0 <= i < j < r@.len() ==> r@[i].0 < r@[j].0,
            forall|i: int|
                0 <= i < r@.len() ==> self@.contains_key(r@[i].0) && self@[r@[i].0] == r@[i].1@,
            forall|k: u64| self@.contains_key(k) ==> has_key(r@, k),
    {
        self.map.entries()
    }
}

impl View for LoadTable {
    type V = Map<u64, Seq<char>>;

    closed spec fn view(&self) -> Map<u64, Seq<char>> {
        self.map@
    }
}

/// How one scanned line changes the load mapping.
pub open spec fn apply_event(m: Map<u64, Seq<char>>, e: SpecEvent) -> Map<u64, Seq<char>> {
    match e {
        SpecEvent::Load { addr, module } => m.insert(addr, module),
        SpecEvent::Failure { addr } => m.remove(addr),
        SpecEvent::Ignored => m,
    }
}

/// The load mapping that scanning a whole log leaves behind: the lines applied
/// in order to the empty mapping.
pub open spec fn scan_map(lines: Seq<Seq<char>>) -> Map<u64, Seq<char>>
    decreases lines.len(),
{
    if lines.len() == 0 {
        Map::empty()
    } else {
        apply_event(scan_map(lines.drop_last()), spec_parse_line(lines.last()))
    }
}

/// Scan a boot log, producing the final load table.
pub fn scan_log(lines: &Vec<String>) -> (t: LoadTable)
    ensures
        t.wf(),
        t@ == scan_map(strs_view(lines@)),
{
    let mut t = LoadTable::new();
    let mut i: usize = 0;
    proof {
        assert(strs_view(lines@).subrange(0, 0) =~= Seq::<Seq<char>>::empty());
    }
    while i < lines.len()
        invariant
            0 <= i <= lines@.len(),
            t.wf(),
            t@ == scan_map(strs_view(lines@).subrange(0, i as int)),
        decreases lines@.len() - i,
    {
        let e = parse_line(lines[i].as_str());
        proof {
            let all = strs_view(lines@);
            assert(all.subrange(0, i + 1).drop_last() =~= all.subrange(0, i as int));
            assert(all.subrange(0, i + 1).last() == all[i as int]);
            assert(all[i as int] == lines@[i as int]@);
        }
        t.apply(e);
        i = i + 1;
    }
    proof {
        assert(strs_view(lines@).subrange(0, lines@.len() as int) =~= strs_view(lines@));
    }
    t
}

} // verus!
