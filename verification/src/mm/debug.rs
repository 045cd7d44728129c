//! What the page-mapping printouts show: mappings of a page range grouped
//! into runs of identity mappings, and flags as text.
use vstd::prelude::*;
use vstd::string::StringExecFns;
use crate::mm::address::{VirtPageNum, PhysPageNum};
use crate::mm::page_table::{PTEFlags, PageTableEntry, pte_has, pte_ppn, pte_flags, PTE_V, PTE_R, PTE_W, PTE_X, PTE_U};

verus! {

/// Runs of at least this many identity mappings are shown by their ends.
pub const RUN_THRESHOLD: usize = 10;

/// One mapped page.
#[derive(Clone, Copy, PartialEq, Eq, Structural, Debug)]
pub struct PageMapping {
    /// The virtual page.
    pub vpn: VirtPageNum,
    /// The physical page it maps to.
    pub ppn: PhysPageNum,
    /// The flags it is mapped with.
    pub flags: PTEFlags,
}

/// One item of a compressed printout.
#[derive(Clone, Copy, PartialEq, Eq, Structural, Debug)]
pub enum MappingLine {
    /// A run of at least `RUN_THRESHOLD` consecutive identity mappings,
    /// shown by its first and last mapping, its length and the first one's
    /// flags.
    Run { first: PageMapping, last: PageMapping, count: usize },
    /// An identity mapping of a shorter run, on a line of its own with its
    /// flags.
    Single(PageMapping),
}

/// The printout of a page range: the lines, in order, then the other
/// mappings together on one last line.
pub struct MappingReport {
    /// The lines, in order.
    pub lines: Vec<MappingLine>,
    /// The mappings printed together at the end.
    pub buffered: Vec<PageMapping>,
}

/// The mapping an entry shows for page `vpn`: none for a missing or invalid
/// entry or one pointing to frame 0.
pub open spec fn mapping_of(vpn: u64, entry: Option<PageTableEntry>) -> Option<PageMapping> {
    match entry {
        Some(pte) => if pte_has(pte.bits, PTE_V) && pte_ppn(pte.bits) != 0 {
            Some(
                PageMapping {
                    vpn: VirtPageNum(vpn),
                    ppn: PhysPageNum(pte_ppn(pte.bits)),
                    flags: PTEFlags::from_bits_spec(pte_flags(pte.bits)),
                },
            )
        } else {
            None
        },
        None => None,
    }
}

/// The lines a finished group adds: one run line for a long group, one line
/// per mapping for a short one.
pub open spec fn flush_spec(lines: Seq<MappingLine>, group: Seq<PageMapping>) -> Seq<MappingLine> {
    if group.len() == 0 {
        lines
    } else if group.len() >= RUN_THRESHOLD {
        lines.push(MappingLine::Run { first: group[0], last: group.last(), count: group.len() as usize })
    } else {
        lines + group.map_values(|m: PageMapping| MappingLine::Single(m))
    }
}

/// The state of a compressed printout after some mappings: the lines so
/// far, the identity run being collected, and the other mappings.
pub struct PrintState {
    /// Lines so far.
    pub lines: Seq<MappingLine>,
    /// The run being collected.
    pub group: Seq<PageMapping>,
    /// The other mappings.
    pub buffered: Seq<PageMapping>,
}

/// Takes one more mapping: an identity mapping that continues the run joins
/// it; another identity mapping ends the run and starts a new one; any
/// other mapping ends the run and goes to the buffered ones.
pub open spec fn step_spec(st: PrintState, m: PageMapping) -> PrintState {
    if m.ppn.0 == m.vpn.0 {
        if st.group.len() > 0 && m.vpn.0 == st.group.last().vpn.0 + 1 && m.ppn.0 == st.group.last().ppn.0 + 1 {
            PrintState { group: st.group.push(m), ..st }
        } else {
            PrintState { lines: flush_spec(st.lines, st.group), group: seq![m], ..st }
        }
    } else {
        PrintState { lines: flush_spec(st.lines, st.group), group: Seq::empty(), buffered: st.buffered.push(m) }
    }
}

/// The state after the first `n` entries of the range starting at `start`.
pub open spec fn scan_spec(start: u64, entries: Seq<Option<PageTableEntry>>, n: int) -> PrintState
    decreases n,
{
    if n <= 0 {
        PrintState { lines: Seq::empty(), group: Seq::empty(), buffered: Seq::empty() }
    } else {
        let st = scan_spec(start, entries, n - 1);
        match mapping_of((start + n - 1) as u64, entries[n - 1]) {
            Some(m) => step_spec(st, m),
            None => st,
        }
    }
}

/// The mappings of the first `n` entries, in order.
pub open spec fn mappings_spec(start: u64, entries: Seq<Option<PageTableEntry>>, n: int) -> Seq<PageMapping>
    decreases n,
{
    if n <= 0 {
        Seq::empty()
    } else {
        let ms = mappings_spec(start, entries, n - 1);
        match mapping_of((start + n - 1) as u64, entries[n - 1]) {
            Some(m) => ms.push(m),
            None => ms,
        }
    }
}

/// How many mappings a line stands for.
pub open spec fn line_weight(l: MappingLine) -> int {
    match l {
        MappingLine::Run { count, .. } => count as int,
        MappingLine::Single(_) => 1,
    }
}

/// How many mappings the lines stand for.
pub open spec fn lines_weight(lines: Seq<MappingLine>) -> int
    decreases lines.len(),
{
    if lines.len() == 0 {
        0
    } else {
        lines_weight(lines.drop_last()) + line_weight(lines.last())
    }
}

/// The lines stand for as many mappings as the concatenated lines do.
proof fn lemma_lines_weight_concat(a: Seq<MappingLine>, b: Seq<MappingLine>)
    ensures
        lines_weight(a + b) == lines_weight(a) + lines_weight(b),
    decreases b.len(),
{
    if b.len() > 0 {
        assert((a + b).drop_last() =~= a + b.drop_last());
        lemma_lines_weight_concat(a, b.drop_last());
    } else {
        assert(a + b =~= a);
    }
}

/// Flushing a group adds its size to what the lines stand for.
proof fn lemma_flush_weight(lines: Seq<MappingLine>, group: Seq<PageMapping>)
    requires
        group.len() <= usize::MAX,
    ensures
        lines_weight(flush_spec(lines, group)) == lines_weight(lines) + group.len(),
{
    if group.len() > 0 && group.len() < RUN_THRESHOLD {
        let singles = group.map_values(|m: PageMapping| MappingLine::Single(m));
        lemma_lines_weight_concat(lines, singles);
        lemma_singles_weight(group);
    } else if group.len() >= RUN_THRESHOLD {
        assert(flush_spec(lines, group).drop_last() =~= lines);
    }
}

/// A line per mapping stands for as many mappings.
proof fn lemma_singles_weight(group: Seq<PageMapping>)
    ensures
        lines_weight(group.map_values(|m: PageMapping| MappingLine::Single(m))) == group.len(),
    decreases group.len(),
{
    if group.len() > 0 {
        assert(group.map_values(|m: PageMapping| MappingLine::Single(m)).drop_last() =~= group.drop_last().map_values(
            |m: PageMapping| MappingLine::Single(m),
        ));
        lemma_singles_weight(group.drop_last());
    }
}

/// The compressed printout accounts for every mapping of the range exactly
/// once: the lines (a run counting its length), the open run and the
/// buffered mappings together number the mappings.
pub proof fn lemma_printout_counts_every_mapping(start: u64, entries: Seq<Option<PageTableEntry>>, n: int)
    requires
        0 <= n <= entries.len(),
        entries.len() <= usize::MAX,
    ensures
        lines_weight(scan_spec(start, entries, n).lines) + scan_spec(start, entries, n).group.len()
            + scan_spec(start, entries, n).buffered.len() == mappings_spec(start, entries, n).len(),
        scan_spec(start, entries, n).group.len() <= n,
    decreases n,
{
    if n > 0 {
        lemma_printout_counts_every_mapping(start, entries, n - 1);
        let st = scan_spec(start, entries, n - 1);
        match mapping_of((start + n - 1) as u64, entries[n - 1]) {
            Some(m) => {
                lemma_flush_weight(st.lines, st.group);
            },
            None => {},
        }
    }
}

/// The mapping an entry shows for page `vpn`, or none.
fn mapping_at(vpn: u64, entry: Option<PageTableEntry>) -> (r: Option<PageMapping>)
    ensures
        r == mapping_of(vpn, entry),
{
    match entry {
        Some(pte) => {
            if pte.is_valid() && pte.ppn().0 != 0 {
                let flags = pte.flags();
                proof {
                    PTEFlags::lemma_from_bits_spec(flags, pte_flags(pte.bits));
                }
                Some(PageMapping { vpn: VirtPageNum(vpn), ppn: pte.ppn(), flags })
            } else {
                None
            }
        },
        None => None,
    }
}

/// Appends the lines for a finished group and empties it.
fn flush_group(lines: &mut Vec<MappingLine>, group: &mut Vec<PageMapping>)
    ensures
        final(lines)@ == flush_spec(old(lines)@, old(group)@),
        final(group)@ == Seq::<PageMapping>::empty(),
{
    let n = group.len();
    if n == 0 {
        return;
    }
    if n >= RUN_THRESHOLD {
        lines.push(MappingLine::Run { first: group[0], last: group[n - 1], count: n });
    } else {
        let ghost before = lines@;
        let mut i: usize = 0;
        while i < n
            invariant
                i <= n,
                n == group@.len(),
                n < RUN_THRESHOLD,
                lines@ == before + group@.take(i as int).map_values(|m: PageMapping| MappingLine::Single(m)),
            decreases n - i,
        {
            lines.push(MappingLine::Single(group[i]));
            i = i + 1;
            assert(group@.take(i as int).map_values(|m: PageMapping| MappingLine::Single(m)) =~= group@.take(
                (i - 1) as int,
            ).map_values(|m: PageMapping| MappingLine::Single(m)).push(MappingLine::Single(group@[i - 1])));
        }
        assert(group@.take(n as int) =~= group@);
    }
    group.clear();
}

/// The printout of the pages from `start_vpn` on, `entries[i]` being what
/// the page table holds for page `start_vpn + i`. Compressed, consecutive
/// identity mappings are grouped into runs and every other mapping is kept
/// for the last line; uncompressed, every mapping is kept for the last line.
/// Entries that map nothing (missing, invalid, or frame 0) are left out.
pub fn print_mappings_range(start_vpn: VirtPageNum, entries: &Vec<Option<PageTableEntry>>, compress: bool) -> (r: MappingReport)
    requires
        start_vpn.0 + entries@.len() <= u64::MAX,
        entries@.len() <= usize::MAX,
    ensures
        compress ==> {
            let st = scan_spec(start_vpn.0, entries@, entries@.len() as int);
            &&& r.lines@ == flush_spec(st.lines, st.group)
            &&& r.buffered@ == st.buffered
        },
        compress ==> lines_weight(r.lines@) + r.buffered@.len() == mappings_spec(
            start_vpn.0,
            entries@,
            entries@.len() as int,
        ).len(),
        !compress ==> r.lines@.len() == 0 && r.buffered@ == mappings_spec(start_vpn.0, entries@, entries@.len() as int),
{
    let mut lines: Vec<MappingLine> = Vec::new();
    let mut group: Vec<PageMapping> = Vec::new();
    let mut buffered: Vec<PageMapping> = Vec::new();
    let mut i: usize = 0;
    while i < entries.len()
        invariant
            i <= entries@.len(),
            start_vpn.0 + entries@.len() <= u64::MAX,
            compress ==> {
                let st = scan_spec(start_vpn.0, entries@, i as int);
                &&& lines@ == st.lines
                &&& group@ == st.group
                &&& buffered@ == st.buffered
            },
            !compress ==> lines@.len() == 0 && group@.len() == 0 && buffered@ == mappings_spec(
                start_vpn.0,
                entries@,
                i as int,
            ),
        decreases entries@.len() - i,
    {
        let vpn = start_vpn.0 + i as u64;
        match mapping_at(vpn, entries[i]) {
            Some(m) => {
                if !compress {
                    buffered.push(m);
                } else if m.ppn.0 == m.vpn.0 {
                    let n = group.len();
                    if n > 0 && m.vpn.0 > 0 && m.vpn.0 - 1 == group[n - 1].vpn.0 && m.ppn.0 > 0 && m.ppn.0 - 1
                        == group[n - 1].ppn.0 {
                        group.push(m);
                    } else {
                        flush_group(&mut lines, &mut group);
                        group.push(m);
                    }
                } else {
                    flush_group(&mut lines, &mut group);
                    buffered.push(m);
                }
            },
            None => {},
        }
        i = i + 1;
    }
    proof {
        if compress {
            lemma_printout_counts_every_mapping(start_vpn.0, entries@, entries@.len() as int);
            lemma_flush_weight(lines@, group@);
        }
    }
    flush_group(&mut lines, &mut group);
    MappingReport { lines, buffered }
}

/// The flag names shown for a set of flags: `R`, `W`, `X`, `U` for those set,
/// in that order, joined by `" | "`.
pub open spec fn flags_text(bits: u8) -> Seq<char> {
    let n0 = Seq::<Seq<char>>::empty();
    let n1 = if bits & PTE_R == PTE_R { n0.push(seq!['R']) } else { n0 };
    let n2 = if bits & PTE_W == PTE_W { n1.push(seq!['W']) } else { n1 };
    let n3 = if bits & PTE_X == PTE_X { n2.push(seq!['X']) } else { n2 };
    let n4 = if bits & PTE_U == PTE_U { n3.push(seq!['U']) } else { n3 };
    join_spec(n4)
}

/// The names joined by `" | "`.
pub open spec fn join_spec(names: Seq<Seq<char>>) -> Seq<char>
    decreases names.len(),
{
    if names.len() == 0 {
        Seq::empty()
    } else if names.len() == 1 {
        names[0]
    } else {
        join_spec(names.drop_last()) + seq![' ', '|', ' '] + names.last()
    }
}

/// Appends `name` to the text, after `" | "` unless the text is empty.
fn push_name(text: &mut String, names: Ghost<Seq<Seq<char>>>, first: bool, name: &str) -> (r: Ghost<Seq<Seq<char>>>)
    requires
        old(text)@ == join_spec(names@),
        first <==> names@.len() == 0,
    ensures
        r@ == names@.push(name@),
        final(text)@ == join_spec(r@),
{
    let sep = " | ";
    proof {
        reveal_strlit(" | ");
    }
    if !first {
        text.append(sep);
    }
    text.append(name);
    let ghost r = names@.push(name@);
    proof {
        assert(r.drop_last() =~= names@);
        if first {
            assert(text@ =~= name@);
        }
    }
    Ghost(r)
}

/// The permissions in a set of flags as text: `R`, `W`, `X`, `U` for those
/// set, in that order, joined by `" | "`.
pub fn format_flags(flags: PTEFlags) -> (r: String)
    ensures
        r@ == flags_text(flags@),
{
    let mut text = String::new();
    let mut names: Ghost<Seq<Seq<char>>> = Ghost(Seq::empty());
    let mut first = true;
    proof {
        reveal_strlit("R");
        reveal_strlit("W");
        reveal_strlit("X");
        reveal_strlit("U");
        assert("R"@ =~= seq!['R']);
        assert("W"@ =~= seq!['W']);
        assert("X"@ =~= seq!['X']);
        assert("U"@ =~= seq!['U']);
    }
    if flags.contains(PTEFlags::R()) {
        names = push_name(&mut text, names, first, "R");
        first = false;
    }
    if flags.contains(PTEFlags::W()) {
        names = push_name(&mut text, names, first, "W");
        first = false;
    }
    if flags.contains(PTEFlags::X()) {
        names = push_name(&mut text, names, first, "X");
        first = false;
    }
    if flags.contains(PTEFlags::U()) {
        names = push_name(&mut text, names, first, "U");
        first = false;
    }
    text
}

} // verus!
