//! Memory dumps of a running system, as the analyzer reads them: either a raw image of
//! physical memory, or an ELF core file whose segments and sections place blocks of bytes
//! at addresses.

use vstd::prelude::*;
use object::{Object, ObjectSection, ObjectSegment, ObjectSymbol};
use vstd::slice::{slice_subrange, slice_to_vec};

verus! {

/// A block of an ELF file placed at an address: a segment or a section.
pub struct Region {
    /// The address of the first byte
    pub address: u64,
    /// The size that the headers give, in bytes
    pub size: u64,
    /// The bytes that the file holds for it, or `None` where they could not be read
    pub data: Option<Vec<u8>>,
}

/// What a region is, as plain values.
pub struct RegionView {
    pub address: u64,
    pub size: u64,
    pub data: Option<Seq<u8>>,
}

impl DeepView for Region {
    type V = RegionView;

    open spec fn deep_view(&self) -> RegionView {
        RegionView {
            address: self.address,
            size: self.size,
            data: match self.data {
                Some(d) => Some(d@),
                None => None,
            },
        }
    }
}

impl Region {
    /// A region with the given placement and bytes.
    pub fn new(address: u64, size: u64, data: Option<&[u8]>) -> (r: Region)
        ensures
            r.deep_view() == (RegionView {
                address,
                size,
                data: match data {
                    Some(d) => Some(d@),
                    None => None,
                },
            }),
    {
        let data = match data {
            Some(d) => Some(slice_to_vec(d)),
            None => None,
        };
        Region { address, size, data }
    }
}

/// The region's addresses, end excluded, hold both `lo` and `hi`.
pub open spec fn spans(r: RegionView, lo: int, hi: int) -> bool {
    &&& r.address <= lo < r.address + r.size
    &&& r.address <= hi < r.address + r.size
}

/// The index of the first region that spans `lo` and `hi`.
pub open spec fn first_span(rs: Seq<RegionView>, lo: int, hi: int) -> Option<int>
    decreases rs.len(),
{
    if rs.len() == 0 {
        None
    } else {
        match first_span(rs.drop_last(), lo, hi) {
            Some(i) => Some(i),
            None => if spans(rs.last(), lo, hi) {
                Some(rs.len() - 1)
            } else {
                None
            },
        }
    }
}

/// Every region that a search for `lo` and `hi` looks at ends within the 64-bit address
/// space: the search stops at the first region that spans them.
pub open spec fn span_scan_fits(rs: Seq<RegionView>, lo: int, hi: int) -> bool {
    forall|i: int|
        0 <= i < rs.len() && #[trigger] first_span(rs.take(i), lo, hi) is None ==> rs[i].address
            + rs[i].size <= u64::MAX
}

/// A first spanning region found in a prefix stays the first in the whole sequence.
pub proof fn lemma_first_span_prefix(rs: Seq<RegionView>, k: int, lo: int, hi: int)
    requires
        0 <= k <= rs.len(),
        first_span(rs.take(k), lo, hi) is Some,
    ensures
        first_span(rs, lo, hi) == first_span(rs.take(k), lo, hi),
    decreases rs.len() - k,
{
    if k < rs.len() {
        assert(rs.take(k + 1).drop_last() =~= rs.take(k));
        lemma_first_span_prefix(rs, k + 1, lo, hi);
    } else {
        assert(rs.take(k) =~= rs);
    }
}

/// The first spanning region is one of the regions, and spans.
pub proof fn lemma_first_span_spans(rs: Seq<RegionView>, lo: int, hi: int)
    ensures
        match first_span(rs, lo, hi) {
            Some(i) => 0 <= i < rs.len() && spans(rs[i], lo, hi),
            None => true,
        },
    decreases rs.len(),
{
    if rs.len() > 0 {
        lemma_first_span_spans(rs.drop_last(), lo, hi);
    }
}

/// The index of the first region of `rs` that spans `lo` and `hi`.
fn find_span(rs: &Vec<Region>, lo: u64, hi: u64) -> (r: Option<usize>)
    requires
        span_scan_fits(rs.deep_view(), lo as int, hi as int),
    ensures
        match r {
            Some(i) => {
                &&& first_span(rs.deep_view(), lo as int, hi as int) == Some(i as int)
                &&& i < rs.len()
                &&& spans(rs.deep_view()[i as int], lo as int, hi as int)
            },
            None => first_span(rs.deep_view(), lo as int, hi as int) is None,
        },
{
    let ghost v = rs.deep_view();
    let mut i: usize = 0;
    while i < rs.len()
        invariant
            v == rs.deep_view(),
            span_scan_fits(v, lo as int, hi as int),
            i <= rs.len(),
            first_span(v.take(i as int), lo as int, hi as int) is None,
        decreases rs.len() - i,
    {
        let r = &rs[i];
        assert(v.take(i as int + 1).drop_last() =~= v.take(i as int));
        assert(v[i as int] == r.deep_view());
        assert(first_span(v.take(i as int), lo as int, hi as int) is None);
        let end = r.address + r.size;
        if r.address <= lo && lo < end && r.address <= hi && hi < end {
            proof {
                assert(v.take(i as int + 1).last() == v[i as int]);
                lemma_first_span_prefix(v, i as int + 1, lo as int, hi as int);
            }
            return Some(i);
        }
        i = i + 1;
    }
    assert(v.take(i as int) =~= v);
    None
}

/// Whether every region that a search for `lo` and `hi` looks at ends within the 64-bit
/// address space.
fn span_scan_fits_check(rs: &Vec<Region>, lo: u64, hi: u64) -> (r: bool)
    ensures
        r == span_scan_fits(rs.deep_view(), lo as int, hi as int),
{
    let ghost v = rs.deep_view();
    let mut i: usize = 0;
    while i < rs.len()
        invariant
            v == rs.deep_view(),
            i <= rs.len(),
            first_span(v.take(i as int), lo as int, hi as int) is None,
            forall|j: int|
                0 <= j < i && #[trigger] first_span(v.take(j), lo as int, hi as int) is None
                    ==> v[j].address + v[j].size <= u64::MAX,
        decreases rs.len() - i,
    {
        let r = &rs[i];
        assert(v.take(i as int + 1).drop_last() =~= v.take(i as int));
        assert(v[i as int] == r.deep_view());
        assert(v.take(i as int + 1).last() == v[i as int]);
        if r.size > u64::MAX - r.address {
            return false;
        }
        let end = r.address + r.size;
        if r.address <= lo && lo < end && r.address <= hi && hi < end {
            assert forall|j: int|
                0 <= j < v.len() && #[trigger] first_span(
                    v.take(j),
                    lo as int,
                    hi as int,
                ) is None implies v[j].address + v[j].size <= u64::MAX by {
                if j > i {
                    assert(v.take(j).take(i as int + 1) =~= v.take(i as int + 1));
                    lemma_first_span_prefix(v.take(j), i as int + 1, lo as int, hi as int);
                }
            }
            return true;
        }
        i = i + 1;
    }
    assert(v.take(i as int) =~= v);
    true
}

/// The number that eight bytes hold, least significant byte first.
pub open spec fn le64(b: Seq<u8>) -> int {
    b[0] + 256 * (b[1] + 256 * (b[2] + 256 * (b[3] + 256 * (b[4] + 256 * (b[5] + 256 * (b[6]
        + 256 * b[7]))))))
}

/// The number that eight bytes hold, least significant byte first.
pub fn read_le64(b: &[u8]) -> (r: u64)
    requires
        b@.len() == 8,
    ensures
        r == le64(b@),
{
    let mut v: u64 = b[7] as u64;
    v = v * 256 + b[6] as u64;
    v = v * 256 + b[5] as u64;
    v = v * 256 + b[4] as u64;
    v = v * 256 + b[3] as u64;
    v = v * 256 + b[2] as u64;
    v = v * 256 + b[1] as u64;
    v = v * 256 + b[0] as u64;
    v
}

/// An entry of an ELF symbol table: its name, where the name could be read, and its address.
pub struct SymbolEntry {
    pub name: Option<String>,
    pub address: u64,
}

/// What a symbol table entry is, as plain values.
pub struct SymbolView {
    pub name: Option<Seq<char>>,
    pub address: u64,
}

impl DeepView for SymbolEntry {
    type V = SymbolView;

    open spec fn deep_view(&self) -> SymbolView {
        SymbolView {
            name: match self.name {
                Some(n) => Some(n@),
                None => None,
            },
            address: self.address,
        }
    }
}

impl SymbolEntry {
    /// An entry with the given name and address.
    pub fn new(name: Option<&str>, address: u64) -> (r: SymbolEntry)
        ensures
            r.deep_view() == (SymbolView {
                name: match name {
                    Some(n) => Some(n@),
                    None => None,
                },
                address,
            }),
    {
        let name = match name {
            Some(n) => Some(n.to_string()),
            None => None,
        };
        SymbolEntry { name, address }
    }
}

/// What an ELF file holds for the analyzer: its segments and its sections, in file order,
/// and its symbol table.
pub struct ElfImage {
    pub segments: Vec<Region>,
    pub sections: Vec<Region>,
    pub symbols: Vec<SymbolEntry>,
}

/// An ELF file as plain values.
pub struct ElfView {
    pub segments: Seq<RegionView>,
    pub sections: Seq<RegionView>,
    pub symbols: Seq<SymbolView>,
}

impl DeepView for ElfImage {
    type V = ElfView;

    open spec fn deep_view(&self) -> ElfView {
        ElfView {
            segments: self.segments.deep_view(),
            sections: self.sections.deep_view(),
            symbols: self.symbols.deep_view(),
        }
    }
}

impl ElfView {
    /// The region that holds `lo` and `hi`: the first segment that does, else the first
    /// section that does.
    pub open spec fn spanning(self, lo: int, hi: int) -> Option<RegionView> {
        match first_span(self.segments, lo, hi) {
            Some(i) => Some(self.segments[i]),
            None => match first_span(self.sections, lo, hi) {
                Some(j) => Some(self.sections[j]),
                None => None,
            },
        }
    }

    /// Every region that the search for `lo` and `hi` looks at ends within the 64-bit
    /// address space.
    pub open spec fn span_fits(self, lo: int, hi: int) -> bool {
        &&& span_scan_fits(self.segments, lo, hi)
        &&& first_span(self.segments, lo, hi) is None ==> span_scan_fits(self.sections, lo, hi)
    }
}

impl ElfView {
    /// The first region that holds the needle, segments before sections, and the position
    /// of the needle in its bytes.
    pub open spec fn found(self, n: Seq<u8>) -> Option<(RegionView, int)> {
        match first_found(self.segments, n) {
            Some((i, p)) => Some((self.segments[i], p)),
            None => match first_found(self.sections, n) {
                Some((j, p)) => Some((self.sections[j], p)),
                None => None,
            },
        }
    }

    /// Every region that the search for the needle looks at holds its bytes.
    pub open spec fn found_readable(self, n: Seq<u8>) -> bool {
        &&& found_scan_readable(self.segments, n)
        &&& first_found(self.segments, n) is None ==> found_scan_readable(self.sections, n)
    }

    /// The matches of `pattern` in every segment, then in every section.
    pub open spec fn captures(self, pattern: Seq<char>) -> Option<Seq<Seq<Option<Seq<u8>>>>> {
        match (captures_in(self.segments, pattern), captures_in(self.sections, pattern)) {
            (Some(a), Some(b)) => Some(a + b),
            _ => None,
        }
    }
}

impl ElfImage {
    /// The region that holds `lo` and `hi`, segments searched before sections.
    pub fn find_region(&self, lo: u64, hi: u64) -> (r: Option<&Region>)
        requires
            self.deep_view().span_fits(lo as int, hi as int),
        ensures
            match r {
                Some(x) => {
                    &&& self.deep_view().spanning(lo as int, hi as int) == Some(x.deep_view())
                    &&& spans(x.deep_view(), lo as int, hi as int)
                },
                None => self.deep_view().spanning(lo as int, hi as int) is None,
            },
    {
        match find_span(&self.segments, lo, hi) {
            Some(i) => {
                assert(self.segments.deep_view()[i as int] == self.segments[i as int].deep_view());
                Some(&self.segments[i])
            },
            None => match find_span(&self.sections, lo, hi) {
                Some(j) => {
                    assert(self.sections.deep_view()[j as int]
                        == self.sections[j as int].deep_view());
                    Some(&self.sections[j])
                },
                None => None,
            },
        }
    }
}

/// The bytes of a region between two addresses, end excluded: `None` where the range is
/// reversed or runs past the bytes that the region holds.
pub open spec fn region_slice(r: RegionView, start: int, end: int) -> Option<Seq<u8>> {
    let d = r.data.unwrap();
    let s = start - r.address;
    let e = end - r.address;
    if s <= e && e <= d.len() {
        Some(d.subrange(s, e))
    } else {
        None
    }
}

/// The needle stands in the bytes at position `i`.
pub open spec fn occurs_at(d: Seq<u8>, n: Seq<u8>, i: int) -> bool {
    &&& 0 <= i
    &&& i + n.len() <= d.len()
    &&& d.subrange(i, i + n.len()) == n
}

/// The first position below `k` where the needle stands in the bytes.
pub open spec fn first_occurrence_below(d: Seq<u8>, n: Seq<u8>, k: int) -> Option<int>
    decreases k,
{
    if k <= 0 {
        None
    } else {
        match first_occurrence_below(d, n, k - 1) {
            Some(p) => Some(p),
            None => if occurs_at(d, n, k - 1) {
                Some(k - 1)
            } else {
                None
            },
        }
    }
}

/// The first position where the needle stands in the bytes.
pub open spec fn first_occurrence(d: Seq<u8>, n: Seq<u8>) -> Option<int> {
    first_occurrence_below(d, n, d.len() as int)
}

/// A first position found below `k` stays the first below any larger bound.
pub proof fn lemma_first_occurrence_below_grows(d: Seq<u8>, n: Seq<u8>, k: int, m: int)
    requires
        k <= m,
        first_occurrence_below(d, n, k) is Some,
    ensures
        first_occurrence_below(d, n, m) == first_occurrence_below(d, n, k),
    decreases m - k,
{
    if k < m {
        lemma_first_occurrence_below_grows(d, n, k, m - 1);
    }
}

/// The needle stands in the bytes at position `i`.
fn bytes_at(d: &[u8], n: &[u8], i: usize) -> (r: bool)
    ensures
        r == occurs_at(d@, n@, i as int),
{
    if i > d.len() || n.len() > d.len() - i {
        return false;
    }
    let mut j: usize = 0;
    while j < n.len()
        invariant
            i + n.len() <= d.len(),
            j <= n.len(),
            forall|t: int| 0 <= t < j ==> d@[i + t] == n@[t],
        decreases n.len() - j,
    {
        if d[i + j] != n[j] {
            assert(d@.subrange(i as int, i + n.len())[j as int] != n@[j as int]);
            return false;
        }
        j = j + 1;
    }
    assert(d@.subrange(i as int, i + n.len()) =~= n@);
    true
}

/// The first position where a non-empty needle stands in the bytes.
fn position_of(d: &[u8], n: &[u8]) -> (r: Option<usize>)
    ensures
        match r {
            Some(p) => first_occurrence(d@, n@) == Some(p as int),
            None => first_occurrence(d@, n@) is None,
        },
{
    let mut i: usize = 0;
    while i < d.len()
        invariant
            i <= d.len(),
            first_occurrence_below(d@, n@, i as int) is None,
        decreases d.len() - i,
    {
        if bytes_at(d, n, i) {
            proof {
                lemma_first_occurrence_below_grows(d@, n@, i + 1, d@.len() as int);
            }
            return Some(i);
        }
        i = i + 1;
    }
    None
}

/// Where the needle first stands in a region's bytes.
pub open spec fn region_occurrence(r: RegionView, n: Seq<u8>) -> Option<int> {
    match r.data {
        Some(d) => first_occurrence(d, n),
        None => None,
    }
}

/// The first region that holds the needle, by its index, and the position in its bytes.
pub open spec fn first_found(rs: Seq<RegionView>, n: Seq<u8>) -> Option<(int, int)>
    decreases rs.len(),
{
    if rs.len() == 0 {
        None
    } else {
        match first_found(rs.drop_last(), n) {
            Some(x) => Some(x),
            None => match region_occurrence(rs.last(), n) {
                Some(p) => Some((rs.len() - 1, p)),
                None => None,
            },
        }
    }
}

/// Every region that a search for the needle looks at holds its bytes: the search stops at
/// the first region that holds the needle.
pub open spec fn found_scan_readable(rs: Seq<RegionView>, n: Seq<u8>) -> bool {
    forall|i: int|
        0 <= i < rs.len() && #[trigger] first_found(rs.take(i), n) is None ==> rs[i].data is Some
}

/// A first region found in a prefix stays the first in the whole sequence.
pub proof fn lemma_first_found_prefix(rs: Seq<RegionView>, k: int, n: Seq<u8>)
    requires
        0 <= k <= rs.len(),
        first_found(rs.take(k), n) is Some,
    ensures
        first_found(rs, n) == first_found(rs.take(k), n),
    decreases rs.len() - k,
{
    if k < rs.len() {
        assert(rs.take(k + 1).drop_last() =~= rs.take(k));
        lemma_first_found_prefix(rs, k + 1, n);
    } else {
        assert(rs.take(k) =~= rs);
    }
}

/// The first region of `rs` that holds a non-empty needle, and the position in it.
fn find_needle(rs: &Vec<Region>, n: &[u8]) -> (r: Option<(usize, usize)>)
    requires
        found_scan_readable(rs.deep_view(), n@),
    ensures
        match r {
            Some((i, p)) => {
                &&& first_found(rs.deep_view(), n@) == Some((i as int, p as int))
                &&& i < rs.len()
            },
            None => first_found(rs.deep_view(), n@) is None,
        },
{
    let ghost v = rs.deep_view();
    let mut i: usize = 0;
    while i < rs.len()
        invariant
            v == rs.deep_view(),
            found_scan_readable(v, n@),
            i <= rs.len(),
            first_found(v.take(i as int), n@) is None,
        decreases rs.len() - i,
    {
        let r = &rs[i];
        assert(v.take(i as int + 1).drop_last() =~= v.take(i as int));
        assert(v[i as int] == r.deep_view());
        assert(first_found(v.take(i as int), n@) is None);
        match &r.data {
            Some(d) => {
                match position_of(d.as_slice(), n) {
                    Some(p) => {
                        proof {
                            assert(v.take(i as int + 1).last() == v[i as int]);
                            lemma_first_found_prefix(v, i as int + 1, n@);
                        }
                        return Some((i, p));
                    },
                    None => {},
                }
            },
            None => {},
        }
        i = i + 1;
    }
    assert(v.take(i as int) =~= v);
    None
}

/// Whether every region that a search for the needle looks at holds its bytes.
fn found_scan_readable_check(rs: &Vec<Region>, n: &[u8]) -> (r: bool)
    ensures
        r == found_scan_readable(rs.deep_view(), n@),
{
    let ghost v = rs.deep_view();
    let mut i: usize = 0;
    while i < rs.len()
        invariant
            v == rs.deep_view(),
            i <= rs.len(),
            first_found(v.take(i as int), n@) is None,
            forall|j: int|
                0 <= j < i && #[trigger] first_found(v.take(j), n@) is None ==> v[j].data is Some,
        decreases rs.len() - i,
    {
        let r = &rs[i];
        assert(v.take(i as int + 1).drop_last() =~= v.take(i as int));
        assert(v[i as int] == r.deep_view());
        assert(v.take(i as int + 1).last() == v[i as int]);
        match &r.data {
            None => {
                return false;
            },
            Some(d) => {
                if position_of(d.as_slice(), n).is_some() {
                    assert forall|j: int|
                        0 <= j < v.len() && #[trigger] first_found(v.take(j), n@) is None
                            implies v[j].data is Some by {
                        if j > i {
                            assert(v.take(j).take(i as int + 1) =~= v.take(i as int + 1));
                            lemma_first_found_prefix(v.take(j), i as int + 1, n@);
                        }
                    }
                    return true;
                }
            },
        }
        i = i + 1;
    }
    assert(v.take(i as int) =~= v);
    true
}

/// The capture groups of each match, in order, that the regular expression `pattern` finds
/// in `hay`: for each match, group zero (the whole match) and then each group, with the
/// bytes it matched where it took part; `None` where `pattern` is not a valid expression.
pub uninterp spec fn regex_captures_of(pattern: Seq<char>, hay: Seq<u8>) -> Option<
    Seq<Seq<Option<Seq<u8>>>>,
>;

/// The matches of a regular expression in a byte string, with their capture groups.
///
/// Trusted: compiles `pattern` with `regex::bytes::Regex::new` and collects
/// `Regex::captures_iter` over `hay`, each match as the list of its groups' bytes. The
/// contract names the result (`regex_captures_of`) as a function of the pattern and the bytes
/// alone; what the expression matches is not stated.
#[verifier::external_body]
fn regex_captures(pattern: &str, hay: &[u8]) -> (r: Option<Vec<Vec<Option<Vec<u8>>>>>)
    ensures
        r.deep_view() == regex_captures_of(pattern@, hay@),
{
    let re = regex::bytes::Regex::new(pattern).ok()?;
    Some(
        re.captures_iter(hay).map(|c| c.iter().map(|g| g.map(|m| m.as_bytes().to_vec())).collect())
            .collect(),
    )
}

/// The matches of `pattern` in the bytes of each region in turn, all together; `None` where
/// the expression is refused.
pub open spec fn captures_in(rs: Seq<RegionView>, pattern: Seq<char>) -> Option<
    Seq<Seq<Option<Seq<u8>>>>,
>
    decreases rs.len(),
{
    if rs.len() == 0 {
        Some(Seq::empty())
    } else {
        match captures_in(rs.drop_last(), pattern) {
            None => None,
            Some(acc) => match regex_captures_of(pattern, rs.last().data.unwrap()) {
                None => None,
                Some(c) => Some(acc + c),
            },
        }
    }
}

/// Every region holds its bytes.
pub open spec fn all_data(rs: Seq<RegionView>) -> bool {
    forall|i: int| 0 <= i < rs.len() ==> (#[trigger] rs[i]).data is Some
}

/// Whether every region holds its bytes.
fn all_have_data(rs: &Vec<Region>) -> (r: bool)
    ensures
        r == all_data(rs.deep_view()),
{
    let ghost v = rs.deep_view();
    let mut i: usize = 0;
    while i < rs.len()
        invariant
            v == rs.deep_view(),
            i <= rs.len(),
            forall|j: int| 0 <= j < i ==> (#[trigger] v[j]).data is Some,
        decreases rs.len() - i,
    {
        assert(v[i as int] == rs[i as int].deep_view());
        if rs[i].data.is_none() {
            return false;
        }
        i = i + 1;
    }
    true
}

/// The matches of `pattern` in each region of `rs`, appended to `acc`.
fn collect_captures(
    rs: &Vec<Region>,
    pattern: &str,
    acc: &mut Vec<Vec<Option<Vec<u8>>>>,
) -> (ok: bool)
    requires
        all_data(rs.deep_view()),
    ensures
        match captures_in(rs.deep_view(), pattern@) {
            Some(c) => ok && final(acc).deep_view() == old(acc).deep_view() + c,
            None => !ok,
        },
{
    let ghost v = rs.deep_view();
    let ghost start = acc.deep_view();
    let mut i: usize = 0;
    while i < rs.len()
        invariant
            v == rs.deep_view(),
            all_data(v),
            i <= rs.len(),
            captures_in(v.take(i as int), pattern@) matches Some(c) && acc.deep_view() == start
                + c,
        decreases rs.len() - i,
    {
        let r = &rs[i];
        assert(v.take(i as int + 1).drop_last() =~= v.take(i as int));
        assert(v[i as int] == r.deep_view());
        assert(v.take(i as int + 1).last() == v[i as int]);
        assert(v[i as int].data is Some);
        match &r.data {
            Some(d) => match regex_captures(pattern, d.as_slice()) {
                Some(mut c) => {
                    let ghost before = acc.deep_view();
                    let ghost cv = c.deep_view();
                    acc.append(&mut c);
                    assert(acc.deep_view() =~= before + cv);
                },
                None => {
                    proof {
                        lemma_captures_none_prefix(v, i as int + 1, pattern@);
                    }
                    return false;
                },
            },
            None => {},
        }
        i = i + 1;
    }
    assert(v.take(i as int) =~= v);
    true
}

/// Once the matches in a prefix cannot be had, those in the whole sequence cannot either.
pub proof fn lemma_captures_none_prefix(rs: Seq<RegionView>, k: int, pattern: Seq<char>)
    requires
        0 <= k <= rs.len(),
        captures_in(rs.take(k), pattern) is None,
    ensures
        captures_in(rs, pattern) is None,
    decreases rs.len() - k,
{
    if k < rs.len() {
        assert(rs.take(k + 1).drop_last() =~= rs.take(k));
        lemma_captures_none_prefix(rs, k + 1, pattern);
    } else {
        assert(rs.take(k) =~= rs);
    }
}

/// What an ELF file holds, as a function of its bytes: its segments, sections and symbols,
/// or the parser's error message.
pub uninterp spec fn elf_contents(bytes: Seq<u8>) -> Result<ElfView, Seq<char>>;

/// The plain values of a parse result.
pub open spec fn elf_result_view(r: Result<ElfImage, String>) -> Result<ElfView, Seq<char>> {
    match r {
        Ok(e) => Ok(e.deep_view()),
        Err(m) => Err(m@),
    }
}

/// Parse an ELF file.
///
/// Trusted: calls `object::File::parse` and reads, in file order, each segment and each
/// section (`address`, `size`, `data`) and each symbol (`name`, `address`); the error is the
/// parser's message. The contract names the result (`elf_contents`) as a function of the
/// bytes alone; which bytes parse, and what they hold, is not stated.
#[verifier::external_body]
pub(crate) fn parse_elf(bytes: &[u8]) -> (r: Result<ElfImage, String>)
    ensures
        elf_result_view(r) == elf_contents(bytes@),
{
    let file = object::File::parse(bytes).map_err(|e| e.to_string())?;
    let segments = file.segments().map(|s| Region::new(s.address(), s.size(), s.data().ok())).collect();
    let sections = file.sections().map(|s| Region::new(s.address(), s.size(), s.data().ok())).collect();
    let symbols = file.symbols().map(|s| SymbolEntry::new(s.name().ok(), s.address())).collect();
    Ok(ElfImage { segments, sections, symbols })
}

/// A slice read from the dump is as long as the range asked for.
pub proof fn lemma_slice_at_len(data: &DumpFile, start: int, end: int)
    ensures
        data.slice_at(start, end) is Some ==> data.slice_at(start, end).unwrap().len() == end
            - start,
{
    match data {
        DumpFile::Raw(items) => {},
        DumpFile::Elf(e) => {
            lemma_first_span_spans(e.deep_view().segments, start, end);
            lemma_first_span_spans(e.deep_view().sections, start, end);
        },
    }
}

/// A first position found below `k` is a place where the needle stands.
pub proof fn lemma_first_occurrence_below_occurs(d: Seq<u8>, n: Seq<u8>, k: int)
    requires
        first_occurrence_below(d, n, k) is Some,
    ensures
        occurs_at(d, n, first_occurrence_below(d, n, k)->0),
        first_occurrence_below(d, n, k)->0 < k,
    decreases k,
{
    if k > 0 && first_occurrence_below(d, n, k - 1) is Some {
        lemma_first_occurrence_below_occurs(d, n, k - 1);
    }
}

/// In a raw image, reading back the bytes at the address where a needle was found gives the
/// needle.
pub proof fn lemma_raw_found_reads_back(data: &DumpFile, n: Seq<u8>)
    requires
        data is Raw,
        data.subslice_at(n) is Some,
    ensures
        data.slice_at(data.subslice_at(n)->0, data.subslice_at(n)->0 + n.len()) == Some(n),
{
    match data {
        DumpFile::Raw(items) => {
            lemma_first_occurrence_below_occurs(items@, n, items@.len() as int);
        },
        DumpFile::Elf(_) => {},
    }
}

/// A memory dump.
pub enum DumpFile {
    /// An ELF core file
    Elf(ElfImage),
    /// A raw image of memory from address zero
    Raw(Vec<u8>),
}

impl DumpFile {
    /// The byte at an address: in a raw image the byte at that offset; in an ELF file the
    /// byte of the first segment, else the first section, that holds the address.
    pub open spec fn byte_at(&self, index: int) -> Option<u8> {
        match self {
            DumpFile::Raw(items) => if 0 <= index < items@.len() {
                Some(items@[index])
            } else {
                None
            },
            DumpFile::Elf(e) => match e.deep_view().spanning(index, index) {
                Some(r) => Some(r.data.unwrap()[index - r.address]),
                None => None,
            },
        }
    }

    /// Reading the byte at `index` is defined: every region looked at ends in the address
    /// space, and the region found holds its bytes, as many as reach the address.
    pub open spec fn byte_readable(&self, index: int) -> bool {
        match self {
            DumpFile::Raw(_) => true,
            DumpFile::Elf(e) => {
                &&& e.deep_view().span_fits(index, index)
                &&& match e.deep_view().spanning(index, index) {
                    Some(r) => r.data is Some && index - r.address < r.data.unwrap().len(),
                    None => true,
                }
            },
        }
    }

    /// The bytes from `start` to `end`, end excluded: in a raw image those offsets; in an ELF
    /// file the bytes of the first segment, else the first section, whose addresses hold both
    /// `start` and `end`.
    pub open spec fn slice_at(&self, start: int, end: int) -> Option<Seq<u8>> {
        match self {
            DumpFile::Raw(items) => if 0 <= start <= end <= items@.len() {
                Some(items@.subrange(start, end))
            } else {
                None
            },
            DumpFile::Elf(e) => match e.deep_view().spanning(start, end) {
                Some(r) => region_slice(r, start, end),
                None => None,
            },
        }
    }

    /// Reading from `start` to `end` is defined: every region looked at ends in the address
    /// space, and the region found holds its bytes.
    pub open spec fn slice_readable(&self, start: int, end: int) -> bool {
        match self {
            DumpFile::Raw(_) => true,
            DumpFile::Elf(e) => {
                &&& e.deep_view().span_fits(start, end)
                &&& match e.deep_view().spanning(start, end) {
                    Some(r) => r.data is Some,
                    None => true,
                }
            },
        }
    }

    /// The address of the first place that holds a non-empty needle: in a raw image its
    /// offset; in an ELF file the address of the first segment, else the first section, whose
    /// bytes hold it, plus its position in them (the address taken as a `usize`).
    pub open spec fn subslice_at(&self, n: Seq<u8>) -> Option<int> {
        if n.len() == 0 {
            None
        } else {
            match self {
                DumpFile::Raw(items) => first_occurrence(items@, n),
                DumpFile::Elf(e) => match e.deep_view().found(n) {
                    Some((r, p)) => Some(p + (r.address as usize)),
                    None => None,
                },
            }
        }
    }

    /// Searching for the needle is defined: every region looked at holds its bytes, and the
    /// address found fits in a `usize`.
    pub open spec fn subslice_readable(&self, n: Seq<u8>) -> bool {
        match self {
            DumpFile::Raw(_) => true,
            DumpFile::Elf(e) => n.len() > 0 ==> {
                &&& e.deep_view().found_readable(n)
                &&& match e.deep_view().found(n) {
                    Some((r, p)) => p + (r.address as usize) <= usize::MAX,
                    None => true,
                }
            },
        }
    }

    /// The matches of `pattern` in the dump: in a raw image, in its bytes; in an ELF file, in
    /// the bytes of each segment and then of each section.
    pub open spec fn captures(&self, pattern: Seq<char>) -> Option<Seq<Seq<Option<Seq<u8>>>>> {
        match self {
            DumpFile::Raw(items) => regex_captures_of(pattern, items@),
            DumpFile::Elf(e) => e.deep_view().captures(pattern),
        }
    }

    /// Every region holds its bytes.
    pub open spec fn regions_readable(&self) -> bool {
        match self {
            DumpFile::Raw(_) => true,
            DumpFile::Elf(e) => all_data(e.deep_view().segments) && all_data(
                e.deep_view().sections,
            ),
        }
    }

    /// Try to detect the type of dump file based on the contents: an ELF file where the
    /// contents parse as one, else a raw image.
    pub fn auto_detect(c: &[u8]) -> (r: Result<DumpFile, String>)
        ensures
            match elf_contents(c@) {
                Ok(v) => r matches Ok(DumpFile::Elf(e)) && e.deep_view() == v,
                Err(_) => r matches Ok(DumpFile::Raw(items)) && items@ == c@,
            },
    {
        match parse_elf(c) {
            Ok(e) => Ok(DumpFile::Elf(e)),
            Err(_) => Ok(DumpFile::Raw(slice_to_vec(c))),
        }
    }

    /// Find a slice within a slice: the address where the needle first stands; `None` for an
    /// empty needle.
    pub fn find_subslice(&self, needle: &[u8]) -> (r: Option<usize>)
        requires
            self.subslice_readable(needle@),
        ensures
            match r {
                Some(a) => self.subslice_at(needle@) == Some(a as int),
                None => self.subslice_at(needle@) is None,
            },
    {
        if needle.len() == 0 {
            return None;
        }
        match self {
            DumpFile::Raw(items) => position_of(items.as_slice(), needle),
            DumpFile::Elf(e) => match find_needle(&e.segments, needle) {
                Some((i, p)) => {
                    assert(e.segments.deep_view()[i as int] == e.segments[i as int].deep_view());
                    Some(p + e.segments[i].address as usize)
                },
                None => match find_needle(&e.sections, needle) {
                    Some((j, p)) => {
                        assert(e.sections.deep_view()[j as int]
                            == e.sections[j as int].deep_view());
                        Some(p + e.sections[j].address as usize)
                    },
                    None => None,
                },
            },
        }
    }

    /// Find the matches of a regular expression, with their capture groups: in every segment
    /// and then every section of an ELF file, or in a raw image. `None` where the expression
    /// is refused.
    pub fn find_with_regex(&self, pattern: &str) -> (r: Option<Vec<Vec<Option<Vec<u8>>>>>)
        requires
            self.regions_readable(),
        ensures
            r.deep_view() == self.captures(pattern@),
    {
        match self {
            DumpFile::Raw(items) => regex_captures(pattern, items.as_slice()),
            DumpFile::Elf(e) => {
                let mut combined: Vec<Vec<Option<Vec<u8>>>> = Vec::new();
                assert(combined.deep_view() =~= Seq::empty());
                if !collect_captures(&e.segments, pattern, &mut combined) {
                    return None;
                }
                if !collect_captures(&e.sections, pattern, &mut combined) {
                    return None;
                }
                Some(combined)
            },
        }
    }

    /// Whether reading from `start` to `end` is defined.
    pub fn is_slice_readable(&self, start: usize, end: usize) -> (r: bool)
        ensures
            r == self.slice_readable(start as int, end as int),
    {
        match self {
            DumpFile::Raw(_) => true,
            DumpFile::Elf(e) => {
                if !span_scan_fits_check(&e.segments, start as u64, end as u64) {
                    return false;
                }
                if find_span(&e.segments, start as u64, end as u64).is_none()
                    && !span_scan_fits_check(&e.sections, start as u64, end as u64) {
                    return false;
                }
                match e.find_region(start as u64, end as u64) {
                    Some(r) => r.data.is_some(),
                    None => true,
                }
            },
        }
    }

    /// Whether reading the byte at `index` is defined.
    pub fn is_byte_readable(&self, index: usize) -> (r: bool)
        ensures
            r == self.byte_readable(index as int),
    {
        match self {
            DumpFile::Raw(_) => true,
            DumpFile::Elf(e) => {
                if !self.is_slice_readable(index, index) {
                    return false;
                }
                match e.find_region(index as u64, index as u64) {
                    Some(s) => match &s.data {
                        Some(a) => (index - s.address as usize) < a.len(),
                        None => false,
                    },
                    None => true,
                }
            },
        }
    }

    /// Whether every region holds its bytes.
    pub fn regions_have_data(&self) -> (r: bool)
        ensures
            r == self.regions_readable(),
    {
        match self {
            DumpFile::Raw(_) => true,
            DumpFile::Elf(e) => all_have_data(&e.segments) && all_have_data(&e.sections),
        }
    }

    /// Whether searching for the needle is defined.
    pub fn is_subslice_readable(&self, needle: &[u8]) -> (r: bool)
        ensures
            r == self.subslice_readable(needle@),
    {
        match self {
            DumpFile::Raw(_) => true,
            DumpFile::Elf(e) => {
                if needle.len() == 0 {
                    return true;
                }
                if !found_scan_readable_check(&e.segments, needle) {
                    return false;
                }
                match find_needle(&e.segments, needle) {
                    Some((i, p)) => {
                        assert(e.segments.deep_view()[i as int]
                            == e.segments[i as int].deep_view());
                        p <= usize::MAX - e.segments[i].address as usize
                    },
                    None => {
                        if !found_scan_readable_check(&e.sections, needle) {
                            return false;
                        }
                        match find_needle(&e.sections, needle) {
                            Some((j, p)) => {
                                assert(e.sections.deep_view()[j as int]
                                    == e.sections[j as int].deep_view());
                                p <= usize::MAX - e.sections[j].address as usize
                            },
                            None => true,
                        }
                    },
                }
            },
        }
    }

    /// Get a byte at the specified address
    pub fn get_u8(&self, index: usize) -> (r: Option<u8>)
        requires
            self.byte_readable(index as int),
        ensures
            r == self.byte_at(index as int),
    {
        match self {
            DumpFile::Raw(items) => if index < items.len() {
                Some(items[index])
            } else {
                None
            },
            DumpFile::Elf(e) => match e.find_region(index as u64, index as u64) {
                Some(s) => match &s.data {
                    Some(a) => Some(a[index - s.address as usize]),
                    None => None,
                },
                None => None,
            },
        }
    }

    /// Get a slice at the specified location
    pub fn get_slice(&self, range: std::ops::Range<usize>) -> (r: Option<Vec<u8>>)
        requires
            self.slice_readable(range.start as int, range.end as int),
        ensures
            match r {
                Some(v) => self.slice_at(range.start as int, range.end as int) == Some(v@),
                None => self.slice_at(range.start as int, range.end as int) is None,
            },
    {
        let start = range.start;
        let end = range.end;
        match self {
            DumpFile::Raw(items) => if start <= end && end <= items.len() {
                Some(slice_to_vec(slice_subrange(items.as_slice(), start, end)))
            } else {
                None
            },
            DumpFile::Elf(e) => match e.find_region(start as u64, end as u64) {
                Some(s) => match &s.data {
                    Some(a) => {
                        let lo = start - s.address as usize;
                        let hi = end - s.address as usize;
                        if lo <= hi && hi <= a.len() {
                            Some(slice_to_vec(slice_subrange(a.as_slice(), lo, hi)))
                        } else {
                            None
                        }
                    },
                    None => None,
                },
                None => None,
            },
        }
    }

    /// Get a slice at the specified location, of the specified length
    pub fn get_slice_with_length(&self, start: usize, len: usize) -> (r: Option<Vec<u8>>)
        requires
            start + len <= usize::MAX,
            self.slice_readable(start as int, start + len),
        ensures
            match r {
                Some(v) => self.slice_at(start as int, start + len) == Some(v@),
                None => self.slice_at(start as int, start + len) is None,
            },
    {
        let range = start..start + len;
        self.get_slice(range)
    }
}

} // verus!
