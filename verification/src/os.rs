//! Operating systems that the analyzer recognises in a memory dump, and what it can report
//! about them.

use vstd::prelude::*;
use vstd::string::{StrSliceExecFns, StringSliceAdditionalSpecFns};
use vstd::utf8::{decode_utf8, valid_utf8};
use crate::analyzer::{lemma_slice_at_len, le64, read_le64, regex_captures_of, DumpFile};
use crate::symbols::{NameForm, Symbol, Symbols, SymbolsTrait};
use crate::text::{debug_hex_bytes, debug_hex_string, hex, push_hex, utf8_text};

verus! {

/// The bytes that the doors kernel keeps in memory to be recognised.
pub open spec fn doors_identifier() -> Seq<u8> {
    "DoorsOsIdentifier".spec_bytes()
}

/// The symbol that holds the address of the kernel's identifying string.
pub open spec fn kernel_string_symbol() -> Seq<char> {
    "KERNEL_STRING"@
}

/// The symbol of the boot page table.
pub open spec fn page_table_symbol() -> Seq<char> {
    "PAGE_TABLE_PML4_BOOT"@
}

/// The symbol of the scheduler.
pub open spec fn scheduler_symbol() -> Seq<char> {
    "kernel::scheduler::SCHEDULER"@
}

/// The regular expression that finds the version string of the kernel.
pub open spec fn version_pattern() -> Seq<char> {
    "doors version (\\d+.\\d+.\\d+)"@
}

/// The doors operating system.
#[derive(Clone, Debug, Default)]
pub struct DoorsOs {}

/// An operating system that was recognised.
#[derive(Debug)]
pub enum OperatingSystem {
    Doors(DoorsOs),
}

/// Reporting on a recognised operating system.
pub trait OperatingSystemTrait {
    /// The activity can be carried out on this dump and these symbols.
    spec fn activity_defined(&self, data: &DumpFile, kernel: &Symbols, action: Seq<char>) -> bool;

    /// The lines that the activity reports.
    spec fn activity_lines(&self, data: &DumpFile, kernel: &Symbols, action: Seq<char>) -> Seq<
        Seq<char>,
    >;

    /// Carry out an activity on the dump, and give the lines that it reports.
    fn activity(&self, data: &DumpFile, kernel: &Symbols, action: &str) -> (r: Vec<String>)
        requires
            self.activity_defined(data, kernel, action@),
        ensures
            r.deep_view() == self.activity_lines(data, kernel, action@),
    ;
}

/// Recognising an operating system.
pub trait OperatingSystemDetectorTrait {
    /// Detection can be carried out on this dump and these symbols.
    spec fn detect_defined(&self, data: &DumpFile, kernel: &Symbols) -> bool;

    /// The system is recognised in the dump.
    spec fn detected(&self, data: &DumpFile, kernel: &Symbols) -> bool;

    /// The system that detection yields.
    spec fn os(&self) -> Option<OperatingSystem>;

    /// Detects the operating system, returns true if it was properly detected
    fn detect(&self, data: &DumpFile, kernel: &Symbols) -> (r: bool)
        requires
            self.detect_defined(data, kernel),
        ensures
            r == self.detected(data, kernel),
    ;

    /// Get the operating system object
    fn get_os(&self) -> (r: Option<OperatingSystem>)
        ensures
            r == self.os(),
    ;
}

/// The version lines: one for each match, with the text of its first group.
pub open spec fn version_lines(caps: Seq<Seq<Option<Seq<u8>>>>) -> Seq<Seq<char>> {
    caps.map_values(|c: Seq<Option<Seq<u8>>>| "Found version "@ + decode_utf8(c[1].unwrap()))
}

/// Each match has a first group that took part, whose bytes are valid utf-8.
pub open spec fn versions_readable(caps: Seq<Seq<Option<Seq<u8>>>>) -> bool {
    forall|i: int|
        0 <= i < caps.len() ==> {
            &&& (#[trigger] caps[i]).len() > 1
            &&& caps[i][1] is Some
            &&& valid_utf8(caps[i][1].unwrap())
        }
}

/// The scheduler at `addr` can be reported on: its first 128 bytes and the word that
/// follows its first eight bytes can be read, and that word is there.
pub open spec fn scheduler_readable(data: &DumpFile, addr: int) -> bool {
    &&& addr + 128 <= usize::MAX
    &&& data.slice_readable(addr, addr + 128)
    &&& data.slice_readable(addr + 8, addr + 16)
    &&& data.slice_at(addr + 8, addr + 16) is Some
}

/// The lines reported on the scheduler at `addr`.
pub open spec fn scheduler_lines(data: &DumpFile, addr: int) -> Seq<Seq<char>> {
    seq![
        "Found symbol for the scheduler "@ + hex(addr as nat),
        "Data is "@ + debug_hex_bytes(data.slice_at(addr, addr + 128)),
        "Got address "@ + hex(le64(data.slice_at(addr + 8, addr + 16).unwrap()) as nat),
    ]
}

/// The two activities that can fail are told apart by their names.
proof fn lemma_version_is_not_scheduler()
    ensures
        "version"@ != "scheduler"@,
{
    reveal_strlit("version");
    reveal_strlit("scheduler");
    assert("version"@.len() == 7);
    assert("scheduler"@.len() == 9);
}

/// Whether each match has a first group that took part, whose bytes are valid utf-8.
fn versions_ok(caps: &Vec<Vec<Option<Vec<u8>>>>) -> (r: bool)
    ensures
        r == versions_readable(caps.deep_view()),
{
    let ghost cv = caps.deep_view();
    let mut i: usize = 0;
    while i < caps.len()
        invariant
            cv == caps.deep_view(),
            i <= caps.len(),
            forall|j: int|
                0 <= j < i ==> {
                    &&& (#[trigger] cv[j]).len() > 1
                    &&& cv[j][1] is Some
                    &&& valid_utf8(cv[j][1].unwrap())
                },
        decreases caps.len() - i,
    {
        assert(cv[i as int] == caps[i as int].deep_view());
        if caps[i].len() < 2 {
            return false;
        }
        assert(caps[i as int].deep_view()[1] == caps[i as int][1].deep_view());
        match &caps[i][1] {
            Some(g) => {
                assert(g.deep_view() =~= g@);
                if utf8_text(g.as_slice()).is_none() {
                    return false;
                }
            },
            None => {
                return false;
            },
        }
        i = i + 1;
    }
    true
}

/// An activity can be carried out on the doors system: a version whose text can be read, a
/// scheduler whose bytes can be.
pub open spec fn doors_activity_defined(data: &DumpFile, kernel: &Symbols, action: Seq<char>) -> bool {
    &&& action == "version"@ ==> {
        &&& data.regions_readable()
        &&& data.captures(version_pattern()) matches Some(c) && versions_readable(c)
    }
    &&& action == "scheduler"@ ==> match kernel.lookup(scheduler_symbol(), NameForm::Demangled) {
        Some(s) => scheduler_readable(data, s->Address_0 as int),
        None => true,
    }
}

impl DoorsOs {
    /// The lines for the version of the kernel found in the dump.
    fn report_versions(data: &DumpFile) -> (r: Vec<String>)
        requires
            data.regions_readable(),
            data.captures(version_pattern()) matches Some(c) && versions_readable(c),
        ensures
            r.deep_view() == version_lines(data.captures(version_pattern()).unwrap()),
    {
        let caps = match data.find_with_regex("doors version (\\d+.\\d+.\\d+)") {
            Some(c) => c,
            None => {
                return Vec::new();
            },
        };
        let ghost cv = caps.deep_view();
        let mut lines: Vec<String> = Vec::new();
        let mut i: usize = 0;
        while i < caps.len()
            invariant
                cv == caps.deep_view(),
                versions_readable(cv),
                i <= caps.len(),
                lines.deep_view() == version_lines(cv.take(i as int)),
            decreases caps.len() - i,
        {
            assert(cv[i as int] == caps[i as int].deep_view());
            assert(caps[i as int].deep_view()[1] == caps[i as int][1].deep_view());
            let group = &caps[i][1];
            let text = match group {
                Some(g) => {
                    assert(g.deep_view() =~= g@);
                    match utf8_text(g.as_slice()) {
                        Some(t) => t,
                        None => String::new(),
                    }
                },
                None => String::new(),
            };
            let mut line = "Found version ".to_string();
            line.append(text.as_str());
            assert(line@ == "Found version "@ + decode_utf8(cv[i as int][1].unwrap()));
            let ghost before = lines.deep_view();
            lines.push(line);
            assert(lines.deep_view() =~= before.push(line@));
            assert(version_lines(cv.take(i as int + 1)) =~= version_lines(cv.take(i as int)).push(
                line@,
            ));
            i = i + 1;
        }
        assert(cv.take(i as int) =~= cv);
        lines
    }

    /// The lines reported on the scheduler at `addr`.
    fn report_scheduler(data: &DumpFile, addr: usize) -> (r: Vec<String>)
        requires
            scheduler_readable(data, addr as int),
        ensures
            r.deep_view() == scheduler_lines(data, addr as int),
    {
        let mut found = "Found symbol for the scheduler ".to_string();
        push_hex(&mut found, addr as u64);
        let mut shown = "Data is ".to_string();
        let d = data.get_slice_with_length(addr, 128);
        shown.append(debug_hex_string(&d).as_str());
        let w = data.get_slice_with_length(addr + 8, 8);
        proof {
            lemma_slice_at_len(data, addr + 8, addr + 16);
        }
        let mut got = "Got address ".to_string();
        match w {
            Some(b) => {
                push_hex(&mut got, read_le64(b.as_slice()));
            },
            None => {},
        }
        let mut lines: Vec<String> = Vec::new();
        lines.push(found);
        lines.push(shown);
        lines.push(got);
        assert(lines.deep_view() =~= scheduler_lines(data, addr as int));
        lines
    }

    /// The lines an activity reports, where it can be carried out: `None` where the doors
    /// tool would stop on it (a version whose text cannot be read, or a scheduler whose bytes
    /// cannot be).
    pub fn try_activity(&self, data: &DumpFile, kernel: &Symbols, action: &str) -> (r: Option<
        Vec<String>,
    >)
        requires
            action@ == "version"@ ==> data.regions_readable(),
        ensures
            r is Some <==> self.activity_defined(data, kernel, action@),
            r matches Some(v) ==> v.deep_view() == self.activity_lines(data, kernel, action@),
    {
        proof {
            lemma_version_is_not_scheduler();
        }
        let a = action.to_string();
        if a == "version".to_string() {
            let caps = match data.find_with_regex("doors version (\\d+.\\d+.\\d+)") {
                Some(c) => c,
                None => {
                    return None;
                },
            };
            if !versions_ok(&caps) {
                return None;
            }
        } else if a == "scheduler".to_string() {
            match kernel.find_symbol("kernel::scheduler::SCHEDULER", NameForm::Demangled) {
                Some(s) => {
                    let addr = s.address();
                    if addr > usize::MAX - 128 {
                        return None;
                    }
                    if !data.is_slice_readable(addr, addr + 128) || !data.is_slice_readable(
                        addr + 8,
                        addr + 16,
                    ) {
                        return None;
                    }
                    if data.get_slice_with_length(addr + 8, 8).is_none() {
                        return None;
                    }
                },
                None => {},
            }
        }
        Some(self.activity(data, kernel, action))
    }
}

impl OperatingSystemTrait for DoorsOs {
    open spec fn activity_defined(&self, data: &DumpFile, kernel: &Symbols, action: Seq<char>) -> bool {
        doors_activity_defined(data, kernel, action)
    }

    open spec fn activity_lines(&self, data: &DumpFile, kernel: &Symbols, action: Seq<char>) -> Seq<
        Seq<char>,
    > {
        if action == "page_tables"@ {
            match kernel.lookup(page_table_symbol(), NameForm::Demangled) {
                Some(s) => seq!["Found symbol for the page table "@ + hex(s->Address_0 as nat)],
                None => Seq::empty(),
            }
        } else if action == "version"@ {
            version_lines(data.captures(version_pattern()).unwrap())
        } else if action == "scheduler"@ {
            match kernel.lookup(scheduler_symbol(), NameForm::Demangled) {
                Some(s) => scheduler_lines(data, s->Address_0 as int),
                None => Seq::empty(),
            }
        } else if action == "test"@ {
            seq!["This is a test action"@]
        } else {
            seq!["Unknown action "@ + action]
        }
    }

    fn activity(&self, data: &DumpFile, kernel: &Symbols, action: &str) -> (r: Vec<String>) {
        let a = action.to_string();
        let mut lines: Vec<String> = Vec::new();
        if a == "page_tables".to_string() {
            match kernel.find_symbol("PAGE_TABLE_PML4_BOOT", NameForm::Demangled) {
                Some(s) => {
                    let mut line = "Found symbol for the page table ".to_string();
                    push_hex(&mut line, s.address() as u64);
                    lines.push(line);
                },
                None => {},
            }
        } else if a == "version".to_string() {
            lines = Self::report_versions(data);
        } else if a == "scheduler".to_string() {
            match kernel.find_symbol("kernel::scheduler::SCHEDULER", NameForm::Demangled) {
                Some(s) => {
                    lines = Self::report_scheduler(data, s.address());
                },
                None => {},
            }
        } else if a == "test".to_string() {
            lines.push("This is a test action".to_string());
        } else {
            let mut line = "Unknown action ".to_string();
            line.append(action);
            lines.push(line);
        }
        assert(lines.deep_view() =~= self.activity_lines(data, kernel, action@));
        lines
    }
}

/// Detection of the doors system can be carried out: the identifying bytes are in the dump,
/// the kernel has the symbol that points at them, and the eight bytes at that symbol can be
/// read.
pub open spec fn doors_detect_defined(data: &DumpFile, kernel: &Symbols) -> bool {
    &&& data.subslice_readable(doors_identifier())
    &&& data.subslice_at(doors_identifier()) is Some
    &&& match kernel.lookup(kernel_string_symbol(), NameForm::Raw) {
        Some(s) => {
            &&& s->Address_0 + 8 <= usize::MAX
            &&& data.slice_readable(s->Address_0 as int, s->Address_0 + 8)
            &&& data.slice_at(s->Address_0 as int, s->Address_0 + 8) is Some
        },
        None => false,
    }
}

/// The doors system is recognised: the word at the kernel's identifying symbol is the
/// address where the identifying bytes first stand in the dump.
pub open spec fn doors_detected(data: &DumpFile, kernel: &Symbols) -> bool {
    let a = kernel.lookup(kernel_string_symbol(), NameForm::Raw).unwrap()->Address_0 as int;
    le64(data.slice_at(a, a + 8).unwrap()) == data.subslice_at(doors_identifier()).unwrap()
}

/// Whether detection of the doors system can be carried out on this dump and these symbols.
pub fn can_detect_doors(data: &DumpFile, kernel: &Symbols) -> (r: bool)
    ensures
        r == doors_detect_defined(data, kernel),
{
    let ident = "DoorsOsIdentifier".as_bytes_vec();
    if !data.is_subslice_readable(ident.as_slice()) {
        return false;
    }
    if data.find_subslice(ident.as_slice()).is_none() {
        return false;
    }
    match kernel.find_symbol("KERNEL_STRING", NameForm::Raw) {
        Some(s) => {
            let a = s.address();
            if a > usize::MAX - 8 {
                return false;
            }
            if !data.is_slice_readable(a, a + 8) {
                return false;
            }
            data.get_slice(a..a + 8).is_some()
        },
        None => false,
    }
}

impl OperatingSystemDetectorTrait for DoorsOs {
    open spec fn detect_defined(&self, data: &DumpFile, kernel: &Symbols) -> bool {
        doors_detect_defined(data, kernel)
    }

    open spec fn detected(&self, data: &DumpFile, kernel: &Symbols) -> bool {
        doors_detected(data, kernel)
    }

    open spec fn os(&self) -> Option<OperatingSystem> {
        Some(OperatingSystem::Doors(DoorsOs {  }))
    }

    fn detect(&self, data: &DumpFile, kernel: &Symbols) -> (r: bool) {
        let ident = "DoorsOsIdentifier".as_bytes_vec();
        let banner_search = match data.find_subslice(ident.as_slice()) {
            Some(p) => p,
            None => {
                return false;
            },
        };
        let banner_symbol = match kernel.find_symbol("KERNEL_STRING", NameForm::Raw) {
            Some(s) => s,
            None => {
                return false;
            },
        };
        let a = banner_symbol.address();
        let banner_address = match data.get_slice(a..a + 8) {
            Some(b) => b,
            None => {
                return false;
            },
        };
        proof {
            lemma_slice_at_len(data, a as int, a + 8);
        }
        let banner_address = read_le64(banner_address.as_slice());
        banner_address == banner_search as u64
    }

    fn get_os(&self) -> (r: Option<OperatingSystem>) {
        Some(OperatingSystem::Doors(DoorsOs {  }))
    }
}

/// The detector that stands for no known system: it always matches and yields none.
impl OperatingSystemDetectorTrait for u32 {
    open spec fn detect_defined(&self, data: &DumpFile, kernel: &Symbols) -> bool {
        true
    }

    open spec fn detected(&self, data: &DumpFile, kernel: &Symbols) -> bool {
        true
    }

    open spec fn os(&self) -> Option<OperatingSystem> {
        None
    }

    fn detect(&self, _data: &DumpFile, _kernel: &Symbols) -> (r: bool) {
        true
    }

    fn get_os(&self) -> (r: Option<OperatingSystem>) {
        None
    }
}

impl OperatingSystemTrait for OperatingSystem {
    open spec fn activity_defined(&self, data: &DumpFile, kernel: &Symbols, action: Seq<char>) -> bool {
        match self {
            OperatingSystem::Doors(d) => d.activity_defined(data, kernel, action),
        }
    }

    open spec fn activity_lines(&self, data: &DumpFile, kernel: &Symbols, action: Seq<char>) -> Seq<
        Seq<char>,
    > {
        match self {
            OperatingSystem::Doors(d) => d.activity_lines(data, kernel, action),
        }
    }

    fn activity(&self, data: &DumpFile, kernel: &Symbols, action: &str) -> (r: Vec<String>) {
        match self {
            OperatingSystem::Doors(d) => d.activity(data, kernel, action),
        }
    }
}

impl OperatingSystem {
    /// The lines an activity reports, where it can be carried out; `None` where the tool would
    /// stop on it.
    pub fn try_activity(&self, data: &DumpFile, kernel: &Symbols, action: &str) -> (r: Option<
        Vec<String>,
    >)
        requires
            action@ == "version"@ ==> data.regions_readable(),
        ensures
            r is Some <==> self.activity_defined(data, kernel, action@),
            r matches Some(v) ==> v.deep_view() == self.activity_lines(data, kernel, action@),
    {
        match self {
            OperatingSystem::Doors(d) => d.try_activity(data, kernel, action),
        }
    }
}

/// The systems that the analyzer tries, in order.
pub enum OperatingSystemDetector {
    Doors(DoorsOs),
    /// Matches when no system before it did
    NoOs(u32),
}

impl OperatingSystemDetectorTrait for OperatingSystemDetector {
    open spec fn detect_defined(&self, data: &DumpFile, kernel: &Symbols) -> bool {
        match self {
            OperatingSystemDetector::Doors(d) => d.detect_defined(data, kernel),
            OperatingSystemDetector::NoOs(n) => n.detect_defined(data, kernel),
        }
    }

    open spec fn detected(&self, data: &DumpFile, kernel: &Symbols) -> bool {
        match self {
            OperatingSystemDetector::Doors(d) => d.detected(data, kernel),
            OperatingSystemDetector::NoOs(n) => n.detected(data, kernel),
        }
    }

    open spec fn os(&self) -> Option<OperatingSystem> {
        match self {
            OperatingSystemDetector::Doors(d) => d.os(),
            OperatingSystemDetector::NoOs(n) => n.os(),
        }
    }

    fn detect(&self, data: &DumpFile, kernel: &Symbols) -> (r: bool) {
        match self {
            OperatingSystemDetector::Doors(d) => d.detect(data, kernel),
            OperatingSystemDetector::NoOs(n) => n.detect(data, kernel),
        }
    }

    fn get_os(&self) -> (r: Option<OperatingSystem>) {
        match self {
            OperatingSystemDetector::Doors(d) => d.get_os(),
            OperatingSystemDetector::NoOs(n) => n.get_os(),
        }
    }
}

impl OperatingSystemDetector {
    /// Every detector, in the order they are tried, each with default contents.
    pub fn iter() -> (r: Vec<OperatingSystemDetector>)
        ensures
            r@ == seq![
                OperatingSystemDetector::Doors(DoorsOs {  }),
                OperatingSystemDetector::NoOs(0),
            ],
    {
        let mut v: Vec<OperatingSystemDetector> = Vec::new();
        v.push(OperatingSystemDetector::Doors(DoorsOs {  }));
        v.push(OperatingSystemDetector::NoOs(0));
        v
    }

    /// Try each detector in turn; the system of the first that matches.
    pub fn detect_os(data: &DumpFile, kernel: &Symbols) -> (r: Option<OperatingSystem>)
        requires
            doors_detect_defined(data, kernel),
        ensures
            r == (if doors_detected(data, kernel) {
                Some(OperatingSystem::Doors(DoorsOs {  }))
            } else {
                None
            }),
    {
        let all = Self::iter();
        let mut i: usize = 0;
        while i < all.len()
            invariant
                all@ == seq![
                    OperatingSystemDetector::Doors(DoorsOs {  }),
                    OperatingSystemDetector::NoOs(0),
                ],
                i <= 2,
                doors_detect_defined(data, kernel),
                i >= 1 ==> !doors_detected(data, kernel),
            decreases all.len() - i,
        {
            if all[i].detect(data, kernel) {
                return all[i].get_os();
            }
            i = i + 1;
        }
        None
    }
}

} // verus!
