use doors::analyzer::{DumpFile, ElfImage, Region, SymbolEntry};
use doors::os::{DoorsOs, OperatingSystem, OperatingSystemDetector, OperatingSystemTrait};
use doors::stack_report::{stack_report, StackFunction};
use doors::symbols::{make_symbols, NameForm, Symbol, Symbols, SymbolsTrait};

fn elf_with_segment(vaddr: u64, data: &[u8]) -> Vec<u8> {
    let mut b = Vec::new();
    b.extend_from_slice(&[0x7f, b'E', b'L', b'F', 2, 1, 1, 0, 0, 0, 0, 0, 0, 0, 0, 0]);
    b.extend_from_slice(&4u16.to_le_bytes()); // core file
    b.extend_from_slice(&0x3eu16.to_le_bytes());
    b.extend_from_slice(&1u32.to_le_bytes());
    b.extend_from_slice(&0u64.to_le_bytes()); // entry
    b.extend_from_slice(&64u64.to_le_bytes()); // program headers
    b.extend_from_slice(&0u64.to_le_bytes()); // section headers
    b.extend_from_slice(&0u32.to_le_bytes());
    b.extend_from_slice(&64u16.to_le_bytes());
    b.extend_from_slice(&56u16.to_le_bytes());
    b.extend_from_slice(&1u16.to_le_bytes());
    b.extend_from_slice(&64u16.to_le_bytes());
    b.extend_from_slice(&0u16.to_le_bytes());
    b.extend_from_slice(&0u16.to_le_bytes());
    assert_eq!(b.len(), 64);
    b.extend_from_slice(&1u32.to_le_bytes()); // loadable
    b.extend_from_slice(&4u32.to_le_bytes());
    b.extend_from_slice(&120u64.to_le_bytes());
    b.extend_from_slice(&vaddr.to_le_bytes());
    b.extend_from_slice(&vaddr.to_le_bytes());
    b.extend_from_slice(&(data.len() as u64).to_le_bytes());
    b.extend_from_slice(&(data.len() as u64).to_le_bytes());
    b.extend_from_slice(&0x1000u64.to_le_bytes());
    assert_eq!(b.len(), 120);
    b.extend_from_slice(data);
    b
}

#[test]
fn raw_dump_reads() {
    let d = DumpFile::auto_detect(b"not an elf file at all").unwrap();
    assert!(matches!(d, DumpFile::Raw(_)));
    assert_eq!(d.get_u8(4), Some(b'a'));
    assert_eq!(d.get_u8(100), None);
    assert_eq!(d.get_slice(4..6), Some(b"an".to_vec()));
    assert_eq!(d.get_slice(6..4), None);
    assert_eq!(d.get_slice(20..23), None);
    assert_eq!(d.get_slice_with_length(0, 3), Some(b"not".to_vec()));
    assert_eq!(d.find_subslice(b"elf"), Some(7));
    assert_eq!(d.find_subslice(b"zzz"), None);
    assert_eq!(d.find_subslice(b""), None);
}

#[test]
fn elf_dump_reads_by_address() {
    let bytes = elf_with_segment(0x100000, b"hello doors");
    let d = DumpFile::auto_detect(&bytes).unwrap();
    match &d {
        DumpFile::Elf(e) => {
            assert_eq!(e.segments.len(), 1);
            assert_eq!(e.segments[0].address, 0x100000);
            assert_eq!(e.segments[0].size, 11);
            assert!(e.sections.is_empty());
        }
        DumpFile::Raw(_) => panic!("the bytes are an elf file"),
    }
    assert_eq!(d.get_u8(0x100004), Some(b'o'));
    assert_eq!(d.get_u8(0x10000b), None);
    assert_eq!(d.get_u8(4), None);
    assert_eq!(d.get_slice(0x100006..0x10000a), Some(b"door".to_vec()));
    // a range that ends at the end of the segment is not inside it
    assert_eq!(d.get_slice(0x100006..0x10000b), None);
    assert_eq!(d.find_subslice(b"doors"), Some(0x100006));
}

fn two_segment_dump() -> DumpFile {
    DumpFile::Elf(ElfImage {
        segments: vec![
            Region::new(0x1000, 4, Some(&[1, 2, 3, 4])),
            Region::new(0x1002, 8, Some(&[9, 9, 9, 9, 9, 9, 9, 9])),
        ],
        sections: vec![Region::new(0x2000, 4, Some(b"abcd"))],
        symbols: Vec::new(),
    })
}

#[test]
fn first_region_holding_the_address_wins() {
    let d = two_segment_dump();
    assert_eq!(d.get_u8(0x1002), Some(3));
    assert_eq!(d.get_u8(0x1005), Some(9));
    assert_eq!(d.get_u8(0x2003), Some(b'd'));
    assert_eq!(d.get_slice(0x1002..0x1004), Some(vec![9, 9]));
    assert_eq!(d.find_subslice(&[3, 4]), Some(0x1002));
    assert_eq!(d.find_subslice(b"cd"), Some(0x2002));
    assert!(d.is_slice_readable(0x1000, 0x1001));
}

#[test]
fn regex_captures_in_dump() {
    let d = DumpFile::Raw(b"xx doors version 1.2.3 yy doors version 10.0.1".to_vec());
    let caps = d.find_with_regex("doors version (\\d+.\\d+.\\d+)").unwrap();
    assert_eq!(caps.len(), 2);
    assert_eq!(caps[0][0], Some(b"doors version 1.2.3".to_vec()));
    assert_eq!(caps[0][1], Some(b"1.2.3".to_vec()));
    assert_eq!(caps[1][1], Some(b"10.0.1".to_vec()));
    assert!(d.find_with_regex("(").is_none());
    let e = two_segment_dump();
    let c = e.find_with_regex("[a-z]+").unwrap();
    assert_eq!(c.len(), 1);
    assert_eq!(c[0][0], Some(b"abcd".to_vec()));
}

fn kernel_symbols() -> Symbols {
    Symbols::ObjectSymbols(vec![
        SymbolEntry::new(None, 0x10),
        SymbolEntry::new(Some("_ZN6kernel9scheduler9SCHEDULER17h0123456789abcdefE"), 0x80),
        SymbolEntry::new(Some("KERNEL_STRING"), 0x20),
        SymbolEntry::new(Some("KERNEL_STRING"), 0x30),
    ])
}

#[test]
fn symbol_lookup_raw_and_demangled() {
    let k = kernel_symbols();
    assert_eq!(k.find_symbol("KERNEL_STRING", NameForm::Raw).map(|s| s.address()), Some(0x20));
    assert_eq!(k.find_symbol("kernel::scheduler::SCHEDULER", NameForm::Demangled).map(|s| s.address()), Some(0x80));
    assert!(k.find_symbol("kernel::scheduler::SCHEDULER", NameForm::Raw).is_none());
    assert!(k.find_symbol("missing", NameForm::Demangled).is_none());
    assert_eq!(Symbol::Address(7).address(), 7);
}

#[test]
fn bochs_symbol_file() {
    let text = make_symbols(&kernel_symbols());
    assert_eq!(
        text,
        "80 kernel::scheduler::SCHEDULER::h0123456789abcdef\n20 KERNEL_STRING\n30 KERNEL_STRING\n"
    );
}

#[test]
fn symbols_load_from_elf_bytes() {
    let bytes = elf_with_segment(0x100000, b"abc");
    let s = Symbols::load(&bytes).unwrap();
    assert!(s.find_symbol("x", NameForm::Raw).is_none());
    assert!(Symbols::load(b"garbage").is_err());
}

fn doors_dump(pointer: u64) -> DumpFile {
    let mut mem = vec![0u8; 0x100];
    mem[0x40..0x40 + 17].copy_from_slice(b"DoorsOsIdentifier");
    mem[0x20..0x28].copy_from_slice(&pointer.to_le_bytes());
    mem[0x88..0x90].copy_from_slice(&0xdead_beefu64.to_le_bytes());
    DumpFile::Raw(mem)
}

#[test]
fn doors_is_detected_by_its_identifier() {
    let k = kernel_symbols();
    let os = OperatingSystemDetector::detect_os(&doors_dump(0x40), &k);
    assert!(matches!(os, Some(OperatingSystem::Doors(_))));
    assert!(OperatingSystemDetector::detect_os(&doors_dump(0x41), &k).is_none());
    assert_eq!(OperatingSystemDetector::iter().len(), 2);
}

#[test]
fn doors_activities() {
    let d = doors_dump(0x40);
    let k = kernel_symbols();
    let os = DoorsOs {};
    assert_eq!(os.activity(&d, &k, "test"), vec!["This is a test action".to_string()]);
    assert_eq!(os.activity(&d, &k, "dance"), vec!["Unknown action dance".to_string()]);
    assert!(os.activity(&d, &k, "page_tables").is_empty());
    let lines = os.try_activity(&d, &k, "scheduler").unwrap();
    assert_eq!(lines[0], "Found symbol for the scheduler 80");
    assert!(lines[1].starts_with("Data is Some([00, 00, 00, 00, 00, 00, 00, 00, ef, be, ad, de, 00"));
    assert!(lines[1].ends_with(", 00])"));
    assert_eq!(lines[2], "Got address deadbeef");
    let v = DumpFile::Raw(b"doors version 0.1.2".to_vec());
    assert_eq!(os.try_activity(&v, &k, "version").unwrap(), vec!["Found version 0.1.2".to_string()]);
    // a scheduler whose bytes are not all in the dump cannot be reported on
    let short = DumpFile::Raw(vec![0u8; 0x60]);
    assert!(os.try_activity(&short, &k, "scheduler").is_none());
    let whole = OperatingSystem::Doors(DoorsOs {});
    assert_eq!(whole.try_activity(&d, &k, "test").unwrap(), vec!["This is a test action".to_string()]);
}

#[test]
fn stack_report_largest_first() {
    let fs = vec![
        StackFunction::new(0x100, &["main"], 0x20, Some(16)),
        StackFunction::new(0x200, &["helper", "alias"], 0x8, None),
        StackFunction::new(0x300, &["big.llvm.0123ABCD"], 0x40, Some(64)),
        StackFunction::new(0x400, &["also16"], 0x4, Some(16)),
    ];
    let text = stack_report(&fs);
    let expected = "Function big @300\n\t size: 0x40, stack: 0x40\n\
Function also16 @400\n\t size: 0x4, stack: 0x10\n\
Function main @100\n\t size: 0x20, stack: 0x10\n\
Function helper @200\n\t size: 0x8, stack: None\n\
Function alias @200\n\t size: 0x8, stack: None\n";
    assert_eq!(text, expected);
    assert_eq!(stack_report(&Vec::new()), "");
}

#[test]
fn raw_found_needle_reads_back() {
    let d = DumpFile::Raw(b"abcabcall".to_vec());
    let p = d.find_subslice(b"cal").unwrap();
    assert_eq!(p, 5);
    assert_eq!(d.get_slice(p..p + 3), Some(b"cal".to_vec()));
    let q = d.find_subslice(b"bc").unwrap();
    assert_eq!(q, 1);
    assert_eq!(d.get_slice_with_length(q, 2), Some(b"bc".to_vec()));
}

#[test]
fn stack_report_keeps_names_without_an_lto_suffix() {
    let fs = vec![
        StackFunction::new(0x10, &["f.llvm.12ab"], 0x1, Some(1)),
        StackFunction::new(0x20, &["g.llvm.1.llvm.2"], 0x1, Some(2)),
        StackFunction::new(0x30, &["h.llvm."], 0x1, Some(3)),
    ];
    let text = stack_report(&fs);
    let expected = "Function h @30\n\t size: 0x1, stack: 0x3\n\
Function g.llvm.1.llvm.2 @20\n\t size: 0x1, stack: 0x2\n\
Function f.llvm.12ab @10\n\t size: 0x1, stack: 0x1\n";
    assert_eq!(text, expected);
}
