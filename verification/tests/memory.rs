use anglerkit::error::Error;
use anglerkit::os::memory::{
    collect_regions, end_of_pages, from_native_prot, mem_protect_guard_windows, query,
    to_native_prot, touches_one_page, trim_last, GuardOp, MemFunctions, MemProtectGuard,
    MemoryRegion, Protection,
};
use anglerkit::os::{OsErr, OsFunctions};
use windows_sys::Win32::System::Memory;

const PAGE: usize = 4096;

const ALL: [Protection; 8] = [
    Protection::NONE,
    Protection::READ,
    Protection::WRITE,
    Protection::READ_WRITE,
    Protection::EXECUTE,
    Protection::READ_EXECUTE,
    Protection::WRITE_EXECUTE,
    Protection::READ_WRITE_EXECUTE,
];

/// Memory pages with a protection each.
struct Pages {
    pages: Vec<Protection>,
    refuse_query: bool,
    refuse_prot: Option<Protection>,
}

impl Pages {
    fn new(pages: &[Protection]) -> Self {
        Pages { pages: pages.to_vec(), refuse_query: false, refuse_prot: None }
    }

    fn touched(&self, addr: usize, size: usize) -> std::ops::Range<usize> {
        addr / PAGE..(addr + size).div_ceil(PAGE)
    }
}

impl MemFunctions for Pages {
    fn page_size(&self) -> usize {
        PAGE
    }

    fn mem_query(&self, addr: usize, size: usize) -> Result<Vec<MemoryRegion>, OsErr> {
        if self.refuse_query {
            return Err(OsErr::from_str("no query"));
        }
        let mut regions: Vec<MemoryRegion> = Vec::new();
        for (i, prot) in self.pages.iter().enumerate() {
            match regions.last_mut() {
                Some(last) if last.prot == *prot => last.size += PAGE,
                _ => regions.push(MemoryRegion { base: i * PAGE, size: PAGE, prot: *prot }),
            }
        }
        let touched = self.touched(addr, size);
        regions.retain(|r| r.base < touched.end * PAGE && touched.start * PAGE < r.base + r.size);
        Ok(regions)
    }

    fn mem_protect(&mut self, addr: usize, size: usize, prot: Protection) -> Result<(), OsErr> {
        if self.refuse_prot == Some(prot) {
            return Err(OsErr::from_string("refused".to_string()));
        }
        for i in self.touched(addr, size) {
            self.pages[i] = prot;
        }
        Ok(())
    }
}

impl OsFunctions for Pages {}

#[test]
fn bits_of_protections() {
    for (bits, prot) in ALL.iter().enumerate() {
        assert_eq!(prot.bits(), bits);
        assert_eq!(Protection::from_bits(bits), Some(*prot));
    }
    assert_eq!(Protection::from_bits(8), None);
    assert_eq!(Protection::default(), Protection::NONE);
}

#[test]
fn guard_restores_protection() {
    let before = [
        Protection::READ,
        Protection::READ,
        Protection::READ_EXECUTE,
        Protection::NONE,
        Protection::NONE,
    ];
    for first in 0..before.len() {
        for last in first..before.len() {
            let mut os = Pages::new(&before);
            let addr = first * PAGE + 100;
            let size = (last - first) * PAGE + 8;
            let guard = os.mem_protect_guard(addr, size, Protection::READ_WRITE).unwrap();
            for (i, prot) in os.pages.iter().enumerate() {
                let changed = first <= i && i <= last;
                assert_eq!(*prot, if changed { Protection::READ_WRITE } else { before[i] });
            }
            guard.revert(&mut os).unwrap();
            assert_eq!(os.pages, before);
        }
    }
}

#[test]
fn guard_trims_the_last_region() {
    let mut os = Pages::new(&[Protection::READ; 5]);
    let guard = os.mem_protect_guard(PAGE + 1, PAGE, Protection::NONE).unwrap();
    assert_eq!(
        *guard.regions(),
        vec![MemoryRegion { base: 0, size: 3 * PAGE, prot: Protection::READ }]
    );
}

#[test]
fn steps_of_a_guard() {
    assert!(matches!(GuardOp::begin(true), GuardOp::ProtectPage));
    assert!(matches!(GuardOp::begin(false), GuardOp::Query));
    let region = MemoryRegion { base: 0, size: 3 * PAGE, prot: Protection::READ };
    let trimmed = MemoryRegion { size: PAGE, ..region };
    match GuardOp::queried(Ok(vec![region]), PAGE) {
        GuardOp::Protect { kept } => {
            assert_eq!(kept, vec![trimmed]);
            let guard = GuardOp::protected(kept, Ok(())).ok().unwrap();
            assert_eq!(*guard.regions(), vec![trimmed]);
        }
        _ => panic!("the protection is not changed"),
    }
    let refused = GuardOp::queried(Err(OsErr::from_str("no query")), PAGE);
    assert!(matches!(refused, GuardOp::Done(Err(_))));
    assert!(GuardOp::protected(vec![region], Err(OsErr::from_str("refused"))).is_err());
    let guard = GuardOp::page_protected(PAGE, PAGE, Ok(Protection::NONE)).ok().unwrap();
    let page = MemoryRegion { base: PAGE, size: PAGE, prot: Protection::NONE };
    assert_eq!(*guard.regions(), vec![page]);
    assert!(GuardOp::page_protected(PAGE, PAGE, Err(OsErr::from_str("refused"))).is_err());
}

#[test]
fn regions_are_queried_before_the_change() {
    /// What a query answers, and the changes of protection.
    struct Two(Vec<(usize, usize, Protection)>);

    impl MemFunctions for Two {
        fn page_size(&self) -> usize {
            0x1000
        }

        fn mem_query(&self, addr: usize, size: usize) -> Result<Vec<MemoryRegion>, OsErr> {
            assert_eq!((addr, size), (0x1FFC, 8));
            assert!(self.0.is_empty());
            Ok(vec![
                MemoryRegion { base: 0x1000, size: 0x1000, prot: Protection::READ },
                MemoryRegion { base: 0x2000, size: 0x5000, prot: Protection::READ_EXECUTE },
            ])
        }

        fn mem_protect(&mut self, addr: usize, size: usize, prot: Protection) -> Result<(), OsErr> {
            self.0.push((addr, size, prot));
            Ok(())
        }
    }

    let mut os = Two(Vec::new());
    let guard = os.mem_protect_guard(0x1FFC, 8, Protection::READ_WRITE).ok().unwrap();
    assert_eq!(
        *guard.regions(),
        vec![
            MemoryRegion { base: 0x1000, size: 0x1000, prot: Protection::READ },
            MemoryRegion { base: 0x2000, size: 0x1000, prot: Protection::READ_EXECUTE },
        ]
    );
    assert_eq!(os.0, vec![(0x1FFC, 8, Protection::READ_WRITE)]);
}

#[test]
fn guard_needs_the_regions() {
    let mut os = Pages::new(&[Protection::READ; 2]);
    os.refuse_query = true;
    let error = os.mem_protect_guard(0, 1, Protection::NONE).err().unwrap();
    assert_eq!(error.message(), "OS error: no query");
    assert_eq!(os.pages, [Protection::READ; 2]);
}

#[test]
fn guard_needs_the_change() {
    let mut os = Pages::new(&[Protection::READ; 2]);
    os.refuse_prot = Some(Protection::NONE);
    let error = os.mem_protect_guard(0, 1, Protection::NONE).err().unwrap();
    assert_eq!(error.message(), "OS error: refused");
}

#[test]
fn revert_stops_at_the_first_error() {
    let mut os = Pages::new(&[Protection::NONE; 3]);
    os.refuse_prot = Some(Protection::WRITE);
    let region = |i: usize, prot| MemoryRegion { base: i * PAGE, size: PAGE, prot };
    let guard = MemProtectGuard::new(vec![
        region(0, Protection::READ),
        region(1, Protection::WRITE),
        region(2, Protection::READ),
    ]);
    assert!(guard.revert(&mut os).is_err());
    assert_eq!(os.pages, [Protection::READ, Protection::NONE, Protection::NONE]);
}

#[test]
fn pages_end_at_a_multiple_of_their_size() {
    assert_eq!(end_of_pages(0, 0, PAGE), 0);
    assert_eq!(end_of_pages(10, 20, PAGE), PAGE);
    assert_eq!(end_of_pages(PAGE - 1, 2, PAGE), 2 * PAGE);
    assert_eq!(end_of_pages(usize::MAX - 1, 1, PAGE), usize::MAX - PAGE + 1);
}

#[test]
fn region_behind_the_end_is_not_trimmed() {
    let region = |base| MemoryRegion { base, size: 100, prot: Protection::READ };
    let mut regions = vec![region(0), region(200)];
    trim_last(&mut regions, 150);
    assert_eq!(regions, vec![region(0), region(200)]);
    trim_last(&mut regions, 250);
    assert_eq!(regions[1].size, 50);
    trim_last(&mut Vec::new(), 250);
}

#[test]
fn first_error_among_the_reports() {
    let regions = collect_regions(vec![Ok((4096, 8192, 5)), Ok((16384, 4096, 0))]).unwrap();
    assert_eq!(
        regions,
        vec![
            MemoryRegion { base: 4096, size: 8192, prot: Protection::READ_EXECUTE },
            MemoryRegion { base: 16384, size: 4096, prot: Protection::NONE },
        ]
    );
    let reports = vec![Ok((0, 1, 2)), Err("first".to_string()), Err("second".to_string())];
    assert_eq!(collect_regions(reports).unwrap_err().message(), "OS error: first");
}

#[test]
fn query_reports_the_regions_of_the_process() {
    let values = vec![1u8; 100000];
    let addr = values.as_ptr().addr();
    let regions = query(addr, values.len()).unwrap();
    assert!(!regions.is_empty());
    assert!(regions[0].base <= addr && addr < regions[0].base + regions[0].size);
    assert_eq!(regions[0].prot, Protection::READ_WRITE);
    assert_eq!(regions[0].base % region::page::size(), 0);
    let last = regions[regions.len() - 1];
    assert!(addr + values.len() <= last.base + last.size);
    assert_eq!(values[99999], 1);
}

#[test]
fn query_of_nothing_is_an_error() {
    let error = query(4096, 0).unwrap_err();
    assert_eq!(error.message(), "OS error: Invalid parameter value: size");
}

#[test]
fn native_protections() {
    assert_eq!(to_native_prot(Protection::NONE), Memory::PAGE_NOACCESS);
    assert_eq!(to_native_prot(Protection::READ), Memory::PAGE_READONLY);
    assert_eq!(to_native_prot(Protection::WRITE), Memory::PAGE_READWRITE);
    assert_eq!(to_native_prot(Protection::EXECUTE), Memory::PAGE_EXECUTE);
    assert_eq!(to_native_prot(Protection::READ_EXECUTE), Memory::PAGE_EXECUTE_READ);
    assert_eq!(to_native_prot(Protection::READ_WRITE), 4);
    assert_eq!(to_native_prot(Protection::READ_WRITE_EXECUTE), 64);
    assert_eq!(to_native_prot(Protection::WRITE_EXECUTE), 64);
    let guarded = Memory::PAGE_GUARD;
    assert_eq!(from_native_prot(Memory::PAGE_EXECUTE | guarded), Some(Protection::EXECUTE));
    assert_eq!(from_native_prot(Memory::PAGE_EXECUTE_READ), Some(Protection::READ_EXECUTE));
    let rwx = Some(Protection::READ_WRITE_EXECUTE);
    assert_eq!(from_native_prot(Memory::PAGE_EXECUTE_READWRITE), rwx);
    assert_eq!(from_native_prot(Memory::PAGE_EXECUTE_WRITECOPY), rwx);
    assert_eq!(from_native_prot(Memory::PAGE_NOACCESS), Some(Protection::NONE));
    assert_eq!(from_native_prot(Memory::PAGE_READONLY), Some(Protection::READ));
    assert_eq!(from_native_prot(Memory::PAGE_READWRITE), Some(Protection::READ_WRITE));
    assert_eq!(from_native_prot(Memory::PAGE_WRITECOPY), Some(Protection::READ_WRITE));
    assert_eq!(from_native_prot(0), None);
    assert_eq!(from_native_prot(3), None);
}

#[test]
fn one_page_needs_no_query_on_windows() {
    let mut os = Pages::new(&[Protection::READ; 4]);
    os.refuse_query = true;
    let guard = mem_protect_guard_windows(
        &mut os,
        PAGE,
        PAGE + 16,
        8,
        Protection::READ_WRITE,
        |addr, size, flag| {
            assert_eq!((addr, size, flag), (PAGE + 16, 8, 4));
            Ok(0x20)
        },
    )
    .unwrap();
    assert_eq!(
        *guard.regions(),
        vec![MemoryRegion { base: PAGE, size: PAGE, prot: Protection::READ_EXECUTE }]
    );
    let refused = mem_protect_guard_windows(&mut os, PAGE, 0, PAGE, Protection::NONE, |_, _, _| {
        Err(OsErr::from_str("code 5"))
    });
    assert_eq!(refused.err().unwrap().message(), "OS error: code 5");
}

#[test]
fn two_pages_are_queried_on_windows() {
    let mut os = Pages::new(&[Protection::READ; 4]);
    let guard = mem_protect_guard_windows(
        &mut os,
        PAGE,
        PAGE - 1,
        2,
        Protection::READ_WRITE,
        |_, _, _| panic!("not called"),
    )
    .unwrap();
    assert_eq!(
        *guard.regions(),
        vec![MemoryRegion { base: 0, size: 2 * PAGE, prot: Protection::READ }]
    );
    guard.revert(&mut os).unwrap();
    assert_eq!(os.pages, [Protection::READ; 4]);
}

#[test]
fn bytes_that_touch_one_page() {
    assert!(touches_one_page(PAGE, PAGE, PAGE));
    assert!(touches_one_page(2 * PAGE - 1, 1, PAGE));
    assert!(!touches_one_page(2 * PAGE - 1, 2, PAGE));
    assert!(!touches_one_page(PAGE, PAGE + 1, PAGE));
    // no byte touches no page
    assert!(!touches_one_page(PAGE, 0, PAGE));
    assert!(!touches_one_page(PAGE + 1, 0, PAGE));
    // near the end of the address space
    assert!(!touches_one_page(usize::MAX - 0x17FF, 0x1000, PAGE));
    assert!(touches_one_page(usize::MAX - 0x7FF, 0x400, PAGE));
}

#[test]
fn pages_at_the_end_of_the_address_space_are_queried_on_windows() {
    struct Top(Vec<(usize, usize, Protection)>);

    impl MemFunctions for Top {
        fn page_size(&self) -> usize {
            PAGE
        }

        fn mem_query(&self, addr: usize, _size: usize) -> Result<Vec<MemoryRegion>, OsErr> {
            assert!(self.0.is_empty());
            let region = |base, prot| MemoryRegion { base, size: PAGE, prot };
            let base = addr / PAGE * PAGE;
            Ok(vec![region(base, Protection::READ), region(base + PAGE, Protection::NONE)])
        }

        fn mem_protect(&mut self, addr: usize, size: usize, prot: Protection) -> Result<(), OsErr> {
            self.0.push((addr, size, prot));
            Ok(())
        }
    }

    let mut os = Top(Vec::new());
    let addr = usize::MAX - 0x17FF;
    let unused = |_: usize, _: usize, _: u32| panic!("not called");
    let guard =
        mem_protect_guard_windows(&mut os, PAGE, addr, 0x1000, Protection::READ_WRITE, unused);
    assert_eq!(guard.ok().unwrap().regions().len(), 2);
    assert_eq!(os.0, vec![(addr, 0x1000, Protection::READ_WRITE)]);
}

#[test]
fn errors_describe_themselves() {
    let error = OsErr::from_str("disk on fire");
    assert_eq!(error.message(), "OS error: disk on fire");
    assert_eq!(error.clone().message(), error.message());
    let error = Error::from(OsErr::from_string("out of luck".to_string()));
    assert_eq!(error.message(), "OS error: OS error: out of luck");
    assert_eq!(error.clone().message(), error.message());
}
