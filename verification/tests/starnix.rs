//! The memory manager with a kernel that grants what it is asked for.

use fuchsia_logic::starnix::memory_manager::{
    BreakCreation, BrkRequest, DumpPolicy, Errno, Koid, MapFlags, MemoryManager, Permissions,
    SnapshotOp, UserAddress, VmoInfo, PROGRAM_BREAK_LIMIT,
};
use fuchsia_logic::starnix::range_map::{Duplicate, RangeMap};
use fuchsia_logic::zircon::Status;

const PAGE_SIZE: u64 = 4096;
const BASE: UserAddress = 0x20_0000;
const BRK_VMO: Koid = 77;

fn flags(read: bool, write: bool, execute: bool) -> MapFlags {
    MapFlags {
        permissions: Permissions { read, write, execute },
        specific: false,
        require_non_resizable: false,
    }
}

fn read_write() -> MapFlags {
    flags(true, true, false)
}

/// A memory manager, and where its kernel puts what it is asked to map anywhere.
struct Process {
    mm: MemoryManager,
    next_addr: UserAddress,
}

impl Process {
    fn new() -> Process {
        Process { mm: MemoryManager::new(BASE, PAGE_SIZE), next_addr: BASE + 0x10_0000 }
    }

    fn set_brk(&mut self, addr: UserAddress) -> Result<UserAddress, Errno> {
        let mut request = self.mm.set_brk(addr);
        if let BrkRequest::Create { vmo_size, length, flags } = request {
            assert_eq!(vmo_size, PROGRAM_BREAK_LIMIT);
            assert_eq!(length, PAGE_SIZE);
            assert!(!flags.specific && flags.require_non_resizable);
            let creation = BreakCreation::Mapped { vmo: BRK_VMO, addr: self.next_addr };
            self.next_addr += 2 * PROGRAM_BREAK_LIMIT;
            request = self.mm.break_created(addr, creation);
        }
        match request {
            BrkRequest::Done(result) => result,
            BrkRequest::Shrink { vmo, .. } => {
                assert_eq!(vmo, BRK_VMO);
                self.mm.break_shrunk(addr, Ok(()))
            }
            BrkRequest::Grow { vmo, flags, .. } => {
                assert_eq!(vmo, BRK_VMO);
                assert!(flags.specific);
                self.mm.break_grown(addr, Ok(()))
            }
            other => panic!("unexpected {:?}", other),
        }
    }

    fn map_memory(&mut self, addr: UserAddress, length: u64) -> UserAddress {
        let at = if addr == 0 {
            assert_eq!(self.mm.vmar_offset(addr), 0);
            self.next_addr += 0x10_0000;
            self.next_addr - 0x10_0000
        } else {
            assert_eq!(self.mm.vmar_offset(addr), addr - BASE);
            addr
        };
        self.mm.map(Ok(at), 5, 0, length, read_write()).expect("failed to map")
    }

    fn range(&self, addr: UserAddress) -> (UserAddress, UserAddress) {
        let entry = self.mm.state.mappings.get(addr).expect("failed to find mapping");
        (entry.start, entry.end)
    }

    fn has(&self, addr: UserAddress) -> bool {
        self.mm.state.mappings.get(addr).is_some()
    }
}

fn round_up(addr: UserAddress) -> UserAddress {
    (addr + PAGE_SIZE - 1) / PAGE_SIZE * PAGE_SIZE
}

#[test]
fn test_brk() {
    let mut process = Process::new();

    // Initialize the program break.
    let base_addr = process.set_brk(0).expect("failed to set initial program break");
    assert!(base_addr > 0);

    // Check that the initial program break actually maps some memory.
    assert_eq!(process.range(base_addr), (base_addr, base_addr + PAGE_SIZE));

    // Grow the program break by a tiny amount that does not actually result in a change.
    let addr1 = process.set_brk(base_addr + 1).expect("failed to grow brk");
    assert_eq!(addr1, base_addr + 1);
    assert_eq!(process.range(base_addr), (base_addr, base_addr + PAGE_SIZE));

    // Grow the program break by a non-trivial amount and observe the larger mapping.
    let addr2 = process.set_brk(base_addr + 24893).expect("failed to grow brk");
    assert_eq!(addr2, base_addr + 24893);
    assert_eq!(process.range(base_addr), (base_addr, round_up(addr2)));

    // Shrink the program break and observe the smaller mapping.
    let addr3 = process.set_brk(base_addr + 14832).expect("failed to shrink brk");
    assert_eq!(addr3, base_addr + 14832);
    assert_eq!(process.range(base_addr), (base_addr, round_up(addr3)));

    // Shrink the program break close to zero and observe the smaller mapping.
    let addr4 = process.set_brk(base_addr + 3).expect("failed to drastically shrink brk");
    assert_eq!(addr4, base_addr + 3);
    assert_eq!(process.range(base_addr), (base_addr, round_up(addr4)));

    // Shrink the program break close to zero and observe that the mapping is not entirely gone.
    let addr5 = process.set_brk(base_addr).expect("failed to drastically shrink brk to zero");
    assert_eq!(addr5, base_addr);
    assert_eq!(process.range(base_addr), (base_addr, addr5 + PAGE_SIZE));
}

#[test]
fn test_mm_exec() {
    let mut process = Process::new();
    let brk_addr = process.set_brk(0).expect("failed to set initial program break");
    assert!(brk_addr > 0);
    assert!(process.has(brk_addr));
    let mapped_addr = process.map_memory(0, PAGE_SIZE);
    assert!(mapped_addr > 0);
    assert!(process.has(mapped_addr));
    process.mm.dumpable = DumpPolicy::USER;

    // What the kernel refuses changes nothing.
    assert_eq!(process.mm.exec(Err(Status::BadHandle)), Err(Status::BadHandle));
    assert!(process.has(brk_addr) && process.has(mapped_addr));
    assert_eq!(process.mm.dumpable, DumpPolicy::USER);

    process.mm.exec(Ok(())).expect("failed to exec memory manager");

    assert!(!process.has(brk_addr));
    assert!(!process.has(mapped_addr));
    assert_eq!(process.mm.get_mapping_count(), 0);
    assert_eq!(process.mm.state.brk, None);
    assert_eq!(process.mm.dumpable, DumpPolicy::DISABLE);

    // Check that the old addresses are actually available for mapping.
    let brk_addr2 = process.map_memory(brk_addr, PAGE_SIZE);
    assert_eq!(brk_addr, brk_addr2);
    let mapped_addr2 = process.map_memory(mapped_addr, PAGE_SIZE);
    assert_eq!(mapped_addr, mapped_addr2);
}

#[test]
fn brk_asks_for_exactly_the_pages_it_needs() {
    let mut process = Process::new();
    let base = process.set_brk(0).unwrap();
    // A whole page takes no other page, one byte more does.
    assert_eq!(process.mm.set_brk(base + PAGE_SIZE), BrkRequest::Done(Ok(base + PAGE_SIZE)));
    assert_eq!(process.range(base), (base, base + PAGE_SIZE));
    match process.mm.set_brk(base + PAGE_SIZE + 1) {
        BrkRequest::Grow { vmar_offset, vmo, vmo_offset, length, .. } => {
            assert_eq!(vmar_offset, base + PAGE_SIZE - BASE);
            assert_eq!((vmo, vmo_offset, length), (BRK_VMO, PAGE_SIZE, PAGE_SIZE));
        }
        other => panic!("unexpected {:?}", other),
    }
    assert_eq!(process.mm.break_grown(base + PAGE_SIZE + 1, Ok(())), Ok(base + PAGE_SIZE + 1));
    assert_eq!(process.range(base), (base, base + 2 * PAGE_SIZE));
    assert_eq!(process.set_brk(base + 5 * PAGE_SIZE), Ok(base + 5 * PAGE_SIZE));
    assert_eq!(process.range(base), (base, base + 5 * PAGE_SIZE));
    match process.mm.set_brk(base + 2 * PAGE_SIZE) {
        BrkRequest::Shrink { addr, length, vmo, vmo_offset } => {
            assert_eq!((addr, length), (base + 2 * PAGE_SIZE, 3 * PAGE_SIZE));
            assert_eq!((vmo, vmo_offset), (BRK_VMO, 2 * PAGE_SIZE));
        }
        other => panic!("unexpected {:?}", other),
    }
    assert_eq!(process.mm.break_shrunk(base + 2 * PAGE_SIZE, Ok(())), Ok(base + 2 * PAGE_SIZE));
    assert_eq!(process.range(base), (base, base + 2 * PAGE_SIZE));
    // From there it can be moved on either way.
    assert_eq!(process.set_brk(base + 3 * PAGE_SIZE), Ok(base + 3 * PAGE_SIZE));
    assert_eq!(process.range(base), (base, base + 3 * PAGE_SIZE));
    assert_eq!(process.set_brk(base), Ok(base));
    assert_eq!(process.range(base), (base, base + PAGE_SIZE));
}

#[test]
fn brk_out_of_range_stays() {
    let mut process = Process::new();
    let base = process.set_brk(0).unwrap();
    assert_eq!(process.set_brk(base + 100), Ok(base + 100));
    assert_eq!(process.set_brk(base - 1), Ok(base + 100));
    assert_eq!(process.set_brk(base + PROGRAM_BREAK_LIMIT + 1), Ok(base + 100));
    assert_eq!(process.range(base), (base, base + PAGE_SIZE));
    // At the limit, the whole memory object is mapped and no more.
    match process.mm.set_brk(base + PROGRAM_BREAK_LIMIT) {
        BrkRequest::Grow { vmo_offset, length, .. } => {
            assert_eq!(vmo_offset + length, PROGRAM_BREAK_LIMIT)
        }
        other => panic!("unexpected {:?}", other),
    }
    assert_eq!(
        process.set_brk(base + PROGRAM_BREAK_LIMIT),
        Ok(base + PROGRAM_BREAK_LIMIT)
    );
    assert_eq!(process.range(base), (base, base + PROGRAM_BREAK_LIMIT));
}

/// A process whose program break is in the fifth page of its memory.
fn process_with_brk() -> (Process, UserAddress) {
    let mut process = Process::new();
    let base = process.set_brk(0).unwrap();
    assert_eq!(process.set_brk(base + 0x4800), Ok(base + 0x4800));
    assert_eq!(process.range(base), (base, base + 0x5000));
    (process, base)
}

#[test]
fn brk_shrinks_behind_protected_memory() {
    let (mut process, base) = process_with_brk();
    let read_only = flags(true, false, false);
    assert_eq!(process.mm.protect(Ok(()), base + 0x1000, PAGE_SIZE, read_only), Ok(()));
    assert_eq!(
        process.mm.set_brk(base + 0x2800),
        BrkRequest::Shrink {
            addr: base + 0x3000,
            length: 0x2000,
            vmo: BRK_VMO,
            vmo_offset: 0x3000,
        }
    );
    assert_eq!(process.mm.break_shrunk(base + 0x2800, Ok(())), Ok(base + 0x2800));
    assert_eq!(process.range(base), (base, base + 0x1000));
    assert_eq!(process.range(base + 0x1000), (base + 0x1000, base + 0x2000));
    assert_eq!(process.range(base + 0x2000), (base + 0x2000, base + 0x3000));
    assert!(!process.has(base + 0x3000));
    // At the end of a page, the memory before it is that of the break.
    assert_eq!(process.set_brk(base + 0x3000), Ok(base + 0x3000));
    match process.mm.set_brk(base + 0x3001) {
        BrkRequest::Grow { vmo_offset, length, .. } => {
            assert_eq!((vmo_offset, length), (0x3000, PAGE_SIZE))
        }
        other => panic!("unexpected {:?}", other),
    }
}

#[test]
fn brk_moves_when_its_first_page_is_gone() {
    let (mut process, base) = process_with_brk();
    assert_eq!(process.mm.unmap(Ok(()), base, PAGE_SIZE), Ok(()));
    assert_eq!(process.mm.set_brk(base + 0x4801), BrkRequest::Done(Ok(base + 0x4801)));
    assert!(!process.has(base));
    assert_eq!(process.range(base + 0x1000), (base + 0x1000, base + 0x5000));
    // Without the page of the break there is nothing to move.
    assert_eq!(process.mm.unmap(Ok(()), base + 0x4000, PAGE_SIZE), Ok(()));
    assert_eq!(process.mm.set_brk(base + 0x4802), BrkRequest::Done(Err(Errno::EFAULT)));
}

#[test]
fn brk_errors() {
    for (creation, errno) in [
        (BreakCreation::NoVmo, Errno::ENOMEM),
        (BreakCreation::NotMapped(Status::InvalidArgs), Errno::EINVAL),
        (BreakCreation::NotMapped(Status::AccessDenied), Errno::EACCES),
        (BreakCreation::NotMapped(Status::NotSupported), Errno::ENODEV),
        (BreakCreation::NotMapped(Status::NoMemory), Errno::ENOMEM),
    ] {
        let mut process = Process::new();
        assert!(matches!(process.mm.set_brk(0), BrkRequest::Create { .. }));
        assert_eq!(process.mm.break_created(0, creation), BrkRequest::Done(Err(errno)));
        assert_eq!(process.mm.state.brk, None);
    }

    let mut process = Process::new();
    let base = process.set_brk(0).unwrap();
    // The break stays mapped as it was when it cannot grow or shrink.
    assert!(matches!(process.mm.set_brk(base + 9999), BrkRequest::Grow { .. }));
    assert_eq!(
        process.mm.break_grown(base + 9999, Err(Status::NoMemory)),
        Err(Errno::ENOMEM)
    );
    assert_eq!(process.range(base), (base, base + PAGE_SIZE));
    assert_eq!(process.set_brk(base + 9999), Ok(base + 9999));
    assert!(matches!(process.mm.set_brk(base), BrkRequest::Shrink { .. }));
    assert_eq!(
        process.mm.break_shrunk(base, Err(Status::InvalidArgs)),
        Err(Errno::EINVAL)
    );
    assert_eq!(process.range(base), (base, base + 3 * PAGE_SIZE));
    assert_eq!(process.mm.state.brk.unwrap().current, base + 9999);

    // It cannot be moved when its memory has been unmapped.
    assert_eq!(process.mm.unmap(Ok(()), base, 3 * PAGE_SIZE), Ok(()));
    assert_eq!(process.set_brk(base), Err(Errno::EFAULT));
}

#[test]
fn mappings_are_trimmed() {
    let mut process = Process::new();
    let addr = process.map_memory(0, 4 * PAGE_SIZE);
    // Unmapping a part of a page unmaps it whole.
    assert_eq!(process.mm.unmap(Ok(()), addr + PAGE_SIZE, 1), Ok(()));
    assert_eq!(process.mm.get_mapping_count(), 2);
    assert_eq!(process.range(addr), (addr, addr + PAGE_SIZE));
    assert!(!process.has(addr + PAGE_SIZE));
    assert!(!process.has(addr + 2 * PAGE_SIZE - 1));
    let end = addr + 4 * PAGE_SIZE;
    assert_eq!(process.range(end - 1), (addr + 2 * PAGE_SIZE, end));
    // The base stays where the mapping was made.
    assert_eq!(process.mm.state.mappings.get(end - 1).unwrap().value.base, addr);

    // That nothing was mapped is no error, but that the arguments are wrong is.
    assert_eq!(process.mm.unmap(Err(Status::NotFound), BASE, PAGE_SIZE), Ok(()));
    assert_eq!(
        process.mm.unmap(Err(Status::InvalidArgs), addr, PAGE_SIZE),
        Err(Errno::EINVAL)
    );
    assert!(process.has(addr));
}

#[test]
fn unmapping_undoes_mapping() {
    let mut process = Process::new();
    let addr = process.map_memory(0, 2 * PAGE_SIZE);
    let ranges = |process: &Process| -> Vec<(u64, u64)> {
        let mappings = &process.mm.state.mappings;
        (0..mappings.len()).map(|i| (mappings.entry(i).start, mappings.entry(i).end)).collect()
    };
    let before = ranges(&process);
    process.map_memory(addr + 2 * PAGE_SIZE, 3 * PAGE_SIZE);
    assert_ne!(ranges(&process), before);
    assert_eq!(process.mm.unmap(Ok(()), addr + 2 * PAGE_SIZE, 3 * PAGE_SIZE), Ok(()));
    assert_eq!(ranges(&process), before);
}

#[test]
fn map_errors() {
    for (status, errno) in [
        (Status::InvalidArgs, Errno::EINVAL),
        (Status::AccessDenied, Errno::EACCES),
        (Status::NotSupported, Errno::ENODEV),
        (Status::NoMemory, Errno::ENOMEM),
    ] {
        let mut process = Process::new();
        assert_eq!(process.mm.map(Err(status), 5, 0, PAGE_SIZE, read_write()), Err(errno));
        assert_eq!(MemoryManager::get_errno_for_map_err(status), errno);
        assert_eq!(process.mm.get_mapping_count(), 0);
    }
}

#[test]
fn protect_changes_permissions() {
    let mut process = Process::new();
    let addr = process.map_memory(0, 3 * PAGE_SIZE);
    let read_only = flags(true, false, false);
    assert_eq!(process.mm.state.check_protect(addr), Ok(()));
    assert_eq!(process.mm.protect(Ok(()), addr + PAGE_SIZE, PAGE_SIZE, read_only), Ok(()));
    assert_eq!(process.mm.get_mapping_count(), 3);
    let middle = process.mm.state.mappings.get(addr + PAGE_SIZE).unwrap();
    assert_eq!(middle.value.permissions, read_only.permissions);
    assert_eq!(middle.value.base, addr);
    let last = process.mm.state.mappings.get(addr + 2 * PAGE_SIZE).unwrap();
    assert_eq!(last.value.permissions, read_write().permissions);

    for (status, errno) in [
        (Status::InvalidArgs, Errno::EINVAL),
        (Status::NotFound, Errno::EINVAL),
        (Status::AccessDenied, Errno::EACCES),
    ] {
        assert_eq!(process.mm.protect(Err(status), addr, PAGE_SIZE, read_only), Err(errno));
    }
    assert_eq!(process.mm.state.check_protect(BASE), Err(Errno::EINVAL));
    assert_eq!(process.mm.protect(Ok(()), BASE, PAGE_SIZE, read_only), Err(Errno::EINVAL));
}

#[test]
fn mappings_can_be_named() {
    let mut process = Process::new();
    let addr = process.map_memory(0, 2 * PAGE_SIZE);
    assert!(process.mm.get_mapping_name(addr).unwrap().is_empty());
    let name = || b"foo".to_vec();
    assert_eq!(process.mm.set_mapping_name(addr + 10, 2 * PAGE_SIZE - 10, name()), Ok(()));
    assert_eq!(process.mm.get_mapping_name(addr + PAGE_SIZE).unwrap(), &name());
    assert_eq!(process.mm.get_mapping_count(), 1);
    // The name cannot reach beyond the mapping.
    assert_eq!(
        process.mm.set_mapping_name(addr + 10, 2 * PAGE_SIZE, name()),
        Err(Errno::EINVAL)
    );
    assert_eq!(process.mm.set_mapping_name(BASE, 1, name()), Err(Errno::EINVAL));
    assert_eq!(process.mm.get_mapping_name(BASE).err(), Some(Errno::EFAULT));
}

#[test]
fn snapshots_keep_what_backs_each_address() {
    let mut process = Process::new();
    let a = BASE + 0x1000;
    let b = BASE + 0x9000;
    let c = BASE + 0xf000;
    process.mm.map(Ok(a), 10, 0x2000, 4 * PAGE_SIZE, read_write()).unwrap();
    process.mm.map(Ok(b), 11, 0, PAGE_SIZE, flags(true, false, true)).unwrap();
    process.mm.map(Ok(c), 10, 0, PAGE_SIZE, read_write()).unwrap();
    process.mm.unmap(Ok(()), a, PAGE_SIZE).unwrap();
    let info = |pager_backed, size_bytes| VmoInfo { pager_backed, size_bytes };
    let infos = vec![info(false, 0x8000), info(true, 0x1000), info(false, 0x8000)];
    let ops = process.mm.snapshot_to(BASE, &infos);
    let op = |vmo, create_child, share, vmar_offset, vmo_offset, length, flags: MapFlags| {
        SnapshotOp {
            vmo,
            create_child,
            share,
            vmar_offset,
            vmo_offset,
            length,
            flags: MapFlags { specific: true, ..flags },
        }
    };
    assert_eq!(
        ops,
        [
            // The first page has been unmapped.
            op(10, Some(0x8000), false, 0x2000, 0x3000, 3 * PAGE_SIZE, read_write()),
            // What a pager backs is shared.
            op(11, None, true, 0x9000, 0, PAGE_SIZE, flags(true, false, true)),
            // One snapshot of a memory object is enough.
            op(10, None, false, 0xf000, 0, PAGE_SIZE, read_write()),
        ]
    );

    let mut target = MemoryManager::new(BASE, PAGE_SIZE);
    for op in &ops {
        let vmo = if op.share { op.vmo } else { op.vmo + 100 };
        assert_eq!(target.snapshot_mapped(op, Ok(vmo), Ok(BASE + op.vmar_offset)), Ok(()));
    }
    // The same memory is mapped at every address.
    for addr in (BASE..BASE + 0x12000).step_by(0x800) {
        let backing = |mm: &MemoryManager| {
            mm.state.mappings.get(addr).map(|entry| {
                let mapping = &entry.value;
                (mapping.vmo, mapping.vmo_offset + (addr - mapping.base), mapping.permissions)
            })
        };
        let expected = backing(&process.mm).map(|(vmo, offset, permissions)| {
            (if vmo == 10 { 110 } else { vmo }, offset, permissions)
        });
        assert_eq!(backing(&target), expected);
    }
    assert_eq!(target.get_mapping_count(), 3);

    // Without memory for a snapshot, or room to map it, there is none.
    let mut full = MemoryManager::new(BASE, PAGE_SIZE);
    assert_eq!(
        full.snapshot_mapped(&ops[0], Err(Status::NotFound), Ok(BASE)),
        Err(Errno::ENOMEM)
    );
    assert_eq!(
        full.snapshot_mapped(&ops[0], Ok(110), Err(Status::AccessDenied)),
        Err(Errno::EACCES)
    );
    assert_eq!(full.get_mapping_count(), 0);

    let brk = process.set_brk(0).unwrap();
    process.mm.dumpable = DumpPolicy::USER;
    process.mm.finish_snapshot(&mut target);
    assert_eq!(target.state.brk.unwrap().base, brk);
    assert_eq!(target.dumpable, DumpPolicy::USER);
}

#[test]
fn snapshots_map_whole_pages() {
    let mut process = Process::new();
    let a = BASE + 0x1000;
    process.mm.map(Ok(a), 10, 0, 2 * PAGE_SIZE, read_write()).unwrap();
    // What is left ends within a page.
    process.mm.unmap(Ok(()), a + 0x800, PAGE_SIZE).unwrap();
    assert_eq!(process.range(a), (a, a + 0x800));
    let infos = vec![VmoInfo { pager_backed: true, size_bytes: 2 * PAGE_SIZE }];
    let ops = process.mm.snapshot_to(BASE, &infos);
    assert_eq!((ops[0].vmar_offset, ops[0].length), (0x1000, 0x800));
    let mut target = MemoryManager::new(BASE, PAGE_SIZE);
    assert_eq!(target.snapshot_mapped(&ops[0], Ok(10), Ok(a)), Ok(()));
    let entry = target.state.mappings.get(a).unwrap();
    assert_eq!((entry.start, entry.end), (a, a + PAGE_SIZE));
}

#[test]
fn transfers_have_to_be_whole() {
    let bytes = [1, 2, 3];
    for transfer in [MemoryManager::read_memory, MemoryManager::write_memory] {
        assert_eq!(transfer(Ok(3), &bytes), Ok(()));
        assert_eq!(transfer(Ok(2), &bytes), Err(Errno::EFAULT));
        assert_eq!(transfer(Err(Status::NotFound), &bytes), Err(Errno::EFAULT));
    }
}

#[test]
fn strings_end_at_the_first_zero_byte() {
    let buffer = b"hello\0world\0".to_vec();
    assert_eq!(MemoryManager::read_c_string(Ok(12), &buffer), Ok(&b"hello"[..]));
    assert_eq!(MemoryManager::read_c_string(Ok(6), &buffer), Ok(&b"hello"[..]));
    // What was not read does not count.
    assert_eq!(
        MemoryManager::read_c_string(Ok(5), &buffer),
        Err(Errno::ENAMETOOLONG)
    );
    assert_eq!(MemoryManager::read_c_string(Ok(1), b"\0"), Ok(&b""[..]));
    assert_eq!(MemoryManager::read_c_string(Ok(0), b"\0"), Err(Errno::ENAMETOOLONG));
    assert_eq!(
        MemoryManager::read_c_string(Err(Status::BadHandle), &buffer),
        Err(Errno::EFAULT)
    );
}

#[derive(Debug, PartialEq)]
struct Name(&'static str);

impl Duplicate for Name {
    fn duplicate(&self) -> Name {
        Name(self.0)
    }
}

fn ranges(map: &RangeMap<Name>) -> Vec<(u64, u64, &'static str)> {
    (0..map.len())
        .map(|i| {
            let entry = map.entry(i);
            (entry.start, entry.end, entry.value.0)
        })
        .collect()
}

#[test]
fn ranges_replace_what_they_overlap() {
    let mut map = RangeMap::new();
    map.insert(10, 20, Name("a"));
    map.insert(30, 40, Name("b"));
    assert_eq!(ranges(&map), [(10, 20, "a"), (30, 40, "b")]);
    map.insert(15, 35, Name("c"));
    assert_eq!(ranges(&map), [(10, 15, "a"), (15, 35, "c"), (35, 40, "b")]);
    map.remove(20, 25);
    assert_eq!(
        ranges(&map),
        [(10, 15, "a"), (15, 20, "c"), (25, 35, "c"), (35, 40, "b")]
    );
    map.replace(30, Name("d"));
    assert_eq!(map.get(25).unwrap().value, Name("d"));
    assert_eq!(map.get(19).unwrap().value, Name("c"));
    assert!(map.get(20).is_none());
    assert!(map.get(40).is_none());
    map.remove(0, 100);
    assert_eq!(map.len(), 0);
}
