//! The mappings of an address space and its program break.
//!
//! What the kernel does is done outside of this module. Its functions say what to ask the kernel
//! for, or take what the kernel has answered.

use crate::starnix::range_map::{Duplicate, Entry, RangeMap};
use crate::zircon::Status;
use std::sync::Arc;
use vstd::prelude::*;

verus! {

/// An address in the address space.
pub type UserAddress = u64;

/// Identifies a memory object.
pub type Koid = u64;

/// The errors that system calls return.
#[derive(Clone, Copy, Debug, PartialEq, Eq, Structural)]
pub enum Errno {
    EACCES,
    EFAULT,
    EINVAL,
    ENAMETOOLONG,
    ENODEV,
    ENOMEM,
}

/// What a mapping can be used for.
#[derive(Clone, Copy, Debug, PartialEq, Eq, Structural)]
pub struct Permissions {
    pub read: bool,
    pub write: bool,
    pub execute: bool,
}

/// How memory is to be mapped.
#[derive(Clone, Copy, Debug, PartialEq, Eq, Structural)]
pub struct MapFlags {
    pub permissions: Permissions,
    /// The memory has to be mapped at the given offset.
    pub specific: bool,
    pub require_non_resizable: bool,
}

pub struct Mapping {
    /// The base address of this mapping.
    ///
    /// Keep in mind that the mapping might be trimmed in the RangeMap if the part of the mapping is
    /// unmapped, which means the base might extend before the currently valid portion of the
    /// mapping.
    pub base: UserAddress,
    /// The VMO that contains the memory used in this mapping.
    pub vmo: Koid,
    /// The offset in the VMO that corresponds to the base address.
    pub vmo_offset: u64,
    /// The rights used by the mapping.
    pub permissions: Permissions,
    /// A name associated with the mapping. Set by prctl(PR_SET_VMA, PR_SET_VMA_ANON_NAME, ...).
    pub name: Arc<Vec<u8>>,
}

impl Mapping {
    /// Whether this is a mapping that has just been made.
    pub open spec fn is_new(
        self,
        base: UserAddress,
        vmo: Koid,
        vmo_offset: u64,
        flags: MapFlags,
    ) -> bool {
        &&& self.base == base
        &&& self.vmo == vmo
        &&& self.vmo_offset == vmo_offset
        &&& self.permissions == flags.permissions
        &&& self.name@.len() == 0
    }

    fn new(base: UserAddress, vmo: Koid, vmo_offset: u64, flags: MapFlags) -> (r: Mapping)
        ensures
            r.is_new(base, vmo, vmo_offset, flags),
    {
        Mapping {
            base,
            vmo,
            vmo_offset,
            permissions: flags.permissions,
            name: Arc::new(Vec::new()),
        }
    }

    fn with_flags(&self, flags: MapFlags) -> (r: Mapping)
        ensures
            r == (Mapping { permissions: flags.permissions, ..*self }),
    {
        Mapping {
            base: self.base,
            vmo: self.vmo,
            vmo_offset: self.vmo_offset,
            permissions: flags.permissions,
            name: self.name.clone(),
        }
    }
}

impl Duplicate for Mapping {
    fn duplicate(&self) -> (r: Self) {
        Mapping {
            base: self.base,
            vmo: self.vmo,
            vmo_offset: self.vmo_offset,
            permissions: self.permissions,
            name: self.name.clone(),
        }
    }
}

/// How far the program break can be from its base.
pub const PROGRAM_BREAK_LIMIT: u64 = 64 * 1024 * 1024;

#[derive(Clone, Copy, Debug, PartialEq, Eq, Structural)]
pub struct ProgramBreak {
    /// The base address at which the data segment is mapped.
    pub base: UserAddress,
    /// The current program break.
    ///
    /// The addresses from the base up to the current program break, rounded up to a page, are mapped
    /// into the client address space; the first page always is.
    pub current: UserAddress,
}

/// The policy about whether the address space can be dumped.
#[derive(Clone, Copy, Debug, PartialEq, Eq, Structural)]
pub enum DumpPolicy {
    /// The address space cannot be dumped.
    ///
    /// Corresponds to SUID_DUMP_DISABLE.
    DISABLE,
    /// The address space can be dumped.
    ///
    /// Corresponds to SUID_DUMP_USER.
    USER,
}

/// The least multiple of `page_size` that is not less than `addr`.
pub open spec fn page_end(addr: int, page_size: int) -> int {
    if addr % page_size == 0 {
        addr
    } else {
        addr - addr % page_size + page_size
    }
}

fn round_up(addr: u64, page_size: u64) -> (r: u64)
    requires
        page_size > 0,
        addr + page_size - 1 <= u64::MAX,
    ensures
        r == page_end(addr as int, page_size as int),
        addr <= r < addr + page_size,
{
    let over: u64 = addr % page_size;
    assert(over <= addr && over < page_size) by (nonlinear_arith)
        requires
            page_size > 0,
            over == addr % page_size,
    ;
    if over == 0 {
        addr
    } else {
        addr - over + page_size
    }
}

// The end of the memory that is mapped when a program break with the given base is at `addr`.
fn end_of_brk(addr: u64, base: u64, page_size: u64) -> (r: u64)
    requires
        page_size > 0,
        addr + page_size <= u64::MAX,
    ensures
        r == page_end(
            if addr == base {
                addr + 1
            } else {
                addr as int
            },
            page_size as int,
        ),
        addr <= r <= addr + page_size,
{
    if addr == base {
        round_up(addr + 1, page_size)
    } else {
        round_up(addr, page_size)
    }
}

// Where the memory of a program break is looked up.
fn last_of_brk(brk: ProgramBreak, page_size: u64) -> (r: u64)
    requires
        page_size > 0,
    ensures
        r == if brk.current > brk.base && brk.current % page_size == 0 {
            brk.current - 1
        } else {
            brk.current as int
        },
{
    if brk.current > brk.base && brk.current % page_size == 0 {
        brk.current - 1
    } else {
        brk.current
    }
}

// The end of the page after an address that starts a page.
proof fn lemma_next_page(addr: int, page_size: int)
    requires
        page_size > 0,
        addr >= 0,
        addr % page_size == 0,
    ensures
        page_end(addr + 1, page_size) == addr + page_size,
        page_end(addr + page_size, page_size) == addr + page_size,
{
    vstd::arithmetic::div_mod::lemma_mod_add_multiples_vanish(addr, page_size);
    if page_size == 1 {
        assert((addr + 1) % 1 == 0) by (nonlinear_arith);
    } else {
        vstd::arithmetic::div_mod::lemma_small_mod(1, page_size as nat);
        vstd::arithmetic::div_mod::lemma_add_mod_noop(addr, 1, page_size);
        assert((addr + 1) % page_size == 1);
    }
}

/// Whether `after` is `before` with the addresses from `start` up to `end` mapped to `value`.
pub open spec fn mapped_over(
    before: RangeMap<Mapping>,
    after: RangeMap<Mapping>,
    start: u64,
    end: u64,
    value: Mapping,
) -> bool {
    &&& after.wf()
    &&& forall|p: int| #[trigger]
        after.at(p) == if start <= p < end {
            Some(Entry { start, end, value })
        } else {
            crate::starnix::range_map::trimmed(before.at(p), start, end, p)
        }
}

/// Whether `after` is `before` without the addresses from `start` up to `end`.
pub open spec fn unmapped_from(
    before: RangeMap<Mapping>,
    after: RangeMap<Mapping>,
    start: u64,
    end: u64,
) -> bool {
    &&& after.wf()
    &&& forall|p: int| #[trigger]
        after.at(p) == crate::starnix::range_map::trimmed(before.at(p), start, end, p)
}

/// The mappings and the program break of an address space.
pub struct MemoryManagerState {
    /// State for the brk and sbrk syscalls.
    pub brk: Option<ProgramBreak>,
    /// The memory mappings currently used by this address space.
    ///
    /// The mappings record which VMO backs each address.
    pub mappings: RangeMap<Mapping>,
    /// The size of a page.
    pub page_size: u64,
}

impl MemoryManagerState {
    pub open spec fn wf(&self) -> bool {
        &&& self.page_size > 0
        &&& self.mappings.wf()
        &&& self.brk matches Some(brk) ==> {
            &&& brk.base <= brk.current <= brk.base + PROGRAM_BREAK_LIMIT
            &&& brk.base + PROGRAM_BREAK_LIMIT + self.page_size <= u64::MAX
        }
    }

    /// The end of the last page that holds one of `length` bytes from `addr` on.
    pub open spec fn end_of(&self, addr: u64, length: u64) -> u64 {
        page_end(addr + length, self.page_size as int) as u64
    }

    /// Records what the kernel has mapped, where it has.
    pub fn map(
        &mut self,
        mapped: Result<UserAddress, Status>,
        vmo: Koid,
        vmo_offset: u64,
        length: u64,
        flags: MapFlags,
    ) -> (r: Result<UserAddress, Status>)
        requires
            old(self).wf(),
            mapped matches Ok(addr) ==> addr + length + old(self).page_size <= u64::MAX,
        ensures
            final(self).wf(),
            r == mapped,
            final(self).brk == old(self).brk,
            final(self).page_size == old(self).page_size,
            match mapped {
                Ok(addr) => exists|mapping: Mapping| #[trigger]
                    mapping.is_new(addr, vmo, vmo_offset, flags) && mapped_over(
                        old(self).mappings,
                        final(self).mappings,
                        addr,
                        old(self).end_of(addr, length),
                        mapping,
                    ),
                Err(_) => *final(self) == *old(self),
            },
    {
        match mapped {
            Ok(addr) => {
                let mapping = Mapping::new(addr, vmo, vmo_offset, flags);
                let end: u64 = round_up(addr + length, self.page_size);
                self.mappings.insert(addr, end, mapping);
                Ok(addr)
            },
            Err(status) => Err(status),
        }
    }

    /// Records what the kernel has unmapped. That nothing was mapped there is no error.
    pub fn unmap(&mut self, unmapped: Result<(), Status>, addr: UserAddress, length: u64) -> (r: Result<
        (),
        Errno,
    >)
        requires
            old(self).wf(),
            unmapped matches Err(status) ==> status is NotFound || status is InvalidArgs,
            unmapped != Err::<(), Status>(Status::InvalidArgs) ==> addr + length + old(
                self,
            ).page_size <= u64::MAX,
        ensures
            final(self).wf(),
            final(self).brk == old(self).brk,
            final(self).page_size == old(self).page_size,
            if unmapped == Err::<(), Status>(Status::InvalidArgs) {
                r == Err::<(), Errno>(Errno::EINVAL) && *final(self) == *old(self)
            } else {
                r is Ok && unmapped_from(
                    old(self).mappings,
                    final(self).mappings,
                    addr,
                    old(self).end_of(addr, length),
                )
            },
    {
        if let Err(status) = unmapped {
            if let Status::InvalidArgs = status {
                return Err(Errno::EINVAL);
            }
        }
        let end: u64 = round_up(addr + length, self.page_size);
        self.mappings.remove(addr, end);
        Ok(())
    }

    /// Whether the memory at `addr` can be protected: it has to be mapped.
    pub fn check_protect(&self, addr: UserAddress) -> (r: Result<(), Errno>)
        requires
            self.wf(),
        ensures
            r == if self.mappings.at(addr as int) is Some {
                Ok(())
            } else {
                Err(Errno::EINVAL)
            },
    {
        match self.mappings.get(addr) {
            Some(_) => Ok(()),
            None => Err(Errno::EINVAL),
        }
    }

    /// Records that the kernel has protected memory, where it has.
    pub fn protect(
        &mut self,
        protected: Result<(), Status>,
        addr: UserAddress,
        length: u64,
        flags: MapFlags,
    ) -> (r: Result<(), Errno>)
        requires
            old(self).wf(),
            protected matches Err(status) ==> status is InvalidArgs || status is NotFound || status
                is AccessDenied,
            protected is Ok ==> addr + length + old(self).page_size <= u64::MAX,
        ensures
            final(self).wf(),
            final(self).brk == old(self).brk,
            final(self).page_size == old(self).page_size,
            match old(self).mappings.at(addr as int) {
                None => r == Err::<(), Errno>(Errno::EINVAL),
                Some(entry) => match protected {
                    Ok(()) => r is Ok && mapped_over(
                        old(self).mappings,
                        final(self).mappings,
                        addr,
                        old(self).end_of(addr, length),
                        (Mapping { permissions: flags.permissions, ..entry.value }),
                    ),
                    Err(Status::AccessDenied) => r == Err::<(), Errno>(Errno::EACCES),
                    Err(_) => r == Err::<(), Errno>(Errno::EINVAL),
                },
            },
            r is Err ==> *final(self) == *old(self),
    {
        let mapping = match self.mappings.get(addr) {
            Some(entry) => entry.value.with_flags(flags),
            None => {
                return Err(Errno::EINVAL);
            },
        };
        match protected {
            Ok(()) => {},
            Err(Status::AccessDenied) => {
                return Err(Errno::EACCES);
            },
            Err(_) => {
                return Err(Errno::EINVAL);
            },
        }
        let end: u64 = round_up(addr + length, self.page_size);
        self.mappings.insert(addr, end, mapping);
        Ok(())
    }
}

/// What a change of the program break asks for.
#[derive(Clone, Copy, Debug, PartialEq, Eq)]
pub enum BrkRequest {
    /// A memory object of `vmo_size` bytes has to be created, and its first `length` bytes mapped
    /// anywhere.
    Create { vmo_size: u64, length: u64, flags: MapFlags },
    /// Memory has to be unmapped, and the part of the memory object decommitted.
    Shrink { addr: UserAddress, length: u64, vmo: Koid, vmo_offset: u64 },
    /// More of the memory object has to be mapped, at the offset.
    Grow { vmar_offset: u64, vmo: Koid, vmo_offset: u64, length: u64, flags: MapFlags },
    /// Nothing: the change is done, or has failed.
    Done(Result<UserAddress, Errno>),
}

/// What became of the memory for the program break.
#[derive(Clone, Copy, Debug, PartialEq, Eq, Structural)]
pub enum BreakCreation {
    /// There is no memory object.
    NoVmo,
    /// The memory object could not be mapped.
    NotMapped(Status),
    Mapped { vmo: Koid, addr: UserAddress },
}

/// How the memory of the program break is mapped: at first anywhere, later where it ends.
pub open spec fn brk_flags(specific: bool) -> MapFlags {
    MapFlags {
        permissions: Permissions { read: true, write: true, execute: false },
        specific,
        require_non_resizable: true,
    }
}

fn flags_for_brk(specific: bool) -> (r: MapFlags)
    ensures
        r == brk_flags(specific),
{
    MapFlags {
        permissions: Permissions { read: true, write: true, execute: false },
        specific,
        require_non_resizable: true,
    }
}

/// What the kernel says of a memory object.
#[derive(Clone, Copy, Debug, PartialEq, Eq, Structural)]
pub struct VmoInfo {
    pub pager_backed: bool,
    pub size_bytes: u64,
}

/// One mapping to make in a snapshot.
#[derive(Clone, Copy, Debug, PartialEq, Eq, Structural)]
pub struct SnapshotOp {
    /// The memory object that the mapping is taken from.
    pub vmo: Koid,
    /// The size of the snapshot to take of the memory object first, unless that has been done.
    pub create_child: Option<u64>,
    /// Whether the memory object itself is mapped rather than its snapshot.
    pub share: bool,
    pub vmar_offset: u64,
    pub vmo_offset: u64,
    pub length: u64,
    pub flags: MapFlags,
}

/// The errors that the kernel gives when it cannot map memory.
pub open spec fn is_map_err(status: Status) -> bool {
    status is InvalidArgs || status is AccessDenied || status is NotSupported || status is NoMemory
}

/// The error that a system call returns when the kernel cannot map memory.
pub open spec fn map_errno(status: Status) -> Errno {
    match status {
        Status::InvalidArgs => Errno::EINVAL,
        Status::AccessDenied => Errno::EACCES,
        Status::NotSupported => Errno::ENODEV,
        _ => Errno::ENOMEM,
    }
}

/// The position of the first mapping of the same memory object.
pub open spec fn first_use(entries: Seq<Entry<Mapping>>, i: int) -> int {
    first_with(entries, entries[i].value.vmo, 0, i)
}

/// The first position from `from` on that maps `vmo`, or `i`.
pub open spec fn first_with(entries: Seq<Entry<Mapping>>, vmo: Koid, from: int, i: int) -> int
    decreases i - from,
{
    if from >= i || entries[from].value.vmo == vmo {
        from
    } else {
        first_with(entries, vmo, from + 1, i)
    }
}

/// How a mapping is made in a snapshot, in an address space that starts at `target_base`. The first
/// mapping of a memory object decides whether the object is shared or a snapshot is taken of it.
pub open spec fn snapshot_op(
    entries: Seq<Entry<Mapping>>,
    infos: Seq<VmoInfo>,
    target_base: UserAddress,
    i: int,
) -> SnapshotOp {
    let entry = entries[i];
    let first = first_use(entries, i);
    let share = infos[first].pager_backed;
    SnapshotOp {
        vmo: entry.value.vmo,
        create_child: if first == i && !share {
            Some(infos[i].size_bytes)
        } else {
            None
        },
        share,
        vmar_offset: (entry.start - target_base) as u64,
        vmo_offset: (entry.value.vmo_offset + (entry.start - entry.value.base)) as u64,
        length: (entry.end - entry.start) as u64,
        flags: MapFlags {
            permissions: entry.value.permissions,
            specific: true,
            require_non_resizable: false,
        },
    }
}

/// Whether `after` is `before` with one mapping of a snapshot made in it: `vmo` has been mapped from
/// `addr` up to `end`.
pub open spec fn snapshot_made(
    before: RangeMap<Mapping>,
    after: RangeMap<Mapping>,
    op: SnapshotOp,
    vmo: Koid,
    addr: UserAddress,
    end: u64,
) -> bool {
    exists|mapping: Mapping| #[trigger]
        mapping.is_new(addr, vmo, op.vmo_offset, op.flags) && mapped_over(
            before,
            after,
            addr,
            end,
            mapping,
        )
}

/// The address space of a process.
pub struct MemoryManager {
    /// The base address of the address space.
    pub base_addr: UserAddress,
    /// The mappings and the program break.
    pub state: MemoryManagerState,
    /// Whether this address space is dumpable.
    pub dumpable: DumpPolicy,
}

impl MemoryManager {
    pub open spec fn wf(&self) -> bool {
        &&& self.state.wf()
        &&& self.state.brk matches Some(brk) ==> self.base_addr <= brk.base
    }

    /// The end of the memory that is mapped when the program break is at `addr`: the end of the last
    /// page that holds an address before it. One page stays mapped when it is at its base.
    pub open spec fn brk_end(&self, addr: UserAddress) -> u64 {
        page_end(
            if addr == self.state.brk->0.base {
                addr + 1
            } else {
                addr as int
            },
            self.state.page_size as int,
        ) as u64
    }

    /// Where the memory of the program break is looked up: at the program break, or at the address
    /// before it when a page ends there, as the page that starts there is not mapped.
    pub open spec fn brk_last(&self) -> int {
        let brk = self.state.brk->0;
        if brk.current > brk.base && brk.current % self.state.page_size == 0 {
            brk.current - 1
        } else {
            brk.current as int
        }
    }

    /// What a change of an existing program break to `addr` asks for. When the requested program
    /// break is out of range, it stays as it is.
    pub open spec fn brk_request(&self, addr: UserAddress) -> BrkRequest {
        let brk = self.state.brk->0;
        if addr < brk.base || addr > brk.base + PROGRAM_BREAK_LIMIT {
            BrkRequest::Done(Ok(brk.current))
        } else {
            match self.state.mappings.at(self.brk_last()) {
                None => BrkRequest::Done(Err(Errno::EFAULT)),
                Some(entry) => if self.brk_end(addr) < entry.end {
                    BrkRequest::Shrink {
                        addr: self.brk_end(addr),
                        length: (entry.end - self.brk_end(addr)) as u64,
                        vmo: entry.value.vmo,
                        vmo_offset: (self.brk_end(addr) - brk.base) as u64,
                    }
                } else if self.brk_end(addr) > entry.end {
                    BrkRequest::Grow {
                        vmar_offset: (entry.end - self.base_addr) as u64,
                        vmo: entry.value.vmo,
                        vmo_offset: (entry.end - brk.base) as u64,
                        length: (self.brk_end(addr) - entry.end) as u64,
                        flags: brk_flags(true),
                    }
                } else {
                    BrkRequest::Done(Ok(addr))
                },
            }
        }
    }

    /// Whether the memory from the base of the program break up to the program break, rounded up to
    /// a page, is one range, mapped as `mapping` says. It has at least one page.
    pub open spec fn brk_is_mapped(&self, mapping: Mapping) -> bool {
        &&& self.state.brk matches Some(brk)
        &&& forall|p: int|
            brk.base <= p < self.brk_end(brk.current) ==> #[trigger] self.state.mappings.at(p)
                == Some(
                Entry { start: brk.base, end: self.brk_end(brk.current), value: mapping },
            )
    }

    /// Whether this is what became of `before` when the first page of `vmo` had been mapped at
    /// `base` for the program break.
    pub open spec fn break_created_from(&self, before: &Self, vmo: Koid, base: UserAddress) -> bool {
        &&& self.wf()
        &&& self.base_addr == before.base_addr
        &&& self.dumpable == before.dumpable
        &&& self.state.page_size == before.state.page_size
        &&& self.state.brk == Some(ProgramBreak { base, current: base })
        &&& exists|mapping: Mapping| #[trigger]
            mapping.is_new(base, vmo, 0, brk_flags(false)) && mapped_over(
                before.state.mappings,
                self.state.mappings,
                base,
                before.state.end_of(base, before.state.page_size),
                mapping,
            )
    }

    /// Whether nothing but the program break differs from `before`.
    pub open spec fn only_brk_moved(&self, before: &Self, addr: UserAddress) -> bool {
        *self == (MemoryManager {
            state: MemoryManagerState {
                brk: Some(ProgramBreak { base: before.state.brk->0.base, current: addr }),
                ..before.state
            },
            ..*before
        })
    }

    pub fn new(base_addr: UserAddress, page_size: u64) -> (r: Self)
        requires
            page_size > 0,
        ensures
            r.wf(),
            r.base_addr == base_addr,
            r.state.page_size == page_size,
            r.state.brk is None,
            r.state.mappings.entries().len() == 0,
            r.dumpable == DumpPolicy::DISABLE,
    {
        MemoryManager {
            base_addr,
            state: MemoryManagerState { brk: None, mappings: RangeMap::new(), page_size },
            dumpable: DumpPolicy::DISABLE,
        }
    }

    /// Sets the program break. Where that asks for something, the change goes on with
    /// [`MemoryManager::break_created`], [`MemoryManager::break_shrunk`] or
    /// [`MemoryManager::break_grown`].
    pub fn set_brk(&mut self, addr: UserAddress) -> (r: BrkRequest)
        requires
            old(self).wf(),
        ensures
            final(self).wf(),
            match old(self).state.brk {
                None => {
                    &&& r == BrkRequest::Create {
                        vmo_size: PROGRAM_BREAK_LIMIT,
                        length: old(self).state.page_size,
                        flags: brk_flags(false),
                    }
                    &&& *final(self) == *old(self)
                },
                Some(_) => {
                    &&& r == old(self).brk_request(addr)
                    &&& match r {
                        BrkRequest::Done(Ok(current)) => final(self).only_brk_moved(
                            old(self),
                            current,
                        ),
                        _ => *final(self) == *old(self),
                    }
                },
            },
            forall|mapping: Mapping| #[trigger]
                old(self).brk_is_mapped(mapping) ==> final(self).brk_is_mapped(mapping),
    {
        let brk = match self.state.brk {
            None => {
                // Ensure that a program break exists by mapping at least one page.
                return BrkRequest::Create {
                    vmo_size: PROGRAM_BREAK_LIMIT,
                    length: self.state.page_size,
                    flags: flags_for_brk(false),
                };
            },
            Some(brk) => brk,
        };
        self.move_brk(addr, brk)
    }

    /// Sets the program break, when the memory for it has been asked for.
    pub fn break_created(&mut self, addr: UserAddress, creation: BreakCreation) -> (r: BrkRequest)
        requires
            old(self).wf(),
            old(self).state.brk is None,
            creation matches BreakCreation::NotMapped(status) ==> is_map_err(status),
            creation matches BreakCreation::Mapped { vmo, addr: base } ==> {
                &&& old(self).base_addr <= base
                &&& base + PROGRAM_BREAK_LIMIT + 2 * old(self).state.page_size <= u64::MAX
            },
        ensures
            final(self).wf(),
            match creation {
                BreakCreation::NoVmo => {
                    &&& r == BrkRequest::Done(Err(Errno::ENOMEM))
                    &&& *final(self) == *old(self)
                },
                BreakCreation::NotMapped(status) => {
                    &&& r == BrkRequest::Done(Err(map_errno(status)))
                    &&& *final(self) == *old(self)
                },
                BreakCreation::Mapped { vmo, addr: base } => exists|created: Self|
                    {
                        &&& #[trigger] created.break_created_from(old(self), vmo, base)
                        &&& r == created.brk_request(addr)
                        &&& match r {
                            BrkRequest::Done(Ok(current)) => final(self).only_brk_moved(
                                &created,
                                current,
                            ),
                            _ => *final(self) == created,
                        }
                    },
            },
            creation matches BreakCreation::Mapped { vmo, addr: base } ==> base
                % old(self).state.page_size == 0 ==> exists|mapping: Mapping| #[trigger]
                mapping.is_new(base, vmo, 0, brk_flags(false)) && final(self).brk_is_mapped(mapping),
    {
        match creation {
            BreakCreation::NoVmo => BrkRequest::Done(Err(Errno::ENOMEM)),
            BreakCreation::NotMapped(status) => BrkRequest::Done(
                Err(MemoryManager::get_errno_for_map_err(status)),
            ),
            BreakCreation::Mapped { vmo, addr: base } => {
                let length: u64 = self.state.page_size;
                let _ = self.state.map(Ok(base), vmo, 0, length, flags_for_brk(false));
                let brk = ProgramBreak { base, current: base };
                self.state.brk = Some(brk);
                let ghost created = *self;
                proof {
                    let page = self.state.page_size as int;
                    let mapping = choose|mapping: Mapping| #[trigger]
                        mapping.is_new(base, vmo, 0, brk_flags(false)) && mapped_over(
                            old(self).state.mappings,
                            self.state.mappings,
                            base,
                            old(self).state.end_of(base, length),
                            mapping,
                        );
                    assert(created.break_created_from(old(self), vmo, base));
                    if base % self.state.page_size == 0 {
                        lemma_next_page(base as int, page);
                        assert(created.brk_is_mapped(mapping));
                    }
                }
                self.move_brk(addr, brk)
            },
        }
    }

    // Moves an existing program break to `addr`, or says what that asks for.
    fn move_brk(&mut self, addr: UserAddress, brk: ProgramBreak) -> (r: BrkRequest)
        requires
            old(self).wf(),
            old(self).state.brk == Some(brk),
        ensures
            final(self).wf(),
            r == old(self).brk_request(addr),
            match r {
                BrkRequest::Done(Ok(current)) => final(self).only_brk_moved(old(self), current),
                _ => *final(self) == *old(self),
            },
            forall|mapping: Mapping| #[trigger]
                old(self).brk_is_mapped(mapping) ==> final(self).brk_is_mapped(mapping),
    {
        if addr < brk.base || addr > brk.base + PROGRAM_BREAK_LIMIT {
            // The requested program break is out-of-range. We're supposed to simply return the
            // current program break.
            return BrkRequest::Done(Ok(brk.current));
        }
        let (old_end, vmo): (u64, u64) = match self.state.mappings.get(
            last_of_brk(brk, self.state.page_size),
        ) {
            None => {
                return BrkRequest::Done(Err(Errno::EFAULT));
            },
            Some(entry) => (entry.end, entry.value.vmo),
        };
        let new_end: u64 = end_of_brk(addr, brk.base, self.state.page_size);
        if new_end < old_end {
            // We've been asked to free memory.
            BrkRequest::Shrink {
                addr: new_end,
                length: old_end - new_end,
                vmo,
                vmo_offset: new_end - brk.base,
            }
        } else if new_end > old_end {
            // We've been asked to map more memory.
            BrkRequest::Grow {
                vmar_offset: old_end - self.base_addr,
                vmo,
                vmo_offset: old_end - brk.base,
                length: new_end - old_end,
                flags: flags_for_brk(true),
            }
        } else {
            self.state.brk = Some(ProgramBreak { base: brk.base, current: addr });
            BrkRequest::Done(Ok(addr))
        }
    }
}

impl MemoryManager {
    /// Sets the program break, when memory has been asked to be unmapped for it.
    pub fn break_shrunk(&mut self, addr: UserAddress, unmapped: Result<(), Status>) -> (r: Result<
        UserAddress,
        Errno,
    >)
        requires
            old(self).wf(),
            old(self).state.brk is Some,
            old(self).brk_request(addr) is Shrink,
            old(self).state.mappings.at(old(self).brk_last())->0.end + old(self).state.page_size
                <= u64::MAX,
            unmapped matches Err(status) ==> status is NotFound || status is InvalidArgs,
        ensures
            final(self).wf(),
            if unmapped == Err::<(), Status>(Status::InvalidArgs) {
                &&& r == Err::<UserAddress, Errno>(Errno::EINVAL)
                &&& *final(self) == *old(self)
            } else {
                let end = old(self).state.mappings.at(old(self).brk_last())->0.end;
                let new_end = old(self).brk_end(addr);
                &&& r == Ok::<UserAddress, Errno>(addr)
                &&& final(self).base_addr == old(self).base_addr
                &&& final(self).dumpable == old(self).dumpable
                &&& final(self).state.page_size == old(self).state.page_size
                &&& final(self).state.brk == Some(
                    ProgramBreak { base: old(self).state.brk->0.base, current: addr },
                )
                &&& unmapped_from(
                    old(self).state.mappings,
                    final(self).state.mappings,
                    new_end,
                    page_end(end as int, old(self).state.page_size as int) as u64,
                )
            },
            forall|mapping: Mapping| #[trigger]
                old(self).brk_is_mapped(mapping) ==> final(self).brk_is_mapped(mapping),
    {
        match self.state.brk {
            None => Err(Errno::EFAULT),
            Some(brk) => {
                let old_end: u64 = match self.state.mappings.get(
                    last_of_brk(brk, self.state.page_size),
                ) {
                    None => {
                        return Err(Errno::EFAULT);
                    },
                    Some(entry) => entry.end,
                };
                let new_end: u64 = end_of_brk(addr, brk.base, self.state.page_size);
                match self.state.unmap(unmapped, new_end, old_end - new_end) {
                    Ok(()) => {
                        self.state.brk = Some(ProgramBreak { base: brk.base, current: addr });
                        proof {
                            assert forall|mapping: Mapping| #[trigger]
                                old(self).brk_is_mapped(mapping) implies self.brk_is_mapped(
                                mapping,
                            ) by {
                                lemma_brk_last(*old(self));
                                assert(old(self).state.mappings.at(old(self).brk_last())->0.end
                                    == old(self).brk_end(brk.current));
                                assert forall|p: int|
                                    brk.base <= p < self.brk_end(addr) implies #[trigger] self.state.mappings.at(
                                    p,
                                ) == Some(
                                    Entry {
                                        start: brk.base,
                                        end: self.brk_end(addr),
                                        value: mapping,
                                    },
                                ) by {
                                    assert(old(self).state.mappings.at(p) == Some(
                                        Entry {
                                            start: brk.base,
                                            end: old(self).brk_end(brk.current),
                                            value: mapping,
                                        },
                                    ));
                                }
                            }
                        }
                        Ok(addr)
                    },
                    Err(errno) => Err(errno),
                }
            },
        }
    }

    /// Sets the program break, when more memory has been asked to be mapped for it. If that has
    /// failed, the memory up to the old end stays mapped.
    pub fn break_grown(&mut self, addr: UserAddress, mapped: Result<(), Status>) -> (r: Result<
        UserAddress,
        Errno,
    >)
        requires
            old(self).wf(),
            old(self).state.brk is Some,
            old(self).brk_request(addr) is Grow,
            mapped matches Err(status) ==> is_map_err(status),
        ensures
            final(self).wf(),
            final(self).base_addr == old(self).base_addr,
            final(self).dumpable == old(self).dumpable,
            final(self).state.page_size == old(self).state.page_size,
            ({
                let brk = old(self).state.brk->0;
                let entry = old(self).state.mappings.at(old(self).brk_last())->0;
                match mapped {
                    Ok(()) => {
                        &&& r == Ok::<UserAddress, Errno>(addr)
                        &&& final(self).state.brk == Some(
                            ProgramBreak { base: brk.base, current: addr },
                        )
                        &&& remapped(
                            old(self).state.mappings,
                            final(self).state.mappings,
                            entry,
                            brk.base,
                            old(self).brk_end(addr),
                        )
                    },
                    Err(status) => {
                        &&& r == Err::<UserAddress, Errno>(map_errno(status))
                        &&& final(self).state.brk == old(self).state.brk
                        &&& remapped(
                            old(self).state.mappings,
                            final(self).state.mappings,
                            entry,
                            brk.base,
                            entry.end,
                        )
                    },
                }
            }),
            forall|mapping: Mapping| #[trigger]
                old(self).brk_is_mapped(mapping) ==> final(self).brk_is_mapped(mapping),
    {
        match self.state.brk {
            None => Err(Errno::EFAULT),
            Some(brk) => {
                let (start, old_end, mapping): (u64, u64, Mapping) = match self.state.mappings.get(
                    last_of_brk(brk, self.state.page_size),
                ) {
                    None => {
                        return Err(Errno::EFAULT);
                    },
                    Some(entry) => (entry.start, entry.end, entry.value.duplicate()),
                };
                let ghost entry = Entry { start, end: old_end, value: mapping };
                let new_end: u64 = end_of_brk(addr, brk.base, self.state.page_size);
                self.state.mappings.remove(start, old_end);
                match mapped {
                    Ok(()) => {
                        self.state.mappings.insert(brk.base, new_end, mapping);
                        self.state.brk = Some(ProgramBreak { base: brk.base, current: addr });
                        proof {
                            lemma_brk_remapped(*old(self), *self, brk, entry, new_end);
                        }
                        Ok(addr)
                    },
                    Err(status) => {
                        // We failed to extend the mapping, which means we need to add back the old
                        // mapping.
                        self.state.mappings.insert(brk.base, old_end, mapping);
                        proof {
                            lemma_brk_remapped(*old(self), *self, brk, entry, old_end);
                        }
                        Err(MemoryManager::get_errno_for_map_err(status))
                    },
                }
            },
        }
    }

    /// The offset at which to map memory that is wanted at `addr`; without an address it can be
    /// anywhere.
    pub fn vmar_offset(&self, addr: UserAddress) -> (r: u64)
        requires
            addr == 0 || addr >= self.base_addr,
        ensures
            r == if addr == 0 {
                0
            } else {
                addr - self.base_addr
            },
    {
        if addr == 0 {
            0
        } else {
            addr - self.base_addr
        }
    }

    /// Records what the kernel has mapped, where it has.
    pub fn map(
        &mut self,
        mapped: Result<UserAddress, Status>,
        vmo: Koid,
        vmo_offset: u64,
        length: u64,
        flags: MapFlags,
    ) -> (r: Result<UserAddress, Errno>)
        requires
            old(self).wf(),
            mapped matches Ok(addr) ==> addr + length + old(self).state.page_size <= u64::MAX,
            mapped matches Err(status) ==> is_map_err(status),
        ensures
            final(self).wf(),
            final(self).base_addr == old(self).base_addr,
            final(self).dumpable == old(self).dumpable,
            final(self).state.brk == old(self).state.brk,
            final(self).state.page_size == old(self).state.page_size,
            match mapped {
                Ok(addr) => r == Ok::<UserAddress, Errno>(addr) && exists|mapping: Mapping| #[trigger]
                    mapping.is_new(addr, vmo, vmo_offset, flags) && mapped_over(
                        old(self).state.mappings,
                        final(self).state.mappings,
                        addr,
                        old(self).state.end_of(addr, length),
                        mapping,
                    ),
                Err(status) => r == Err::<UserAddress, Errno>(map_errno(status)) && *final(self)
                    == *old(self),
            },
    {
        match self.state.map(mapped, vmo, vmo_offset, length, flags) {
            Ok(addr) => Ok(addr),
            Err(status) => Err(MemoryManager::get_errno_for_map_err(status)),
        }
    }

    /// Gives the mapping at `addr` a name. The named memory, of `length` bytes, must not reach
    /// beyond the mapping.
    pub fn set_mapping_name(&mut self, addr: UserAddress, length: u64, name: Vec<u8>) -> (r: Result<
        (),
        Errno,
    >)
        requires
            old(self).wf(),
        ensures
            final(self).wf(),
            final(self).base_addr == old(self).base_addr,
            final(self).dumpable == old(self).dumpable,
            final(self).state.brk == old(self).state.brk,
            final(self).state.page_size == old(self).state.page_size,
            match old(self).state.mappings.at(addr as int) {
                Some(entry) if entry.end - addr >= length => {
                    &&& r is Ok
                    &&& final(self).state.mappings.entries().len() == old(
                        self,
                    ).state.mappings.entries().len()
                    &&& forall|p: int| #[trigger]
                        final(self).state.mappings.at(p) == match old(self).state.mappings.at(p) {
                            Some(other) => if other.covers(addr as int) {
                                Some(
                                    Entry {
                                        value: Mapping { name: Arc::new(name), ..other.value },
                                        ..other
                                    },
                                )
                            } else {
                                Some(other)
                            },
                            None => None,
                        }
                },
                _ => r == Err::<(), Errno>(Errno::EINVAL) && *final(self) == *old(self),
            },
    {
        let renamed = match self.state.mappings.get(addr) {
            None => {
                return Err(Errno::EINVAL);
            },
            Some(entry) => {
                if entry.end - addr < length {
                    return Err(Errno::EINVAL);
                }
                Mapping {
                    base: entry.value.base,
                    vmo: entry.value.vmo,
                    vmo_offset: entry.value.vmo_offset,
                    permissions: entry.value.permissions,
                    name: Arc::new(name),
                }
            },
        };
        let ghost value = renamed;
        self.state.mappings.replace(addr, renamed);
        proof {
            let before = old(self).state.mappings;
            assert forall|p: int| #[trigger]
                self.state.mappings.at(p) == match before.at(p) {
                    Some(other) => if other.covers(addr as int) {
                        Some(
                            Entry {
                                value: Mapping { name: Arc::new(name), ..other.value },
                                ..other
                            },
                        )
                    } else {
                        Some(other)
                    },
                    None => None,
                } by {
                if let Some(other) = before.at(p) {
                    if other.covers(addr as int) {
                        let i = choose|i: int|
                            0 <= i < before.entries().len() && (
                            #[trigger] before.entries()[i]).covers(p);
                        crate::starnix::range_map::lemma_lookup(before.entries(), i, p);
                        crate::starnix::range_map::lemma_lookup(before.entries(), i, addr as int);
                    }
                }
            }
        }
        Ok(())
    }

    /// Returns the name of the mapping at `addr`.
    pub fn get_mapping_name(&self, addr: UserAddress) -> (r: Result<&Vec<u8>, Errno>)
        requires
            self.wf(),
        ensures
            match self.state.mappings.at(addr as int) {
                Some(entry) => r == Ok::<&Vec<u8>, Errno>(&*entry.value.name),
                None => r == Err::<&Vec<u8>, Errno>(Errno::EFAULT),
            },
    {
        match self.state.mappings.get(addr) {
            Some(entry) => Ok(&*entry.value.name),
            None => Err(Errno::EFAULT),
        }
    }

    /// Returns how many mappings there are.
    pub fn get_mapping_count(&self) -> (r: usize)
        ensures
            r == self.state.mappings.entries().len(),
    {
        self.state.mappings.len()
    }

    /// Forgets everything about the address space, when its memory has been destroyed to run
    /// another program in it. `recreated` says whether the kernel has done that.
    pub fn exec(&mut self, recreated: Result<(), Status>) -> (r: Result<(), Status>)
        requires
            old(self).wf(),
        ensures
            r == recreated,
            final(self).wf(),
            match recreated {
                Ok(()) => {
                    &&& final(self).base_addr == old(self).base_addr
                    &&& final(self).state.page_size == old(self).state.page_size
                    &&& final(self).state.brk is None
                    &&& final(self).state.mappings.entries().len() == 0
                    &&& forall|p: int| #[trigger] final(self).state.mappings.at(p) is None
                    &&& final(self).dumpable == DumpPolicy::DISABLE
                },
                Err(_) => *final(self) == *old(self),
            },
    {
        if recreated.is_ok() {
            self.state.brk = None;
            self.state.mappings = RangeMap::new();
            self.dumpable = DumpPolicy::DISABLE;
        }
        recreated
    }

    /// Whether every mapping can be made again in an address space that starts at `target_base`.
    pub open spec fn can_snapshot_to(&self, target_base: UserAddress) -> bool {
        forall|i: int|
            #![trigger self.state.mappings.entries()[i]]
            0 <= i < self.state.mappings.entries().len() ==> {
                let entry = self.state.mappings.entries()[i];
                &&& target_base <= entry.start
                &&& entry.value.base <= entry.start
                &&& entry.value.vmo_offset + (entry.start - entry.value.base) <= u64::MAX
            }
    }

    /// Says how to map the same memory in another address space, which starts at `target_base`.
    /// `infos` is what the kernel says of the memory object of each mapping. Every address of the
    /// snapshot is backed by the same offset of the memory object as here.
    pub fn snapshot_to(&self, target_base: UserAddress, infos: &Vec<VmoInfo>) -> (r: Vec<SnapshotOp>)
        requires
            self.wf(),
            self.can_snapshot_to(target_base),
            infos.len() == self.state.mappings.entries().len(),
        ensures
            r.len() == infos.len(),
            forall|i: int|
                0 <= i < r.len() ==> #[trigger] r[i] == snapshot_op(
                    self.state.mappings.entries(),
                    infos@,
                    target_base,
                    i,
                ),
            forall|i: int, p: int|
                #![trigger r[i], self.state.mappings.entries()[i].covers(p)]
                0 <= i < r.len() && self.state.mappings.entries()[i].covers(p) ==> r[i].vmo_offset
                    + (p - self.state.mappings.entries()[i].start)
                    == self.state.mappings.entries()[i].value.vmo_offset + (p
                    - self.state.mappings.entries()[i].value.base),
    {
        let ghost entries = self.state.mappings.entries();
        let mut ops: Vec<SnapshotOp> = Vec::new();
        let mut i: usize = 0;
        while i < self.state.mappings.len()
            invariant
                i <= entries.len(),
                entries == self.state.mappings.entries(),
                infos.len() == entries.len(),
                self.wf(),
                self.can_snapshot_to(target_base),
                ops.len() == i,
                forall|j: int|
                    0 <= j < ops.len() ==> #[trigger] ops[j] == snapshot_op(
                        entries,
                        infos@,
                        target_base,
                        j,
                    ),
            decreases entries.len() - i,
        {
            let entry = self.state.mappings.entry(i);
            let mut first: usize = 0;
            while first < i && self.state.mappings.entry(first).value.vmo != entry.value.vmo
                invariant
                    first <= i < entries.len(),
                    entries == self.state.mappings.entries(),
                    *entry == entries[i as int],
                    first_use(entries, i as int) == first_with(
                        entries,
                        entry.value.vmo,
                        first as int,
                        i as int,
                    ),
                decreases i - first,
            {
                first += 1;
            }
            let share = infos[first].pager_backed;
            let create_child = if first == i && !share {
                Some(infos[i].size_bytes)
            } else {
                None
            };
            let op = SnapshotOp {
                vmo: entry.value.vmo,
                create_child,
                share,
                vmar_offset: entry.start - target_base,
                vmo_offset: entry.value.vmo_offset + (entry.start - entry.value.base),
                length: entry.end - entry.start,
                flags: MapFlags {
                    permissions: entry.value.permissions,
                    specific: true,
                    require_non_resizable: false,
                },
            };
            ops.push(op);
            i += 1;
        }
        ops
    }

    /// Records one mapping of a snapshot. `vmo` is the memory object that was to be mapped, if it
    /// could be had, and `mapped` where the kernel has mapped it, if it has.
    pub fn snapshot_mapped(
        &mut self,
        op: &SnapshotOp,
        vmo: Result<Koid, Status>,
        mapped: Result<UserAddress, Status>,
    ) -> (r: Result<(), Errno>)
        requires
            old(self).wf(),
            mapped matches Ok(addr) ==> addr + op.length + old(self).state.page_size <= u64::MAX,
            mapped matches Err(status) ==> is_map_err(status),
        ensures
            final(self).wf(),
            final(self).base_addr == old(self).base_addr,
            final(self).dumpable == old(self).dumpable,
            final(self).state.brk == old(self).state.brk,
            final(self).state.page_size == old(self).state.page_size,
            match vmo {
                Err(_) => r == Err::<(), Errno>(Errno::ENOMEM) && *final(self) == *old(self),
                Ok(vmo) => match mapped {
                    Ok(addr) => r is Ok && snapshot_made(
                        old(self).state.mappings,
                        final(self).state.mappings,
                        *op,
                        vmo,
                        addr,
                        old(self).state.end_of(addr, op.length),
                    ),
                    Err(status) => r == Err::<(), Errno>(map_errno(status)) && *final(self)
                        == *old(self),
                },
            },
    {
        let vmo: u64 = match vmo {
            Ok(vmo) => vmo,
            Err(_) => {
                return Err(Errno::ENOMEM);
            },
        };
        match self.map(mapped, vmo, op.vmo_offset, op.length, op.flags) {
            Ok(_) => Ok(()),
            Err(errno) => Err(errno),
        }
    }

    /// Gives the snapshot in `target` the program break and the dump policy, when its memory has
    /// been mapped.
    pub fn finish_snapshot(&self, target: &mut MemoryManager)
        requires
            self.wf(),
            old(target).wf(),
            old(target).state.page_size == self.state.page_size,
            self.state.brk matches Some(brk) ==> old(target).base_addr <= brk.base,
        ensures
            final(target).wf(),
            *final(target) == (MemoryManager {
                state: MemoryManagerState { brk: self.state.brk, ..old(target).state },
                dumpable: self.dumpable,
                ..*old(target)
            }),
    {
        target.state.brk = self.state.brk;
        target.dumpable = self.dumpable;
    }
}

/// Whether `after` is `before` with `entry` taken out, and its value mapped from `start` up to
/// `end`.
pub open spec fn remapped(
    before: RangeMap<Mapping>,
    after: RangeMap<Mapping>,
    entry: Entry<Mapping>,
    start: u64,
    end: u64,
) -> bool {
    &&& after.wf()
    &&& forall|p: int| #[trigger]
        after.at(p) == if start <= p < end {
            Some(Entry { start, end, value: entry.value })
        } else {
            crate::starnix::range_map::trimmed(
                crate::starnix::range_map::trimmed(before.at(p), entry.start, entry.end, p),
                start,
                end,
                p,
            )
        }
}

// The program break stays mapped when its memory has been mapped anew up to `end`.
proof fn lemma_brk_remapped(
    before: MemoryManager,
    after: MemoryManager,
    brk: ProgramBreak,
    entry: Entry<Mapping>,
    end: u64,
)
    requires
        before.wf(),
        after.wf(),
        before.state.brk == Some(brk),
        before.state.mappings.at(before.brk_last()) == Some(entry),
        after.state.page_size == before.state.page_size,
        after.state.brk matches Some(moved) && moved.base == brk.base && (moved.current
            == brk.current && end == entry.end || end == before.brk_end(moved.current)),
        remapped(before.state.mappings, after.state.mappings, entry, brk.base, end),
    ensures
        forall|mapping: Mapping| #[trigger]
            before.brk_is_mapped(mapping) ==> after.brk_is_mapped(mapping),
{
    assert forall|mapping: Mapping| #[trigger] before.brk_is_mapped(
        mapping,
    ) implies after.brk_is_mapped(mapping) by {
        lemma_brk_last(before);
        assert(before.state.mappings.at(before.brk_last()) == Some(
            Entry { start: brk.base, end: before.brk_end(brk.current), value: mapping },
        ));
    }
}

// The memory of the program break is looked up where it is.
proof fn lemma_brk_last(manager: MemoryManager)
    requires
        manager.wf(),
        manager.state.brk is Some,
    ensures
        manager.state.brk->0.base <= manager.brk_last() < manager.brk_end(
            manager.state.brk->0.current,
        ),
{
    let brk = manager.state.brk->0;
    let page_size = manager.state.page_size as int;
    let end: int = if brk.current == brk.base {
        brk.current + 1
    } else {
        brk.current as int
    };
    vstd::arithmetic::div_mod::lemma_mod_bound(end, page_size);
}

/// Finds the first place of a byte. The `memchr` function of the crate of that name returns the
/// least index at which `haystack` holds `needle`, and `None` where it holds none.
#[verifier::external_body]
fn find_byte(needle: u8, haystack: &[u8]) -> (r: Option<usize>)
    ensures
        match r {
            Some(i) => i < haystack@.len() && haystack@[i as int] == needle && forall|j: int|
                0 <= j < i ==> haystack@[j] != needle,
            None => forall|j: int| 0 <= j < haystack@.len() ==> haystack@[j] != needle,
        },
{
    memchr::memchr(needle, haystack)
}

/// Whether a transfer of `length` bytes has succeeded: all of them must have been transferred.
pub open spec fn transfer_result(actual: Result<usize, Status>, length: nat) -> Result<(), Errno> {
    if actual matches Ok(count) && count == length {
        Ok(())
    } else {
        Err(Errno::EFAULT)
    }
}

impl MemoryManager {
    /// The error that a system call returns when the kernel cannot map memory.
    pub fn get_errno_for_map_err(status: Status) -> (r: Errno)
        requires
            is_map_err(status),
        ensures
            r == map_errno(status),
    {
        match status {
            Status::InvalidArgs => Errno::EINVAL,
            Status::AccessDenied => Errno::EACCES,
            Status::NotSupported => Errno::ENODEV,
            _ => Errno::ENOMEM,
        }
    }

    /// Says whether `bytes` have been read, when the kernel says that it has read as many as `actual`.
    pub fn read_memory(actual: Result<usize, Status>, bytes: &[u8]) -> (r: Result<(), Errno>)
        ensures
            r == transfer_result(actual, bytes@.len()),
    {
        match actual {
            Ok(count) => if count != bytes.len() {
                Err(Errno::EFAULT)
            } else {
                Ok(())
            },
            Err(_) => Err(Errno::EFAULT),
        }
    }

    /// Says whether `bytes` have been written, when the kernel says that it has written as many as
    /// `actual`.
    pub fn write_memory(actual: Result<usize, Status>, bytes: &[u8]) -> (r: Result<(), Errno>)
        ensures
            r == transfer_result(actual, bytes@.len()),
    {
        match actual {
            Ok(count) => if count != bytes.len() {
                Err(Errno::EFAULT)
            } else {
                Ok(())
            },
            Err(_) => Err(Errno::EFAULT),
        }
    }

    /// Returns the string at the start of `buffer`, without the zero byte that ends it, when the
    /// kernel says that it has read as many bytes as `actual`.
    pub fn read_c_string<'a>(actual: Result<usize, Status>, buffer: &'a [u8]) -> (r: Result<
        &'a [u8],
        Errno,
    >)
        requires
            actual matches Ok(count) ==> count <= buffer@.len(),
        ensures
            match actual {
                Err(_) => r == Err::<&[u8], Errno>(Errno::EFAULT),
                Ok(count) => match r {
                    Ok(string) => {
                        &&& string@.len() < count
                        &&& string@ == buffer@.take(string@.len() as int)
                        &&& buffer@[string@.len() as int] == 0
                        &&& !string@.contains(0)
                    },
                    Err(errno) => errno == Errno::ENAMETOOLONG && !buffer@.take(
                        count as int,
                    ).contains(0),
                },
            },
    {
        match actual {
            Err(_) => Err(Errno::EFAULT),
            Ok(count) => {
                let read: &'a [u8] = vstd::slice::slice_subrange(buffer, 0, count);
                match find_byte(0, read) {
                    None => {
                        assert(read@ =~= buffer@.take(count as int));
                        Err(Errno::ENAMETOOLONG)
                    },
                    Some(null_index) => {
                        let string: &'a [u8] = vstd::slice::slice_subrange(read, 0, null_index);
                        assert(string@ =~= buffer@.take(null_index as int));
                        assert(forall|j: int| 0 <= j < null_index ==> string@[j] == read@[j]);
                        Ok(string)
                    },
                }
            },
        }
    }

    /// Records what the kernel has unmapped.
    pub fn unmap(&mut self, unmapped: Result<(), Status>, addr: UserAddress, length: u64) -> (r: Result<
        (),
        Errno,
    >)
        requires
            old(self).wf(),
            unmapped matches Err(status) ==> status is NotFound || status is InvalidArgs,
            unmapped != Err::<(), Status>(Status::InvalidArgs) ==> addr + length + old(
                self,
            ).state.page_size <= u64::MAX,
        ensures
            final(self).wf(),
            final(self).base_addr == old(self).base_addr,
            final(self).dumpable == old(self).dumpable,
            final(self).state.brk == old(self).state.brk,
            final(self).state.page_size == old(self).state.page_size,
            if unmapped == Err::<(), Status>(Status::InvalidArgs) {
                r == Err::<(), Errno>(Errno::EINVAL) && *final(self) == *old(self)
            } else {
                r is Ok && unmapped_from(
                    old(self).state.mappings,
                    final(self).state.mappings,
                    addr,
                    old(self).state.end_of(addr, length),
                )
            },
    {
        self.state.unmap(unmapped, addr, length)
    }

    /// Records that the kernel has protected memory, where it has.
    pub fn protect(
        &mut self,
        protected: Result<(), Status>,
        addr: UserAddress,
        length: u64,
        flags: MapFlags,
    ) -> (r: Result<(), Errno>)
        requires
            old(self).wf(),
            protected matches Err(status) ==> status is InvalidArgs || status is NotFound || status
                is AccessDenied,
            protected is Ok ==> addr + length + old(self).state.page_size <= u64::MAX,
        ensures
            final(self).wf(),
            final(self).base_addr == old(self).base_addr,
            final(self).dumpable == old(self).dumpable,
            final(self).state.brk == old(self).state.brk,
            final(self).state.page_size == old(self).state.page_size,
            match old(self).state.mappings.at(addr as int) {
                None => r == Err::<(), Errno>(Errno::EINVAL),
                Some(entry) => match protected {
                    Ok(()) => r is Ok && mapped_over(
                        old(self).state.mappings,
                        final(self).state.mappings,
                        addr,
                        old(self).state.end_of(addr, length),
                        (Mapping { permissions: flags.permissions, ..entry.value }),
                    ),
                    Err(Status::AccessDenied) => r == Err::<(), Errno>(Errno::EACCES),
                    Err(_) => r == Err::<(), Errno>(Errno::EINVAL),
                },
            },
            r is Err ==> *final(self) == *old(self),
    {
        self.state.protect(protected, addr, length, flags)
    }
}

// A page boundary is not before the end of the page of an address that it is not before.
proof fn lemma_page_end_within(addr: int, boundary: int, page_size: int)
    requires
        page_size > 0,
        0 <= addr <= boundary,
        boundary % page_size == 0,
    ensures
        page_end(addr, page_size) <= boundary,
{
    vstd::arithmetic::div_mod::lemma_fundamental_div_mod(addr, page_size);
    vstd::arithmetic::div_mod::lemma_fundamental_div_mod(boundary, page_size);
    let (a, b) = (addr / page_size, boundary / page_size);
    if addr % page_size != 0 {
        vstd::arithmetic::div_mod::lemma_mod_bound(addr, page_size);
        assert(a + 1 <= b) by (nonlinear_arith)
            requires
                page_size > 0,
                page_size * a + addr % page_size <= page_size * b,
                addr % page_size > 0,
        ;
        assert(page_size * (a + 1) <= page_size * b) by (nonlinear_arith)
            requires
                page_size > 0,
                a + 1 <= b,
        ;
        assert(page_size * (a + 1) == page_size * a + page_size) by (nonlinear_arith);
    }
}

/// More memory is mapped for the program break only from within the memory object that was created
/// for it.
pub proof fn law_program_break_stays_in_its_memory_object(
    manager: MemoryManager,
    addr: UserAddress,
)
    requires
        manager.wf(),
        manager.state.brk matches Some(brk) && brk.base % manager.state.page_size == 0,
        PROGRAM_BREAK_LIMIT % manager.state.page_size == 0,
    ensures
        manager.brk_request(addr) matches BrkRequest::Grow { vmo_offset, length, .. } ==> vmo_offset
            + length <= PROGRAM_BREAK_LIMIT,
{
    let brk = manager.state.brk->0;
    let page_size = manager.state.page_size as int;
    if manager.brk_request(addr) is Grow {
        let entries = manager.state.mappings.entries();
        let i = choose|i: int|
            0 <= i < entries.len() && (#[trigger] entries[i]).covers(manager.brk_last());
        crate::starnix::range_map::lemma_lookup(entries, i, manager.brk_last());
        let last = brk.base + PROGRAM_BREAK_LIMIT;
        vstd::arithmetic::div_mod::lemma_add_mod_noop(
            brk.base as int,
            PROGRAM_BREAK_LIMIT as int,
            page_size,
        );
        vstd::arithmetic::div_mod::lemma_small_mod(0, page_size as nat);
        assert(last % page_size == 0);
        let end: int = if addr == brk.base {
            addr + 1
        } else {
            addr as int
        };
        lemma_page_end_within(end, last, page_size);
        vstd::arithmetic::div_mod::lemma_mod_bound(end, page_size);
    }
}

/// What backs an address: the memory object, and the offset in it.
pub open spec fn backing(entry: Option<Entry<Mapping>>, p: int) -> Option<(Koid, int)> {
    match entry {
        Some(entry) => Some((entry.value.vmo, entry.value.vmo_offset + (p - entry.value.base))),
        None => None,
    }
}

/// Whether what is mapped at `p` in a snapshot is what is mapped there in the address space that it
/// was taken of: it is backed by the same offset of a copy of the same memory object, and can be
/// used for the same.
pub open spec fn same_memory(
    copied: Option<Entry<Mapping>>,
    given: Option<Entry<Mapping>>,
    copies: spec_fn(Koid) -> Koid,
    p: int,
) -> bool {
    match given {
        None => copied is None,
        Some(entry) => {
            &&& backing(copied, p) == Some(
                (copies(entry.value.vmo), entry.value.vmo_offset + (p - entry.value.base)),
            )
            &&& copied->0.value.permissions == entry.value.permissions
        },
    }
}

/// Whether `p` is in one of the pages that the first `count` mappings reach into, from the start of
/// the mapping on.
pub open spec fn in_pages_of(
    entries: Seq<Entry<Mapping>>,
    count: int,
    page_size: int,
    p: int,
) -> bool {
    exists|i: int|
        0 <= i < count && (#[trigger] entries[i]).start <= p < page_end(
            entries[i].end as int,
            page_size,
        )
}

/// Whether `states` are the mappings from before the first mapping of a snapshot has been made,
/// in an address space in which nothing is mapped, until after the last, each where it was asked
/// for. `copies` says which memory object takes the place of another one. As [`MemoryManager::map`]
/// asks, no mapping ends within a page of the last address.
pub open spec fn snapshot_states(
    given: MemoryManager,
    target_base: UserAddress,
    infos: Seq<VmoInfo>,
    copies: spec_fn(Koid) -> Koid,
    states: Seq<RangeMap<Mapping>>,
) -> bool {
    &&& infos.len() == given.state.mappings.entries().len()
    &&& states.len() == infos.len() + 1
    &&& forall|p: int| #[trigger] states[0].at(p) is None
    &&& forall|i: int|
        #![trigger given.state.mappings.entries()[i]]
        0 <= i < infos.len() ==> {
            let op = snapshot_op(given.state.mappings.entries(), infos, target_base, i);
            &&& given.state.mappings.entries()[i].end + given.state.page_size <= u64::MAX
            &&& snapshot_made(
                states[i],
                states[i + 1],
                op,
                copies(op.vmo),
                (target_base + op.vmar_offset) as u64,
                given.state.end_of((target_base + op.vmar_offset) as u64, op.length),
            )
        }
}

/// When every mapping of a snapshot has been made, the same memory is mapped at every address at
/// which some is mapped. Nothing else is mapped but the rest of the last page of a mapping, and
/// nothing else at all when every mapping ends where a page does.
pub proof fn law_snapshots_map_the_same_memory(
    given: MemoryManager,
    target_base: UserAddress,
    infos: Seq<VmoInfo>,
    copies: spec_fn(Koid) -> Koid,
    states: Seq<RangeMap<Mapping>>,
)
    requires
        given.wf(),
        given.can_snapshot_to(target_base),
        snapshot_states(given, target_base, infos, copies, states),
    ensures
        forall|p: int| #[trigger]
            given.state.mappings.at(p) is Some ==> same_memory(
                states.last().at(p),
                given.state.mappings.at(p),
                copies,
                p,
            ),
        forall|p: int| #[trigger]
            states.last().at(p) is Some ==> in_pages_of(
                given.state.mappings.entries(),
                infos.len() as int,
                given.state.page_size as int,
                p,
            ),
        (forall|i: int|
            0 <= i < infos.len() ==> (#[trigger] given.state.mappings.entries()[i]).end
                % given.state.page_size == 0) ==> forall|p: int| #[trigger]
            same_memory(states.last().at(p), given.state.mappings.at(p), copies, p),
{
    let entries = given.state.mappings.entries();
    let count = entries.len() as int;
    lemma_snapshot_so_far(given, target_base, infos, copies, states, count);
    assert(entries.take(count) =~= entries);
    assert forall|p: int| #[trigger] given.state.mappings.at(p) is Some implies same_memory(
        states.last().at(p),
        given.state.mappings.at(p),
        copies,
        p,
    ) by {
        assert(snapshot_has(entries, states[count], count, copies, p));
    }
    assert forall|p: int| #[trigger] states.last().at(p) is Some implies in_pages_of(
        entries,
        count,
        given.state.page_size as int,
        p,
    ) by {
        assert(snapshot_has(entries, states[count], count, copies, p));
    }
    if forall|i: int|
        0 <= i < infos.len() ==> (#[trigger] entries[i]).end % given.state.page_size == 0 {
        assert forall|p: int| #[trigger] same_memory(
            states.last().at(p),
            given.state.mappings.at(p),
            copies,
            p,
        ) by {
            if states.last().at(p) is Some {
                let i = choose|i: int|
                    0 <= i < count && (#[trigger] entries[i]).start <= p < page_end(
                        entries[i].end as int,
                        given.state.page_size as int,
                    );
                crate::starnix::range_map::lemma_lookup(entries, i, p);
            }
        }
    }
}

// Whether the first `count` mappings are in the snapshot at `p`.
spec fn snapshot_has(
    entries: Seq<Entry<Mapping>>,
    state: RangeMap<Mapping>,
    count: int,
    copies: spec_fn(Koid) -> Koid,
    p: int,
) -> bool {
    let given = crate::starnix::range_map::lookup(entries.take(count), p);
    given is Some ==> same_memory(state.at(p), given, copies, p)
}

// The same memory is mapped at every address of the first `count` mappings when they have been made.
proof fn lemma_snapshot_so_far(
    given: MemoryManager,
    target_base: UserAddress,
    infos: Seq<VmoInfo>,
    copies: spec_fn(Koid) -> Koid,
    states: Seq<RangeMap<Mapping>>,
    count: int,
)
    requires
        given.wf(),
        given.can_snapshot_to(target_base),
        snapshot_states(given, target_base, infos, copies, states),
        0 <= count <= infos.len(),
    ensures
        forall|p: int| #[trigger]
            snapshot_has(given.state.mappings.entries(), states[count], count, copies, p),
        forall|p: int| #[trigger]
            states[count].at(p) is Some ==> in_pages_of(
                given.state.mappings.entries(),
                count,
                given.state.page_size as int,
                p,
            ),
    decreases count,
{
    let entries = given.state.mappings.entries();
    let page_size = given.state.page_size as int;
    if count > 0 {
        let i = count - 1;
        lemma_snapshot_so_far(given, target_base, infos, copies, states, i);
        let entry = entries[i];
        let op = snapshot_op(entries, infos, target_base, i);
        let end = page_end(entry.end as int, page_size);
        vstd::arithmetic::div_mod::lemma_mod_bound(entry.end as int, page_size);
        assert((target_base + op.vmar_offset) as u64 == entry.start);
        assert(given.state.end_of(entry.start, op.length) == end);
        let mapping = choose|mapping: Mapping| #[trigger]
            mapping.is_new(entry.start, copies(op.vmo), op.vmo_offset, op.flags) && mapped_over(
                states[i],
                states[count],
                entry.start,
                end as u64,
                mapping,
            );
        assert(mapping.is_new(entry.start, copies(op.vmo), op.vmo_offset, op.flags));
        assert forall|p: int| #[trigger] snapshot_has(
            entries,
            states[count],
            count,
            copies,
            p,
        ) by {
            lemma_lookup_one_more(entries, i, p);
            assert(snapshot_has(entries, states[i], i, copies, p));
            if crate::starnix::range_map::lookup(entries.take(i), p) is Some {
                let fewer = entries.take(i);
                let j = choose|j: int| 0 <= j < fewer.len() && (#[trigger] fewer[j]).covers(p);
                assert(fewer[j] == entries[j]);
                assert(entries[j].end <= entry.start);
                assert(states[count].at(p) == crate::starnix::range_map::trimmed(
                    states[i].at(p),
                    entry.start,
                    end as u64,
                    p,
                ));
            }
        }
        assert forall|p: int| #[trigger] states[count].at(p) is Some implies in_pages_of(
            entries,
            count,
            page_size,
            p,
        ) by {
            if entry.start <= p < end {
                assert(entries[i].start <= p < page_end(entries[i].end as int, page_size));
            } else {
                assert(states[i].at(p) is Some);
                let j = choose|j: int|
                    0 <= j < i && (#[trigger] entries[j]).start <= p < page_end(
                        entries[j].end as int,
                        page_size,
                    );
                assert(entries[j].start <= p < page_end(entries[j].end as int, page_size));
            }
        }
    }
}

// What the first entries hold at an address when one more of them is counted.
proof fn lemma_lookup_one_more(entries: Seq<Entry<Mapping>>, i: int, p: int)
    requires
        crate::starnix::range_map::in_order(entries),
        0 <= i < entries.len(),
    ensures
        crate::starnix::range_map::lookup(entries.take(i + 1), p) == if entries[i].covers(p) {
            Some(entries[i])
        } else {
            crate::starnix::range_map::lookup(entries.take(i), p)
        },
{
    let (some, fewer) = (entries.take(i + 1), entries.take(i));
    assert(forall|j: int| 0 <= j < some.len() ==> #[trigger] some[j] == entries[j]);
    assert(forall|j: int| 0 <= j < fewer.len() ==> #[trigger] fewer[j] == entries[j]);
    assert(crate::starnix::range_map::in_order(some));
    assert(crate::starnix::range_map::in_order(fewer));
    assert(some[i] == entries[i]);
    if entries[i].covers(p) {
        crate::starnix::range_map::lemma_lookup(some, i, p);
    } else if exists|j: int| 0 <= j < fewer.len() && (#[trigger] fewer[j]).covers(p) {
        let j = choose|j: int| 0 <= j < fewer.len() && (#[trigger] fewer[j]).covers(p);
        assert(some[j] == fewer[j]);
        crate::starnix::range_map::lemma_lookup(some, j, p);
        crate::starnix::range_map::lemma_lookup(fewer, j, p);
    } else {
        assert forall|j: int| 0 <= j < some.len() implies !(#[trigger] some[j]).covers(p) by {
            if j < i {
                assert(!fewer[j].covers(p));
            }
        }
    }
}

/// Unmapping memory undoes mapping it where nothing was mapped.
pub proof fn law_unmapping_undoes_mapping(
    before: RangeMap<Mapping>,
    between: RangeMap<Mapping>,
    after: RangeMap<Mapping>,
    start: u64,
    end: u64,
    mapping: Mapping,
)
    requires
        before.wf(),
        forall|p: int| start <= p < end ==> #[trigger] before.at(p) is None,
        mapped_over(before, between, start, end, mapping),
        unmapped_from(between, after, start, end),
    ensures
        forall|p: int| #[trigger] after.at(p) == before.at(p),
{
    assert forall|p: int| #[trigger] after.at(p) == before.at(p) by {
        assert(after.at(p) == crate::starnix::range_map::trimmed(between.at(p), start, end, p));
        if start < end && !(start <= p < end) {
            if let Some(entry) = before.at(p) {
                // An entry that reached into the range would cover one of its addresses.
                let entries = before.entries();
                let i = choose|i: int|
                    0 <= i < entries.len() && (#[trigger] entries[i]).covers(p);
                crate::starnix::range_map::lemma_lookup(entries, i, p);
                if p < start && entry.end > start {
                    crate::starnix::range_map::lemma_lookup(entries, i, start as int);
                    assert(before.at(start as int) is Some);
                }
                if p >= end && entry.start < end {
                    crate::starnix::range_map::lemma_lookup(entries, i, end - 1);
                    assert(before.at(end - 1) is Some);
                }
            }
        }
    }
}

/// Protecting memory within a mapping changes neither what is mapped nor what backs it.
pub proof fn law_protecting_keeps_what_backs_memory(
    before: RangeMap<Mapping>,
    after: RangeMap<Mapping>,
    start: u64,
    end: u64,
    permissions: Permissions,
)
    requires
        before.wf(),
        before.at(start as int) matches Some(entry) && end <= entry.end && mapped_over(
            before,
            after,
            start,
            end,
            (Mapping { permissions, ..entry.value }),
        ),
    ensures
        forall|p: int| #[trigger] backing(after.at(p), p) == backing(before.at(p), p),
        forall|p: int|
            start <= p < end ==> (#[trigger] after.at(p))->0.value.permissions == permissions,
        forall|p: int|
            !(start <= p < end) && before.at(p) is Some ==> (
            #[trigger] after.at(p))->0.value == before.at(p)->0.value,
{
    let entry = before.at(start as int)->0;
    let entries = before.entries();
    let i = choose|i: int| 0 <= i < entries.len() && (#[trigger] entries[i]).covers(start as int);
    crate::starnix::range_map::lemma_lookup(entries, i, start as int);
    assert forall|p: int| #[trigger] backing(after.at(p), p) == backing(before.at(p), p) by {
        if start <= p < end {
            crate::starnix::range_map::lemma_lookup(entries, i, p);
        } else {
            assert(after.at(p) == crate::starnix::range_map::trimmed(before.at(p), start, end, p));
        }
    }
    assert forall|p: int| !(start <= p < end) && before.at(p) is Some implies (
    #[trigger] after.at(p))->0.value == before.at(p)->0.value by {
        assert(after.at(p) == crate::starnix::range_map::trimmed(before.at(p), start, end, p));
    }
}

} // verus!
