//! What holds of the mappings of an address space and of its program break.

use crate::starnix::memory_manager::{
    BreakCreation, BrkRequest, Errno, Koid, MapFlags, Mapping, MemoryManager,
    MemoryManagerState, Permissions, ProgramBreak, SnapshotOp, UserAddress, VmoInfo,
};
use crate::starnix::range_map::{Duplicate, Entry, RangeMap};
use crate::zircon::Status;
use vstd::prelude::*;

verus! {

/// Looking an address up finds the range that it is in, and finds nothing if it is in none.
pub proof fn law_looking_up_finds_the_range_around<V>(
    map: RangeMap<V>,
    point: u64,
    r: Option<&Entry<V>>,
)
    requires
        map.wf(),
        call_ensures(RangeMap::<V>::get, (&map, point), r),
    ensures
        r is Some ==> r->0.start <= point < r->0.end && map.entries().contains(*(r->0)),
        r is None ==> forall|i: int|
            0 <= i < map.entries().len() ==> !((#[trigger] map.entries()[i]).start <= point
                < map.entries()[i].end),
{
    lemma_range_around(map, point as int);
    if r is None {
        assert forall|i: int| 0 <= i < map.entries().len() implies !((
        #[trigger] map.entries()[i]).start <= point < map.entries()[i].end) by {
            if map.entries()[i].start <= point < map.entries()[i].end {
                assert(map.entries()[i].covers(point as int));
            }
        }
    }
}

// An entry that is found is one of the map's, and covers the address.
proof fn lemma_range_around<V>(map: RangeMap<V>, p: int)
    ensures
        map.at(p) matches Some(entry) ==> entry.start <= p < entry.end && map.entries().contains(
            entry,
        ),
{
    if map.at(p) is Some {
        let i = choose|i: int|
            0 <= i < map.entries().len() && (#[trigger] map.entries()[i]).covers(p);
        assert(map.entries()[i].covers(p));
    }
}

/// Whether `after` is what is left of a range `before` around an address outside of the addresses
/// from `start` up to `end`: the same value, on the part of the range on that side of them.
pub open spec fn is_left_of<V>(
    after: Option<Entry<V>>,
    before: Option<Entry<V>>,
    start: int,
    end: int,
    p: int,
) -> bool {
    &&& after is Some <==> before is Some
    &&& before is Some ==> {
        &&& after->0.value == before->0.value
        &&& after->0.start <= p < after->0.end
        &&& start < end && p < start ==> {
            &&& after->0.start == before->0.start
            &&& after->0.end <= start
            &&& after->0.end == before->0.end || after->0.end == start && before->0.end > start
        }
        &&& start < end && p >= end ==> {
            &&& after->0.end == before->0.end
            &&& after->0.start >= end
            &&& after->0.start == before->0.start || after->0.start == end && before->0.start < end
        }
        &&& start >= end ==> after == before
    }
}

proof fn lemma_trimmed_is_left<V>(map: RangeMap<V>, start: u64, end: u64, p: int)
    ensures
        !(start <= p < end) ==> is_left_of(
            crate::starnix::range_map::trimmed(map.at(p), start, end, p),
            map.at(p),
            start as int,
            end as int,
            p,
        ),
{
    lemma_range_around(map, p);
}

/// Inserting a value makes it that of all the addresses from `start` up to `end`, as one range. Every
/// other address keeps its value, and what is left of the range that it was in.
pub proof fn law_inserting_changes_just_the_range<V: Duplicate>(
    map: &mut RangeMap<V>,
    start: u64,
    end: u64,
    value: V,
    p: int,
)
    requires
        old(map).wf(),
        call_ensures(RangeMap::<V>::insert, (map, start, end, value), ()),
    ensures
        start <= p < end ==> final(map).at(p) == Some(Entry { start, end, value }),
        !(start <= p < end) ==> is_left_of(
            final(map).at(p),
            old(map).at(p),
            start as int,
            end as int,
            p,
        ),
{
    lemma_trimmed_is_left(*old(map), start, end, p);
}

/// Replacing the value at an address replaces that of the whole range around it, and of no other.
/// The ranges stay as they are.
pub proof fn law_replacing_changes_one_range<V: Duplicate>(
    map: &mut RangeMap<V>,
    point: u64,
    value: V,
    p: int,
)
    requires
        call_ensures(RangeMap::<V>::replace, (map, point, value), ()),
    ensures
        final(map).at(p) is Some <==> old(map).at(p) is Some,
        old(map).at(p) is Some ==> {
            let (before, after) = (old(map).at(p)->0, final(map).at(p)->0);
            &&& after.start == before.start && after.end == before.end
            &&& before.start <= point < before.end ==> after.value == value
            &&& !(before.start <= point < before.end) ==> after.value == before.value
        },
{
    let before = old(map).at(p);
    let after = final(map).at(p);
    assert(before is Some ==> after is Some);
}

/// A map counts its ranges, and gives each of them. A new one has none.
pub proof fn law_ranges_are_counted<V: Duplicate>(
    map: RangeMap<V>,
    count: usize,
    i: usize,
    r: &Entry<V>,
    p: int,
)
    ensures
        call_ensures(RangeMap::<V>::len, (&map,), count) ==> count == map.entries().len(),
        call_ensures(RangeMap::<V>::entry, (&map, i), r) ==> *r == map.entries()[i as int],
        call_ensures(RangeMap::<V>::new, (), map) ==> map.entries().len() == 0 && map.at(p) is None,
{
}

/// There are as many mappings as there are ranges that are mapped.
pub proof fn law_mappings_are_counted(manager: MemoryManager, r: usize)
    requires
        call_ensures(MemoryManager::get_mapping_count, (&manager,), r),
    ensures
        r == manager.state.mappings.entries().len(),
{
}

/// Taking out the addresses from `start` up to `end` leaves nothing there. Every other address keeps
/// its value, and what is left of the range that it was in.
pub proof fn law_removing_changes_just_the_range<V: Duplicate>(
    map: &mut RangeMap<V>,
    start: u64,
    end: u64,
    p: int,
)
    requires
        old(map).wf(),
        call_ensures(RangeMap::<V>::remove, (map, start, end), ()),
    ensures
        start <= p < end ==> final(map).at(p) is None,
        !(start <= p < end) ==> is_left_of(
            final(map).at(p),
            old(map).at(p),
            start as int,
            end as int,
            p,
        ),
{
    lemma_trimmed_is_left(*old(map), start, end, p);
}

/// Whether `end` is where the last page ends that holds one of the addresses before `limit`.
pub open spec fn ends_the_page_of(end: int, limit: int, page_size: int) -> bool {
    end % page_size == 0 && limit <= end < limit + page_size
}

proof fn lemma_page_end(addr: int, page_size: int)
    requires
        page_size > 0,
        addr >= 0,
    ensures
        ends_the_page_of(
            crate::starnix::memory_manager::page_end(addr, page_size),
            addr,
            page_size,
        ),
{
    vstd::arithmetic::div_mod::lemma_mod_bound(addr, page_size);
    vstd::arithmetic::div_mod::lemma_fundamental_div_mod(addr, page_size);
    if addr % page_size != 0 {
        let q = addr / page_size;
        assert(addr - addr % page_size + page_size == page_size * (q + 1)) by (nonlinear_arith)
            requires
                addr == page_size * q + addr % page_size,
        ;
        vstd::arithmetic::div_mod::lemma_mod_multiples_basic(q + 1, page_size);
        assert(page_size * (q + 1) == (q + 1) * page_size) by (nonlinear_arith);
    }
}

/// Each error of the kernel has an error of its own.
pub proof fn law_map_errors_are_told_apart(status: Status, r: Errno)
    requires
        call_ensures(MemoryManager::get_errno_for_map_err, (status,), r),
    ensures
        status is InvalidArgs ==> r is EINVAL,
        status is AccessDenied ==> r is EACCES,
        status is NotSupported ==> r is ENODEV,
        status is NoMemory ==> r is ENOMEM,
{
}

/// Whether nothing but the mappings differs.
pub open spec fn only_mappings_differ(before: MemoryManager, after: MemoryManager) -> bool {
    &&& after.base_addr == before.base_addr
    &&& after.dumpable == before.dumpable
    &&& after.state.brk == before.state.brk
    &&& after.state.page_size == before.state.page_size
}

/// Whether what is mapped at `p` is as it was, though its range may have been cut.
pub open spec fn keeps_value(before: MemoryManager, after: MemoryManager, p: int) -> bool {
    &&& after.state.mappings.at(p) is Some <==> before.state.mappings.at(p) is Some
    &&& before.state.mappings.at(p) is Some ==> after.state.mappings.at(p)->0.value
        == before.state.mappings.at(p)->0.value
}

/// Whether `entry` is backed at `p` by the given offset of `vmo`, and has the given permissions.
pub open spec fn backs(
    entry: Option<Entry<Mapping>>,
    p: int,
    vmo: Koid,
    offset: int,
    permissions: Permissions,
) -> bool {
    &&& entry is Some
    &&& entry->0.value.vmo == vmo
    &&& entry->0.value.vmo_offset + (p - entry->0.value.base) == offset
    &&& entry->0.value.permissions == permissions
}

/// Memory that the kernel has mapped is backed, address by address, by the memory object from the
/// offset on, with the permissions that were asked for and without a name. It takes up whole pages,
/// and what is mapped elsewhere stays. When the kernel has mapped nothing, nothing changes.
pub proof fn law_mapped_memory_is_backed(
    manager: &mut MemoryManager,
    mapped: Result<UserAddress, Status>,
    vmo: Koid,
    vmo_offset: u64,
    length: u64,
    flags: MapFlags,
    r: Result<UserAddress, Errno>,
    p: int,
)
    requires
        old(manager).wf(),
        mapped matches Ok(addr) ==> addr + length + old(manager).state.page_size <= u64::MAX,
        call_ensures(
            MemoryManager::map,
            (manager, mapped, vmo, vmo_offset, length, flags),
            r,
        ),
    ensures
        only_mappings_differ(*old(manager), *final(manager)),
        match mapped {
            Ok(addr) => {
                &&& r == Ok::<UserAddress, Errno>(addr)
                &&& addr <= p < addr + length ==> {
                    &&& backs(
                        final(manager).state.mappings.at(p),
                        p,
                        vmo,
                        vmo_offset + (p - addr),
                        flags.permissions,
                    )
                    &&& final(manager).state.mappings.at(p)->0.value.name@.len() == 0
                    &&& final(manager).state.mappings.at(p)->0.start == addr
                    &&& ends_the_page_of(
                        final(manager).state.mappings.at(p)->0.end as int,
                        addr + length,
                        old(manager).state.page_size as int,
                    )
                }
                &&& p < addr || p >= addr + length + old(manager).state.page_size ==> keeps_value(*old(manager), *final(manager), p)
            },
            Err(status) => {
                &&& *final(manager) == *old(manager)
                &&& status is InvalidArgs ==> r == Err::<UserAddress, Errno>(Errno::EINVAL)
                &&& status is AccessDenied ==> r == Err::<UserAddress, Errno>(Errno::EACCES)
                &&& status is NotSupported ==> r == Err::<UserAddress, Errno>(Errno::ENODEV)
                &&& status is NoMemory ==> r == Err::<UserAddress, Errno>(Errno::ENOMEM)
            },
        },
{
    if let Ok(addr) = mapped {
        let page_size = old(manager).state.page_size as int;
        lemma_page_end(addr + length, page_size);
        lemma_trimmed_is_left(
            old(manager).state.mappings,
            addr,
            old(manager).state.end_of(addr, length),
            p,
        );
    }
}

/// Memory that has been unmapped is gone, in whole pages, and what is mapped elsewhere stays. It is no
/// error if nothing was mapped; when the arguments were not valid, nothing changes.
pub proof fn law_unmapped_memory_is_gone(
    manager: &mut MemoryManager,
    unmapped: Result<(), Status>,
    addr: UserAddress,
    length: u64,
    r: Result<(), Errno>,
    p: int,
)
    requires
        old(manager).wf(),
        addr + length + old(manager).state.page_size <= u64::MAX,
        call_ensures(MemoryManager::unmap, (manager, unmapped, addr, length), r),
    ensures
        only_mappings_differ(*old(manager), *final(manager)),
        unmapped == Err::<(), Status>(Status::InvalidArgs) ==> r == Err::<(), Errno>(Errno::EINVAL)
            && *final(manager) == *old(manager),
        unmapped is Ok || unmapped == Err::<(), Status>(Status::NotFound) ==> {
            &&& r is Ok
            &&& addr <= p < addr + length ==> final(manager).state.mappings.at(p) is None
            &&& p < addr || p >= addr + length + old(manager).state.page_size ==> keeps_value(*old(manager), *final(manager), p)
        },
{
    let page_size = old(manager).state.page_size as int;
    lemma_page_end(addr + length, page_size);
    lemma_trimmed_is_left(
        old(manager).state.mappings,
        addr,
        old(manager).state.end_of(addr, length),
        p,
    );
}

/// Protecting memory gives it the permissions that were asked for, in whole pages, and keeps what
/// backs the address that it starts at and the name. What is mapped elsewhere stays. What is not
/// mapped cannot be protected, and each error of the kernel has an error of its own; then nothing
/// changes.
pub proof fn law_protected_memory_has_the_permissions(
    manager: &mut MemoryManager,
    protected: Result<(), Status>,
    addr: UserAddress,
    length: u64,
    flags: MapFlags,
    r: Result<(), Errno>,
    p: int,
)
    requires
        old(manager).wf(),
        addr + length + old(manager).state.page_size <= u64::MAX,
        call_ensures(MemoryManager::protect, (manager, protected, addr, length, flags), r),
    ensures
        only_mappings_differ(*old(manager), *final(manager)),
        r is Ok <==> old(manager).state.mappings.at(addr as int) is Some && protected is Ok,
        r is Err ==> *final(manager) == *old(manager),
        old(manager).state.mappings.at(addr as int) is None ==> r == Err::<(), Errno>(
            Errno::EINVAL,
        ),
        old(manager).state.mappings.at(addr as int) is Some ==> {
            &&& protected == Err::<(), Status>(Status::AccessDenied) ==> r == Err::<(), Errno>(
                Errno::EACCES,
            )
            &&& protected == Err::<(), Status>(Status::InvalidArgs) ==> r == Err::<(), Errno>(
                Errno::EINVAL,
            )
            &&& protected == Err::<(), Status>(Status::NotFound) ==> r == Err::<(), Errno>(
                Errno::EINVAL,
            )
        },
        r is Ok ==> {
            let given = old(manager).state.mappings.at(addr as int)->0.value;
            &&& addr <= p < addr + length ==> {
                &&& backs(
                    final(manager).state.mappings.at(p),
                    p,
                    given.vmo,
                    given.vmo_offset + (p - given.base),
                    flags.permissions,
                )
                &&& final(manager).state.mappings.at(p)->0.value.name == given.name
            }
            &&& p < addr || p >= addr + length + old(manager).state.page_size ==> keeps_value(*old(manager), *final(manager), p)
        },
{
    let page_size = old(manager).state.page_size as int;
    lemma_page_end(addr + length, page_size);
    lemma_trimmed_is_left(
        old(manager).state.mappings,
        addr,
        old(manager).state.end_of(addr, length),
        p,
    );
}

/// Memory can be protected if and only if it is mapped.
pub proof fn law_only_mapped_memory_can_be_protected(
    state: MemoryManagerState,
    addr: UserAddress,
    r: Result<(), Errno>,
)
    requires
        call_ensures(MemoryManagerState::check_protect, (&state, addr), r),
    ensures
        r is Ok <==> state.mappings.at(addr as int) is Some,
        r is Err ==> r->Err_0 is EINVAL,
{
}

/// Whether the flags are those to map memory that can be read and written, but not executed, from an
/// object whose size is fixed.
pub open spec fn for_reading_and_writing(flags: MapFlags) -> bool {
    &&& flags.permissions.read
    &&& flags.permissions.write
    &&& !flags.permissions.execute
    &&& flags.require_non_resizable
}

/// Whether memory is asked for the program break only to be read and written: first one page
/// anywhere, of an object of 64 MiB, and later more of it at a given place.
pub open spec fn asks_for_writable_memory(r: BrkRequest, page_size: u64) -> bool {
    match r {
        BrkRequest::Create { vmo_size, length, flags } => {
            &&& for_reading_and_writing(flags)
            &&& !flags.specific
            &&& vmo_size == 0x400_0000
            &&& length == page_size
        },
        BrkRequest::Grow { flags, .. } => for_reading_and_writing(flags) && flags.specific,
        _ => true,
    }
}

/// Whatever the program break is set to, its memory is asked for to be read and written.
pub proof fn law_break_is_asked_for_to_be_written(
    manager: &mut MemoryManager,
    addr: UserAddress,
    r: BrkRequest,
)
    requires
        call_ensures(MemoryManager::set_brk, (manager, addr), r),
    ensures
        asks_for_writable_memory(r, old(manager).state.page_size),
        r is Create <==> old(manager).state.brk is None,
{
}

/// When the memory for the program break has been made, it can be read and written: every address of
/// its first page, which is backed by the first page of the memory object. More of it is asked for to
/// be read and written as well. Where it could not be made, there is no program break, and nothing
/// changes.
pub proof fn law_created_break_can_be_written(
    manager: &mut MemoryManager,
    addr: UserAddress,
    creation: BreakCreation,
    r: BrkRequest,
    p: int,
)
    requires
        old(manager).wf(),
        creation matches BreakCreation::Mapped { addr: base, .. } ==> base + 0x400_0000 + 2 * old(
            manager,
        ).state.page_size <= u64::MAX,
        call_ensures(MemoryManager::break_created, (manager, addr, creation), r),
    ensures
        asks_for_writable_memory(r, old(manager).state.page_size),
        !(r is Create),
        final(manager).base_addr == old(manager).base_addr || !(creation is Mapped),
        match creation {
            BreakCreation::NoVmo => r == BrkRequest::Done(Err(Errno::ENOMEM)) && *final(manager)
                == *old(manager),
            BreakCreation::NotMapped(status) => {
                &&& *final(manager) == *old(manager)
                &&& status is InvalidArgs ==> r == BrkRequest::Done(Err(Errno::EINVAL))
                &&& status is AccessDenied ==> r == BrkRequest::Done(Err(Errno::EACCES))
                &&& status is NotSupported ==> r == BrkRequest::Done(Err(Errno::ENODEV))
                &&& status is NoMemory ==> r == BrkRequest::Done(Err(Errno::ENOMEM))
            },
            BreakCreation::Mapped { vmo, addr: base } => {
                &&& final(manager).state.brk is Some
                &&& final(manager).state.brk->0.base == base
                &&& r == BrkRequest::Done(Ok(addr)) ==> final(manager).state.brk->0.current == addr
                &&& !(r is Done) ==> final(manager).state.brk->0.current == base
                &&& base <= p < base + old(manager).state.page_size ==> backs(
                    final(manager).state.mappings.at(p),
                    p,
                    vmo,
                    p - base,
                    Permissions { read: true, write: true, execute: false },
                )
                &&& p < base || p >= base + 2 * old(manager).state.page_size ==> keeps_value(*old(manager), *final(manager), p)
            },
        },
{
    if let BreakCreation::Mapped { vmo, addr: base } = creation {
        let page_size = old(manager).state.page_size;
        lemma_page_end(base + page_size, page_size as int);
        lemma_trimmed_is_left(
            old(manager).state.mappings,
            base,
            old(manager).state.end_of(base, page_size),
            p,
        );
        let created = choose|created: MemoryManager|
            {
                &&& #[trigger] created.break_created_from(old(manager), vmo, base)
                &&& r == created.brk_request(addr)
                &&& match r {
                    BrkRequest::Done(Ok(current)) => final(manager).only_brk_moved(
                        &created,
                        current,
                    ),
                    _ => *final(manager) == created,
                }
            };
        assert(created.break_created_from(old(manager), vmo, base));
        assert(final(manager).state.mappings == created.state.mappings);
    }
}

/// Whether `end` is where the memory of a program break at `addr` ends: with the last page that holds
/// an address before it, and one page at least.
pub open spec fn is_break_end(end: int, addr: u64, brk: ProgramBreak, page_size: u64) -> bool {
    ends_the_page_of(
        end,
        if addr == brk.base {
            addr + 1
        } else {
            addr as int
        },
        page_size as int,
    )
}

/// Setting an existing program break. Out of its 64 MiB, it stays where it is. Otherwise its memory,
/// the range that holds the break, or ends with the page that it is behind of, has to end with the
/// page of the new break: as much is asked to be unmapped or mapped at its end as takes, and nothing
/// if it does already. It cannot be moved when that memory is not mapped.
pub proof fn law_break_memory_ends_with_its_page(
    manager: &mut MemoryManager,
    addr: UserAddress,
    r: BrkRequest,
)
    requires
        old(manager).wf(),
        old(manager).state.brk is Some,
        call_ensures(MemoryManager::set_brk, (manager, addr), r),
    ensures
        ({
            let brk = old(manager).state.brk->0;
            let page_size = old(manager).state.page_size;
            let held: int = if brk.current > brk.base && brk.current % page_size == 0 {
                brk.current - 1
            } else {
                brk.current as int
            };
            let memory = old(manager).state.mappings.at(held);
            let inside = brk.base <= addr <= brk.base + 0x400_0000;
            &&& final(manager).state.mappings == old(manager).state.mappings
            &&& final(manager).base_addr == old(manager).base_addr
            &&& final(manager).dumpable == old(manager).dumpable
            &&& final(manager).state.page_size == page_size
            &&& final(manager).state.brk is Some
            &&& final(manager).state.brk->0.base == brk.base
            &&& final(manager).state.brk->0.current == if r == BrkRequest::Done(Ok(addr)) {
                addr
            } else {
                brk.current
            }
            &&& !inside ==> r == BrkRequest::Done(Ok(brk.current))
            &&& inside && memory is None ==> r == BrkRequest::Done(Err(Errno::EFAULT))
            &&& inside && memory is Some ==> {
                let end = memory->0.end;
                match r {
                    BrkRequest::Shrink { addr: start, length, vmo, vmo_offset } => {
                        &&& is_break_end(start as int, addr, brk, page_size)
                        &&& start < end
                        &&& start + length == end
                        &&& vmo == memory->0.value.vmo
                        &&& vmo_offset == start - brk.base
                    },
                    BrkRequest::Grow { vmar_offset, vmo, vmo_offset, length, .. } => {
                        &&& is_break_end(end + length, addr, brk, page_size)
                        &&& length > 0
                        &&& vmar_offset == end - old(manager).base_addr
                        &&& vmo == memory->0.value.vmo
                        &&& vmo_offset == end - brk.base
                    },
                    BrkRequest::Done(result) => {
                        &&& is_break_end(end as int, addr, brk, page_size)
                        &&& result == Ok::<UserAddress, Errno>(addr)
                    },
                    BrkRequest::Create { .. } => false,
                }
            }
        }),
{
    let brk = old(manager).state.brk->0;
    let page_size = old(manager).state.page_size;
    lemma_page_end(
        if addr == brk.base {
            addr + 1
        } else {
            addr as int
        },
        page_size as int,
    );
    lemma_range_around(old(manager).state.mappings, old(manager).brk_last());
}

/// When memory of the program break has been unmapped, the break is at `addr`, and nothing is mapped
/// from the end of its page up to where its memory ended. What was mapped before or behind of that
/// stays. When the kernel has refused, nothing changes.
pub proof fn law_shrunk_break_frees_its_end(
    manager: &mut MemoryManager,
    addr: UserAddress,
    unmapped: Result<(), Status>,
    r: Result<UserAddress, Errno>,
    request: BrkRequest,
    p: int,
)
    requires
        old(manager).wf(),
        old(manager).state.brk is Some,
        request == old(manager).brk_request(addr),
        request matches BrkRequest::Shrink { addr: start, length, .. } && start + length + old(
            manager,
        ).state.page_size <= u64::MAX,
        call_ensures(MemoryManager::break_shrunk, (manager, addr, unmapped), r),
    ensures
        unmapped == Err::<(), Status>(Status::InvalidArgs) ==> r == Err::<UserAddress, Errno>(
            Errno::EINVAL,
        ) && *final(manager) == *old(manager),
        unmapped is Ok || unmapped == Err::<(), Status>(Status::NotFound) ==> {
            let brk = old(manager).state.brk->0;
            let page_size = old(manager).state.page_size;
            let start = request->Shrink_addr;
            let end = start + request->Shrink_length;
            &&& r == Ok::<UserAddress, Errno>(addr)
            &&& final(manager).state.brk == Some(ProgramBreak { base: brk.base, current: addr })
            &&& final(manager).base_addr == old(manager).base_addr
            &&& final(manager).dumpable == old(manager).dumpable
            &&& final(manager).state.page_size == page_size
            &&& is_break_end(start as int, addr, brk, page_size)
            &&& start <= p < end ==> final(manager).state.mappings.at(p) is None
            &&& p < start || p >= end + page_size ==> keeps_value(*old(manager), *final(manager), p)
        },
{
    let brk = old(manager).state.brk->0;
    let page_size = old(manager).state.page_size;
    lemma_page_end(
        if addr == brk.base {
            addr + 1
        } else {
            addr as int
        },
        page_size as int,
    );
    lemma_range_around(old(manager).state.mappings, old(manager).brk_last());
    let end = old(manager).state.mappings.at(old(manager).brk_last())->0.end;
    lemma_page_end(end as int, page_size as int);
    lemma_trimmed_is_left(
        old(manager).state.mappings,
        old(manager).brk_end(addr),
        crate::starnix::memory_manager::page_end(end as int, page_size as int) as u64,
        p,
    );
}

/// When more memory has been mapped for the program break, the break is at `addr`, and its memory is
/// one range, from the base up to the end of its page, with the permissions and the object that it
/// had. When the kernel has refused, the break stays, and its memory ends where it did. What is
/// mapped elsewhere stays in any case.
pub proof fn law_grown_break_is_one_range(
    manager: &mut MemoryManager,
    addr: UserAddress,
    mapped: Result<(), Status>,
    r: Result<UserAddress, Errno>,
    request: BrkRequest,
    p: int,
)
    requires
        old(manager).wf(),
        old(manager).state.brk is Some,
        request == old(manager).brk_request(addr),
        request is Grow,
        call_ensures(MemoryManager::break_grown, (manager, addr, mapped), r),
    ensures
        ({
            let brk = old(manager).state.brk->0;
            let page_size = old(manager).state.page_size;
            let memory = old(manager).state.mappings.at(old(manager).brk_last())->0;
            let end: int = if mapped is Ok {
                memory.end + request->Grow_length
            } else {
                memory.end as int
            };
            &&& final(manager).base_addr == old(manager).base_addr
            &&& final(manager).dumpable == old(manager).dumpable
            &&& final(manager).state.page_size == page_size
            &&& mapped is Ok ==> {
                &&& r == Ok::<UserAddress, Errno>(addr)
                &&& final(manager).state.brk == Some(
                    ProgramBreak { base: brk.base, current: addr },
                )
                &&& is_break_end(end, addr, brk, page_size)
            }
            &&& mapped matches Err(status) ==> {
                &&& final(manager).state.brk == Some(brk)
                &&& status is InvalidArgs ==> r == Err::<UserAddress, Errno>(Errno::EINVAL)
                &&& status is AccessDenied ==> r == Err::<UserAddress, Errno>(Errno::EACCES)
                &&& status is NotSupported ==> r == Err::<UserAddress, Errno>(Errno::ENODEV)
                &&& status is NoMemory ==> r == Err::<UserAddress, Errno>(Errno::ENOMEM)
            }
            &&& brk.base <= p < end ==> {
                &&& final(manager).state.mappings.at(p) is Some
                &&& final(manager).state.mappings.at(p)->0.start == brk.base
                &&& final(manager).state.mappings.at(p)->0.end == end
                &&& final(manager).state.mappings.at(p)->0.value == memory.value
            }
            &&& !(brk.base <= p < end) && !(memory.start <= p < memory.end) ==> keeps_value(*old(manager), *final(manager), p)
        }),
{
    let brk = old(manager).state.brk->0;
    let page_size = old(manager).state.page_size;
    lemma_page_end(
        if addr == brk.base {
            addr + 1
        } else {
            addr as int
        },
        page_size as int,
    );
    lemma_range_around(old(manager).state.mappings, old(manager).brk_last());
    lemma_range_around(old(manager).state.mappings, p);
}

/// A new address space has nothing mapped, no program break, and cannot be dumped.
pub proof fn law_new_address_spaces_are_empty(
    base_addr: UserAddress,
    page_size: u64,
    r: MemoryManager,
    p: int,
)
    requires
        call_ensures(MemoryManager::new, (base_addr, page_size), r),
    ensures
        r.base_addr == base_addr,
        r.state.page_size == page_size,
        r.state.brk is None,
        r.state.mappings.at(p) is None,
        r.dumpable is DISABLE,
{
}

/// Another program finds an address space in which nothing is mapped, without a program break, that
/// cannot be dumped. When it could not be made, nothing changes.
pub proof fn law_another_program_finds_nothing(
    manager: &mut MemoryManager,
    recreated: Result<(), Status>,
    r: Result<(), Status>,
    p: int,
)
    requires
        call_ensures(MemoryManager::exec, (manager, recreated), r),
    ensures
        r == recreated,
        recreated is Err ==> *final(manager) == *old(manager),
        recreated is Ok ==> {
            &&& final(manager).state.brk is None
            &&& final(manager).state.mappings.at(p) is None
            &&& final(manager).dumpable is DISABLE
            &&& final(manager).base_addr == old(manager).base_addr
            &&& final(manager).state.page_size == old(manager).state.page_size
        },
{
}

/// A mapping that has been given a name has it, at each of its addresses, and nothing else of it
/// changes, nor does any other mapping. It is an error if nothing is mapped, or if what is to be named
/// reaches beyond the mapping; then nothing changes.
pub proof fn law_named_mappings_have_the_name(
    manager: &mut MemoryManager,
    addr: UserAddress,
    length: u64,
    name: Vec<u8>,
    r: Result<(), Errno>,
    p: int,
)
    requires
        old(manager).wf(),
        call_ensures(MemoryManager::set_mapping_name, (manager, addr, length, name), r),
    ensures
        only_mappings_differ(*old(manager), *final(manager)),
        ({
            let given = old(manager).state.mappings.at(addr as int);
            let before = old(manager).state.mappings.at(p);
            let after = final(manager).state.mappings.at(p);
            &&& r is Ok <==> given is Some && addr + length <= given->0.end
            &&& r is Err ==> r->Err_0 is EINVAL && *final(manager) == *old(manager)
            &&& r is Ok && given->0.start <= p < given->0.end ==> {
                &&& after is Some
                &&& after->0.start == given->0.start
                &&& after->0.end == given->0.end
                &&& after->0.value.name@ == name@
                &&& after->0.value.base == given->0.value.base
                &&& after->0.value.vmo == given->0.value.vmo
                &&& after->0.value.vmo_offset == given->0.value.vmo_offset
                &&& after->0.value.permissions == given->0.value.permissions
            }
            &&& r is Ok && !(given->0.start <= p < given->0.end) ==> after == before
            &&& final(manager).state.mappings.entries().len() == old(
                manager,
            ).state.mappings.entries().len()
        }),
{
    let map = old(manager).state.mappings;
    lemma_range_around(map, addr as int);
    lemma_range_around(map, p);
    if map.at(addr as int) is Some {
        let given = map.at(addr as int)->0;
        let i = choose|i: int|
            0 <= i < map.entries().len() && (#[trigger] map.entries()[i]).covers(addr as int);
        crate::starnix::range_map::lemma_lookup(map.entries(), i, addr as int);
        if given.start <= p < given.end {
            crate::starnix::range_map::lemma_lookup(map.entries(), i, p);
        }
        if map.at(p) is Some && map.at(p)->0.covers(addr as int) {
            let j = choose|j: int|
                0 <= j < map.entries().len() && (#[trigger] map.entries()[j]).covers(p);
            crate::starnix::range_map::lemma_lookup(map.entries(), j, p);
            crate::starnix::range_map::lemma_lookup(map.entries(), j, addr as int);
        }
    }
}

/// The name of a mapping is that of the range that an address is in. There is none where nothing is
/// mapped.
pub proof fn law_names_are_found(
    manager: MemoryManager,
    addr: UserAddress,
    r: Result<&Vec<u8>, Errno>,
)
    requires
        call_ensures(MemoryManager::get_mapping_name, (&manager, addr), r),
    ensures
        r is Ok <==> manager.state.mappings.at(addr as int) is Some,
        r is Ok ==> r->Ok_0@ == manager.state.mappings.at(addr as int)->0.value.name@,
        r is Err ==> r->Err_0 is EFAULT,
{
}

/// A snapshot makes each mapping again at its own place, with its length and its permissions, from
/// the offset of its memory object that it starts at. Of each memory object that no pager backs, one
/// snapshot is taken, of its whole size, for the first of its mappings; what a pager backs is shared.
/// The first mapping decides for the others.
pub proof fn law_snapshots_make_each_mapping_again(
    manager: MemoryManager,
    target_base: UserAddress,
    infos: Vec<VmoInfo>,
    r: Vec<SnapshotOp>,
    i: int,
)
    requires
        manager.wf(),
        manager.can_snapshot_to(target_base),
        infos@.len() == manager.state.mappings.entries().len(),
        0 <= i < infos@.len(),
        call_ensures(MemoryManager::snapshot_to, (&manager, target_base, &infos), r),
    ensures
        r@.len() == infos@.len(),
        ({
            let entries = manager.state.mappings.entries();
            let entry = entries[i];
            let op = r@[i];
            &&& op.vmo == entry.value.vmo
            &&& target_base + op.vmar_offset == entry.start
            &&& op.length == entry.end - entry.start
            &&& op.vmo_offset == entry.value.vmo_offset + (entry.start - entry.value.base)
            &&& op.flags.permissions == entry.value.permissions
            &&& op.flags.specific
            &&& !op.flags.require_non_resizable
            &&& (forall|j: int| 0 <= j < i ==> (#[trigger] entries[j]).value.vmo != entry.value.vmo)
                ==> {
                &&& op.share == infos@[i].pager_backed
                &&& op.create_child == if infos@[i].pager_backed {
                    None
                } else {
                    Some(infos@[i].size_bytes)
                }
            }
            &&& forall|j: int|
                0 <= j < i && (#[trigger] entries[j]).value.vmo == entry.value.vmo
                    ==> op.create_child is None && op.share == r@[j].share
        }),
{
    let entries = manager.state.mappings.entries();
    lemma_first_with(entries, entries[i].value.vmo, 0, i);
    assert(r@[i] == crate::starnix::memory_manager::snapshot_op(entries, infos@, target_base, i));
    assert forall|j: int|
        0 <= j < i && (#[trigger] entries[j]).value.vmo == entries[i].value.vmo implies
        r@[i].create_child is None && r@[i].share == r@[j].share by {
        assert(r@[j] == crate::starnix::memory_manager::snapshot_op(
            entries,
            infos@,
            target_base,
            j,
        ));
        lemma_first_with(entries, entries[j].value.vmo, 0, j);
        let first = crate::starnix::memory_manager::first_use(entries, i);
        let other = crate::starnix::memory_manager::first_use(entries, j);
        if first < other {
            assert(entries[first].value.vmo != entries[j].value.vmo);
        }
        if other < first {
            assert(entries[other].value.vmo != entries[i].value.vmo);
        }
    }
}

proof fn lemma_first_with(entries: Seq<Entry<Mapping>>, vmo: Koid, from: int, i: int)
    requires
        0 <= from <= i < entries.len(),
        entries[i].value.vmo == vmo,
    ensures
        ({
            let first = crate::starnix::memory_manager::first_with(entries, vmo, from, i);
            &&& from <= first <= i
            &&& entries[first].value.vmo == vmo
            &&& forall|j: int| from <= j < first ==> (#[trigger] entries[j]).value.vmo != vmo
        }),
    decreases i - from,
{
    if from < i && entries[from].value.vmo != vmo {
        lemma_first_with(entries, vmo, from + 1, i);
    }
}

/// One mapping of a snapshot is made as it was asked for. Without a memory object there is none, nor
/// if the kernel has refused; then nothing changes.
pub proof fn law_snapshot_mappings_are_recorded(
    manager: &mut MemoryManager,
    op: SnapshotOp,
    vmo: Result<Koid, Status>,
    mapped: Result<UserAddress, Status>,
    r: Result<(), Errno>,
    p: int,
)
    requires
        old(manager).wf(),
        mapped matches Ok(addr) ==> addr + op.length + old(manager).state.page_size <= u64::MAX,
        call_ensures(MemoryManager::snapshot_mapped, (manager, &op, vmo, mapped), r),
    ensures
        only_mappings_differ(*old(manager), *final(manager)),
        r is Ok <==> vmo is Ok && mapped is Ok,
        r is Err ==> *final(manager) == *old(manager),
        vmo is Err ==> r == Err::<(), Errno>(Errno::ENOMEM),
        vmo is Ok && mapped is Err ==> {
            &&& mapped->Err_0 is InvalidArgs ==> r == Err::<(), Errno>(Errno::EINVAL)
            &&& mapped->Err_0 is AccessDenied ==> r == Err::<(), Errno>(Errno::EACCES)
            &&& mapped->Err_0 is NotSupported ==> r == Err::<(), Errno>(Errno::ENODEV)
            &&& mapped->Err_0 is NoMemory ==> r == Err::<(), Errno>(Errno::ENOMEM)
        },
        r is Ok ==> {
            let addr = mapped->Ok_0;
            &&& addr <= p < addr + op.length ==> backs(
                final(manager).state.mappings.at(p),
                p,
                vmo->Ok_0,
                op.vmo_offset + (p - addr),
                op.flags.permissions,
            )
            &&& p < addr || p >= addr + op.length + old(manager).state.page_size ==> keeps_value(*old(manager), *final(manager), p)
        },
{
    if vmo is Ok && mapped is Ok {
        let addr = mapped->Ok_0;
        lemma_page_end(addr + op.length, old(manager).state.page_size as int);
        lemma_trimmed_is_left(
            old(manager).state.mappings,
            addr,
            old(manager).state.end_of(addr, op.length),
            p,
        );
    }
}

/// A snapshot has the program break and the dump policy of what it was taken of, and keeps what has
/// been mapped in it.
pub proof fn law_snapshots_are_finished(given: MemoryManager, target: &mut MemoryManager)
    requires
        call_ensures(MemoryManager::finish_snapshot, (&given, target), ()),
    ensures
        final(target).state.brk == given.state.brk,
        final(target).dumpable == given.dumpable,
        final(target).base_addr == old(target).base_addr,
        final(target).state.page_size == old(target).state.page_size,
        final(target).state.mappings == old(target).state.mappings,
{
}

/// Memory has been read or written if and only if all of it has.
pub proof fn law_transfers_are_whole(
    actual: Result<usize, Status>,
    bytes: &[u8],
    read: Result<(), Errno>,
    written: Result<(), Errno>,
)
    requires
        call_ensures(MemoryManager::read_memory, (actual, bytes), read),
        call_ensures(MemoryManager::write_memory, (actual, bytes), written),
    ensures
        read is Ok <==> actual is Ok && actual->Ok_0 == bytes@.len(),
        written is Ok <==> actual is Ok && actual->Ok_0 == bytes@.len(),
        read is Err ==> read->Err_0 is EFAULT,
        written is Err ==> written->Err_0 is EFAULT,
{
}

/// A string ends before the first zero byte that has been read. Without one it is too long, and when
/// nothing could be read, there is none.
pub proof fn law_strings_end_at_the_first_zero(
    actual: Result<usize, Status>,
    buffer: &[u8],
    r: Result<&[u8], Errno>,
    i: int,
)
    requires
        actual matches Ok(count) ==> count <= buffer@.len(),
        call_ensures(MemoryManager::read_c_string, (actual, buffer), r),
    ensures
        actual is Err ==> r is Err && r->Err_0 is EFAULT,
        actual is Ok && r is Err ==> {
            &&& r->Err_0 is ENAMETOOLONG
            &&& 0 <= i < actual->Ok_0 ==> buffer@[i] != 0
        },
        r is Ok ==> {
            &&& actual is Ok
            &&& r->Ok_0@.len() < actual->Ok_0
            &&& buffer@[r->Ok_0@.len() as int] == 0
            &&& 0 <= i < r->Ok_0@.len() ==> r->Ok_0@[i] == buffer@[i] && buffer@[i] != 0
        },
{
    if let Ok(count) = actual {
        if r is Err && 0 <= i < count {
            assert(buffer@.take(count as int)[i] == buffer@[i]);
        }
        if r is Ok && 0 <= i < r->Ok_0@.len() {
            assert(r->Ok_0@[i] == buffer@.take(r->Ok_0@.len() as int)[i]);
            assert(r->Ok_0@.contains(r->Ok_0@[i]));
        }
    }
}

/// Memory that is wanted at an address is mapped that far from the start of the address space, and
/// anywhere without an address.
pub proof fn law_offsets_lead_to_the_address(manager: MemoryManager, addr: UserAddress, r: u64)
    requires
        call_ensures(MemoryManager::vmar_offset, (&manager, addr), r),
    ensures
        addr == 0 ==> r == 0,
        addr != 0 ==> manager.base_addr + r == addr,
{
}

} // verus!
