//! Calls into the crates that speak to the operating system.

use core::ops::Range;

use vstd::prelude::*;

verus! {

/// A region of virtual memory that is allocated as long as the handle lives. What it spans is
/// handed out by [`alloc_at`].
#[verifier::external_type_specification]
#[verifier::external_body]
pub struct ExAllocation(region::Allocation);

/// Calls `region::page::size`, the page size of the operating system. Nothing is claimed of it.
#[verifier::external_body]
pub(crate) fn page_size() -> (r: usize) {
    region::page::size()
}

/// Reads `std::path::MAIN_SEPARATOR`, the character that separates the components of a path on
/// the current platform: a backslash on Windows. Nothing is claimed of it.
#[verifier::external_body]
pub(crate) fn main_separator() -> (r: char) {
    std::path::MAIN_SEPARATOR
}

/// Calls `region::query_range`, which asks the operating system for the used regions that
/// overlap `size` bytes at `addr`, and yields the base address, the size and the protection
/// flags of each, or the error that was met instead. Which regions are used depends on the
/// process; all that is claimed is that no flags but those for reading, writing and executing
/// are reported, and that it is an error to ask for no bytes at all.
#[verifier::external_body]
pub(crate) fn query_range(addr: usize, size: usize) -> (r: Result<
    Vec<Result<(usize, usize, usize), String>>,
    String,
>)
    ensures
        size == 0 ==> r is Err,
        r matches Ok(regions) ==> forall|i: int|
            #![trigger regions@[i]]
            0 <= i < regions@.len() ==> (regions@[i] matches Ok(region) ==> region.2 <= 7),
{
    let regions = region::query_range(core::ptr::without_provenance::<u8>(addr), size).map_err(
        |error| error.to_string(),
    )?;
    Ok(
        regions.map(
            |region|
                region.map(|r| (r.as_ptr::<u8>().addr(), r.len(), r.protection().bits())).map_err(
                    |error| error.to_string(),
                ),
        ).collect(),
    )
}

/// Calls `region::alloc_at`, which asks the operating system for `size` bytes of memory at
/// `base` with the protection flags `prot`, those for reading, writing and executing, and
/// `region::Allocation::as_range`, the addresses that were allocated. `None` stands for an error.
/// The outcome depends on the operating system, which may allocate at other addresses; all that
/// is claimed is that it is an error to ask for no bytes at all. Memory that can be written and
/// neither read nor executed must not be asked for: Windows has none.
#[verifier::external_body]
pub(crate) fn alloc_at(base: usize, size: usize, prot: usize) -> (r: Option<
    (Range<usize>, region::Allocation),
>)
    requires
        prot <= 7,
        prot != 2,
    ensures
        size == 0 ==> r is None,
{
    region::alloc_at(
        core::ptr::without_provenance::<u8>(base),
        size,
        region::Protection::from_bits_truncate(prot),
    ).ok().map(|allocation| (allocation.as_range(), allocation))
}

/// The flags by which Windows tells how a memory page may be accessed.
pub struct PageFlags {
    pub execute: u32,
    pub execute_read: u32,
    pub execute_readwrite: u32,
    pub execute_writecopy: u32,
    pub noaccess: u32,
    pub readonly: u32,
    pub readwrite: u32,
    pub writecopy: u32,
}

/// Reads the constants `PAGE_*` of `windows_sys::Win32::System::Memory`, which have the values
/// that Windows documents.
#[verifier::external_body]
pub(crate) fn page_flags() -> (r: PageFlags)
    ensures
        r == (PageFlags {
            execute: 0x10,
            execute_read: 0x20,
            execute_readwrite: 0x40,
            execute_writecopy: 0x80,
            noaccess: 0x01,
            readonly: 0x02,
            readwrite: 0x04,
            writecopy: 0x08,
        }),
{
    PageFlags {
        execute: windows_sys::Win32::System::Memory::PAGE_EXECUTE,
        execute_read: windows_sys::Win32::System::Memory::PAGE_EXECUTE_READ,
        execute_readwrite: windows_sys::Win32::System::Memory::PAGE_EXECUTE_READWRITE,
        execute_writecopy: windows_sys::Win32::System::Memory::PAGE_EXECUTE_WRITECOPY,
        noaccess: windows_sys::Win32::System::Memory::PAGE_NOACCESS,
        readonly: windows_sys::Win32::System::Memory::PAGE_READONLY,
        readwrite: windows_sys::Win32::System::Memory::PAGE_READWRITE,
        writecopy: windows_sys::Win32::System::Memory::PAGE_WRITECOPY,
    }
}

} // verus!
