//! Protection of memory pages.

use vstd::arithmetic::power2;
use vstd::prelude::*;

use super::native;
use super::OsErr;
use crate::arith;

verus! {

/// Access that is allowed to a memory page.
#[allow(non_camel_case_types)]
#[derive(Debug, Clone, Copy, PartialEq, Eq, Structural)]
pub enum Protection {
    /// No access allowed at all.
    NONE,
    /// Read access; writing and/or executing data will panic.
    READ,
    /// Write access; this flag alone may not be supported on all OSs.
    WRITE,
    /// Execute access; this may not be allowed depending on DEP.
    EXECUTE,
    /// Read and execute shorthand.
    READ_EXECUTE,
    /// Read and write shorthand.
    READ_WRITE,
    /// Read, write and execute shorthand.
    READ_WRITE_EXECUTE,
    /// Write and execute shorthand.
    WRITE_EXECUTE,
}

impl Default for Protection {
    fn default() -> (r: Self)
        ensures
            r == Protection::NONE,
    {
        Protection::NONE
    }
}

impl Protection {
    pub open spec fn reads(self) -> bool {
        ||| self == Protection::READ
        ||| self == Protection::READ_EXECUTE
        ||| self == Protection::READ_WRITE
        ||| self == Protection::READ_WRITE_EXECUTE
    }

    pub open spec fn writes(self) -> bool {
        ||| self == Protection::WRITE
        ||| self == Protection::READ_WRITE
        ||| self == Protection::READ_WRITE_EXECUTE
        ||| self == Protection::WRITE_EXECUTE
    }

    pub open spec fn executes(self) -> bool {
        ||| self == Protection::EXECUTE
        ||| self == Protection::READ_EXECUTE
        ||| self == Protection::READ_WRITE_EXECUTE
        ||| self == Protection::WRITE_EXECUTE
    }

    /// One bit for each kind of access.
    pub open spec fn spec_bits(self) -> usize {
        let r = if self.reads() {
            1int
        } else {
            0
        };
        let w = if self.writes() {
            2int
        } else {
            0
        };
        let x = if self.executes() {
            4int
        } else {
            0
        };
        (r + w + x) as usize
    }

    /// One bit for each kind of access: 1 to read, 2 to write, 4 to execute.
    pub fn bits(&self) -> (r: usize)
        ensures
            r == self.spec_bits(),
            r == match *self {
                Protection::NONE => 0,
                Protection::READ => 1,
                Protection::WRITE => 2,
                Protection::READ_WRITE => 3,
                Protection::EXECUTE => 4,
                Protection::READ_EXECUTE => 5,
                Protection::WRITE_EXECUTE => 6,
                Protection::READ_WRITE_EXECUTE => 7int,
            },
    {
        match self {
            Protection::NONE => 0,
            Protection::READ => 1,
            Protection::WRITE => 2,
            Protection::EXECUTE => 4,
            Protection::READ_EXECUTE => 5,
            Protection::READ_WRITE => 3,
            Protection::READ_WRITE_EXECUTE => 7,
            Protection::WRITE_EXECUTE => 6,
        }
    }

    /// The access that the bits stand for, if there is no other bit among them.
    pub fn from_bits(bits: usize) -> (r: Option<Protection>)
        ensures
            r is Some <==> bits <= 7,
            r matches Some(prot) ==> prot.spec_bits() == bits,
            bits == 0 ==> r == Some(Protection::NONE),
            bits == 1 ==> r == Some(Protection::READ),
            bits == 2 ==> r == Some(Protection::WRITE),
            bits == 3 ==> r == Some(Protection::READ_WRITE),
            bits == 4 ==> r == Some(Protection::EXECUTE),
            bits == 5 ==> r == Some(Protection::READ_EXECUTE),
            bits == 6 ==> r == Some(Protection::WRITE_EXECUTE),
            bits == 7 ==> r == Some(Protection::READ_WRITE_EXECUTE),
    {
        match bits {
            0 => Some(Protection::NONE),
            1 => Some(Protection::READ),
            2 => Some(Protection::WRITE),
            3 => Some(Protection::READ_WRITE),
            4 => Some(Protection::EXECUTE),
            5 => Some(Protection::READ_EXECUTE),
            6 => Some(Protection::WRITE_EXECUTE),
            7 => Some(Protection::READ_WRITE_EXECUTE),
            _ => None,
        }
    }
}

/// Protections with the same bits allow the same access.
pub proof fn law_bits_determine_protection(a: Protection, b: Protection)
    ensures
        a.spec_bits() == b.spec_bits() ==> a == b,
{
}

/// Memory pages with the same protection.
#[derive(Debug, Clone, Copy, PartialEq, Eq, Structural)]
pub struct MemoryRegion {
    pub base: usize,
    pub size: usize,
    pub prot: Protection,
}

/// The protection of memory pages as it was before it was changed.
#[must_use]
pub struct MemProtectGuard {
    regions: Vec<MemoryRegion>,
}

impl View for MemProtectGuard {
    type V = Seq<MemoryRegion>;

    closed spec fn view(&self) -> Seq<MemoryRegion> {
        self.regions@
    }
}

/// Whether setting the protection of the regions, in order and without an error, may take the
/// system from `before` to `after`.
pub open spec fn protects<M: MemFunctions>(
    before: M,
    regions: Seq<MemoryRegion>,
    after: M,
) -> bool
    decreases regions.len(),
{
    if regions.len() == 0 {
        after == before
    } else {
        let last = regions.last();
        exists|mid: M|
            protects(before, regions.drop_last(), mid) && #[trigger] mid.may_protect(
                last.base,
                last.size,
                last.prot,
                after,
                Ok(()),
            )
    }
}

/// The outcome of setting the protection of the regions, in order, up to the first error. What
/// comes after the error is left alone.
pub open spec fn reverted<M: MemFunctions>(
    before: M,
    regions: Seq<MemoryRegion>,
    after: M,
    r: Result<(), OsErr>,
) -> bool {
    match r {
        Ok(()) => protects(before, regions, after),
        Err(e) => exists|n: int, mid: M|
            {
                &&& 0 <= n < regions.len()
                &&& #[trigger] protects(before, regions.take(n), mid)
                &&& mid.may_protect(
                    regions[n].base,
                    regions[n].size,
                    regions[n].prot,
                    after,
                    Err(e),
                )
            },
    }
}

impl MemProtectGuard {
    pub fn new(regions: Vec<MemoryRegion>) -> (r: Self)
        ensures
            r@ == regions@,
    {
        MemProtectGuard { regions }
    }

    pub fn regions(&self) -> (r: &Vec<MemoryRegion>)
        ensures
            r@ == self@,
    {
        &self.regions
    }

    /// Set the protection of the regions, in order, up to the first error.
    pub fn revert<M: MemFunctions>(self, os: &mut M) -> (r: Result<(), OsErr>)
        ensures
            reverted(*old(os), self@, *final(os), r),
    {
        let ghost before = *os;
        let mut i: usize = 0;
        assert(self@.take(0) =~= Seq::empty());
        while i < self.regions.len()
            invariant
                i <= self.regions@.len(),
                before == *old(os),
                protects(before, self@.take(i as int), *os),
            decreases self.regions@.len() - i,
        {
            let region = self.regions[i];
            let ghost mid = *os;
            let outcome = os.mem_protect(region.base, region.size, region.prot);
            match outcome {
                Ok(()) => {
                    assert(outcome->Ok_0 == ());
                    assert(mid.may_protect(
                        region.base,
                        region.size,
                        region.prot,
                        *os,
                        Ok(()),
                    ));
                    let ghost done = self@.take(i + 1);
                    assert(done.drop_last() =~= self@.take(i as int));
                    assert(done.last() == region);
                    assert(protects(before, done.drop_last(), mid));
                    assert(protects(before, done, *os));
                },
                Err(e) => {
                    assert(protects(before, self@.take(i as int), mid));
                    return Err(e);
                },
            }
            i = i + 1;
        }
        assert(self@.take(i as int) =~= self@);
        Ok(())
    }
}

/// The end of the last page that `size` bytes at `addr` touch, or the start of the last page
/// of the address space.
pub open spec fn page_end(addr: usize, size: usize, page_size: usize) -> int {
    let end = arith::align_up(addr + size, page_size as int);
    if end <= usize::MAX {
        end
    } else {
        usize::MAX - page_size + 1
    }
}

/// The regions, the last of which ends at `end` if it starts before it.
pub open spec fn trimmed(regions: Seq<MemoryRegion>, end: int) -> Seq<MemoryRegion> {
    if regions.len() > 0 && regions.last().base < end {
        let last = regions.last();
        regions.update(
            regions.len() - 1,
            MemoryRegion { size: (end - last.base) as usize, ..last },
        )
    } else {
        regions
    }
}

/// Let the last region end at `end` if it starts before it.
pub fn trim_last(regions: &mut Vec<MemoryRegion>, end: usize)
    ensures
        final(regions)@ == trimmed(old(regions)@, end as int),
        final(regions)@.len() == old(regions)@.len(),
        forall|i: int|
            0 <= i < old(regions)@.len() ==> {
                &&& (#[trigger] final(regions)@[i]).base == old(regions)@[i].base
                &&& final(regions)@[i].prot == old(regions)@[i].prot
                &&& final(regions)@[i].size == if i == old(regions)@.len() - 1
                    && old(regions)@[i].base < end {
                    end - old(regions)@[i].base
                } else {
                    old(regions)@[i].size as int
                }
            },
{
    let n: usize = regions.len();
    if n > 0 {
        let last = regions[n - 1];
        if last.base < end {
            regions.set(n - 1, MemoryRegion { size: end - last.base, ..last });
        }
    }
}

/// The end of the last page that `size` bytes at `addr` touch, or the start of the last page
/// of the address space.
pub fn end_of_pages(addr: usize, size: usize, page_size: usize) -> (r: usize)
    requires
        addr + size <= usize::MAX,
        power2::is_pow2(page_size as int),
    ensures
        r == page_end(addr, size, page_size),
        r as int % page_size as int == 0,
        addr + size <= usize::MAX - page_size + 1 ==> addr + size <= r < addr + size + page_size,
        addr + size > usize::MAX - page_size + 1 ==> r == usize::MAX - page_size + 1,
{
    proof {
        arith::lemma_pow2_positive(page_size as int);
        lemma_page_end_is_least(addr, size, page_size);
    }
    match arith::checked_next_multiple_of(addr + size, page_size) {
        Some(end) => end,
        None => usize::MAX - page_size + 1,
    }
}

/// The end of the last page that is touched is a multiple of the page size, and the first such
/// multiple at or above the end of the bytes unless that is no address.
proof fn lemma_page_end_is_least(addr: usize, size: usize, page_size: usize)
    requires
        addr + size <= usize::MAX,
        power2::is_pow2(page_size as int),
    ensures
        page_end(addr, size, page_size) % page_size as int == 0,
        addr + size <= usize::MAX - page_size + 1 ==> addr + size <= page_end(
            addr,
            size,
            page_size,
        ) < addr + size + page_size,
        addr + size > usize::MAX - page_size + 1 ==> page_end(addr, size, page_size)
            == usize::MAX - page_size + 1,
{
    let m = page_size as int;
    let top = usize::MAX - m + 1;
    arith::lemma_pow2_positive(m);
    arith::lemma_align_up(addr + size, m);
    arith::lemma_pow2_divides_address_space(m);
    assert(top % m == 0) by (nonlinear_arith)
        requires
            (top + m) % m == 0,
            0 < m,
    {
        let q = (top + m) / m;
        assert(top + m == m * q);
        assert(top == m * (q - 1));
        assert((m * (q - 1)) % m == 0);
    }
    let end = arith::align_up(addr + size, m);
    if addr + size <= top {
        assert(end <= top);
    } else if end <= usize::MAX {
        assert(false) by (nonlinear_arith)
            requires
                top < end < top + m,
                end % m == 0,
                top % m == 0,
                0 < m,
        {
            assert(end == m * (end / m));
            assert(top == m * (top / m));
            assert(top / m < end / m);
            assert(m * (top / m) + m <= m * (end / m));
        }
    }
}

/// One step of setting up a guard: what is asked of the operating system next. What the guard
/// keeps is known before the protection is changed.
pub enum GuardOp {
    /// Query the regions whose protection is to be changed.
    Query,
    /// Change the protection of one page, which tells the protection that it had.
    ProtectPage,
    /// Change the protection, now that it is known what to keep.
    Protect { kept: Vec<MemoryRegion> },
    /// The guard is set up, or cannot be.
    Done(Result<MemProtectGuard, OsErr>),
}

impl GuardOp {
    /// The first step, given whether one page at most is touched and the change of its
    /// protection tells the protection that it had.
    pub fn begin(one_page: bool) -> (r: GuardOp)
        ensures
            r == (if one_page {
                GuardOp::ProtectPage
            } else {
                GuardOp::Query
            }),
    {
        if one_page {
            GuardOp::ProtectPage
        } else {
            GuardOp::Query
        }
    }

    /// The step that follows the query: the regions are kept, up to `end`, and the protection
    /// is changed, or there is no guard and nothing is changed.
    pub fn queried(answer: Result<Vec<MemoryRegion>, OsErr>, end: usize) -> (r: GuardOp)
        ensures
            match answer {
                Ok(regions) => r matches GuardOp::Protect { kept } && kept@ == trimmed(
                    regions@,
                    end as int,
                ),
                Err(e) => r == GuardOp::Done(Err(e)),
            },
    {
        match answer {
            Ok(regions) => {
                let mut kept = regions;
                trim_last(&mut kept, end);
                GuardOp::Protect { kept }
            },
            Err(e) => GuardOp::Done(Err(e)),
        }
    }

    /// The guard, given the outcome of the change of the protection.
    pub fn protected(kept: Vec<MemoryRegion>, outcome: Result<(), OsErr>) -> (r: Result<
        MemProtectGuard,
        OsErr,
    >)
        ensures
            match outcome {
                Ok(()) => r matches Ok(guard) && guard@ == kept@,
                Err(e) => r == Err::<MemProtectGuard, OsErr>(e),
            },
    {
        match outcome {
            Ok(()) => Ok(MemProtectGuard::new(kept)),
            Err(e) => Err(e),
        }
    }

    /// The guard, given the protection that the page had, or the error that its change met.
    pub fn page_protected(start: usize, page_size: usize, outcome: Result<Protection, OsErr>) -> (r:
        Result<MemProtectGuard, OsErr>)
        ensures
            match outcome {
                Ok(prot) => r matches Ok(guard) && guard@ == seq![
                    MemoryRegion { base: start, size: page_size, prot },
                ],
                Err(e) => r == Err::<MemProtectGuard, OsErr>(e),
            },
    {
        match outcome {
            Ok(prot) => {
                let mut kept: Vec<MemoryRegion> = Vec::new();
                kept.push(MemoryRegion { base: start, size: page_size, prot });
                Ok(MemProtectGuard::new(kept))
            },
            Err(e) => Err(e),
        }
    }
}

/// Trait used to provide an implementation of OS virtual memory management functions
/// required by the crate.
///
/// To change the protection of memory is to change the system: what a query answers depends on
/// when it is made. That is why the functions that change it borrow the system mutably.
pub trait MemFunctions: Sized {
    /// Get the size of a memory page on the system (usually 4096 bytes).
    fn page_size(&self) -> (r: usize)
        ensures
            power2::is_pow2(r as int),
    ;

    /// Whether changing the protection of the pages that `size` bytes at `addr` touch may take
    /// the system from `self` to `after`, with the outcome `r`. An implementation tells by this
    /// what its changes do; one that does not tell may do anything.
    open spec fn may_protect(
        self,
        addr: usize,
        size: usize,
        prot: Protection,
        after: Self,
        r: Result<(), OsErr>,
    ) -> bool {
        true
    }

    /// Whether an implementation of [`mem_protect_guard`](MemFunctions::mem_protect_guard) other
    /// than the default one may take the system from `self` to `after`, with the outcome `r`. An
    /// implementation tells by this what it does; one that does not tell may do anything.
    open spec fn may_guard(
        self,
        addr: usize,
        size: usize,
        prot: Protection,
        after: Self,
        r: Result<MemProtectGuard, OsErr>,
    ) -> bool {
        true
    }

    /// Queries committed regions of memory pages with contiguous protection flags that
    /// intersect the given range.
    fn mem_query(&self, addr: usize, size: usize) -> Result<Vec<MemoryRegion>, OsErr>;

    /// Changes the protection flags of a contiguous region of committed memory pages
    /// that intersect the given range.
    fn mem_protect(&mut self, addr: usize, size: usize, prot: Protection) -> (r: Result<
        (),
        OsErr,
    >)
        ensures
            old(self).may_protect(addr, size, prot, *final(self), r),
    ;

    /// Changes the protection flags of a contiguous region of committed memory pages
    /// that intersect the given range, returning a [`MemProtectGuard`] struct to help
    /// restoring the memory protection of the range later.
    ///
    /// The default implementation of this method uses
    /// [`mem_query`](MemFunctions::mem_query) to fetch the original regions. It can be
    /// overridden in case this operation can be performed more efficiently on the
    /// target platform. For example, on Windows `VirtualProtect` returns the old
    /// protection of the first page, so if only one page is modified no
    /// [`mem_query`](MemFunctions::mem_query) call is required.
    ///
    /// The regions are queried before their protection is changed. Nothing is changed if the
    /// query fails.
    fn mem_protect_guard(&mut self, addr: usize, size: usize, prot: Protection) -> (r: Result<
        MemProtectGuard,
        OsErr,
    >)
        requires
            addr + size <= usize::MAX,
        ensures
            ({
                ||| exists|page_size: usize, answer: Result<Vec<MemoryRegion>, OsErr>|
                    {
                        &&& #[trigger] call_ensures(Self::page_size, (old(self),), page_size)
                        &&& #[trigger] call_ensures(
                            Self::mem_query,
                            (old(self), addr, size),
                            answer,
                        )
                        &&& match (answer, r) {
                            (Ok(regions), Ok(guard)) => {
                                &&& old(self).may_protect(addr, size, prot, *final(self), Ok(()))
                                &&& guard@ == trimmed(regions@, page_end(addr, size, page_size))
                            },
                            (Ok(_), Err(e)) => old(self).may_protect(
                                addr,
                                size,
                                prot,
                                *final(self),
                                Err(e),
                            ),
                            (Err(e), _) => {
                                &&& r == Err::<MemProtectGuard, OsErr>(e)
                                &&& *final(self) == *old(self)
                            },
                        }
                    }
                ||| old(self).may_guard(addr, size, prot, *final(self), r)
            }),
        default_ensures
            exists|page_size: usize, answer: Result<Vec<MemoryRegion>, OsErr>|
                {
                    &&& #[trigger] call_ensures(Self::page_size, (old(self),), page_size)
                    &&& #[trigger] call_ensures(Self::mem_query, (old(self), addr, size), answer)
                    &&& match (answer, r) {
                        (Ok(regions), Ok(guard)) => {
                            &&& old(self).may_protect(addr, size, prot, *final(self), Ok(()))
                            &&& guard@ == trimmed(regions@, page_end(addr, size, page_size))
                        },
                        (Ok(_), Err(e)) => old(self).may_protect(
                            addr,
                            size,
                            prot,
                            *final(self),
                            Err(e),
                        ),
                        (Err(e), _) => {
                            &&& r == Err::<MemProtectGuard, OsErr>(e)
                            &&& *final(self) == *old(self)
                        },
                    }
                },
    {
        let page_size: usize = self.page_size();
        let page_end: usize = end_of_pages(addr, size, page_size);
        let answer = self.mem_query(addr, size);
        match GuardOp::queried(answer, page_end) {
            GuardOp::Protect { kept } => {
                let outcome = self.mem_protect(addr, size, prot);
                assert(outcome is Ok ==> outcome->Ok_0 == ());
                GuardOp::protected(kept, outcome)
            },
            GuardOp::Done(r) => r,
            _ => vstd::pervasive::unreached(),
        }
    }
}

/// The outcome of making a guard by a query: the regions are those that the system answers with
/// before the protection is changed, up to the end of the pages. Nothing is changed if the query
/// fails.
pub open spec fn guarded_by_query<M: MemFunctions>(
    before: M,
    page_size: usize,
    addr: usize,
    size: usize,
    prot: Protection,
    after: M,
    r: Result<MemProtectGuard, OsErr>,
) -> bool {
    exists|answer: Result<Vec<MemoryRegion>, OsErr>|
        {
            &&& #[trigger] call_ensures(M::mem_query, (&before, addr, size), answer)
            &&& match (answer, r) {
                (Ok(regions), Ok(guard)) => {
                    &&& before.may_protect(addr, size, prot, after, Ok(()))
                    &&& guard@ == trimmed(regions@, page_end(addr, size, page_size))
                },
                (Ok(_), Err(e)) => before.may_protect(addr, size, prot, after, Err(e)),
                (Err(e), _) => {
                    &&& r == Err::<MemProtectGuard, OsErr>(e)
                    &&& after == before
                },
            }
        }
}

/// The outcome of making a guard: by a query, or as the system does it otherwise.
pub open spec fn guarded<M: MemFunctions>(
    before: M,
    addr: usize,
    size: usize,
    prot: Protection,
    after: M,
    r: Result<MemProtectGuard, OsErr>,
) -> bool {
    ||| exists|page_size: usize| #[trigger]
        call_ensures(M::page_size, (&before,), page_size) && guarded_by_query(
            before,
            page_size,
            addr,
            size,
            prot,
            after,
            r,
        )
    ||| before.may_guard(addr, size, prot, after, r)
}

/// Whether a region is as it was reported: base address, size and protection bits.
pub open spec fn reported_as(region: MemoryRegion, report: (usize, usize, usize)) -> bool {
    &&& region.base == report.0
    &&& region.size == report.1
    &&& region.prot.spec_bits() == report.2
}

/// Whether the first `n` reports are no errors, and the regions are as they say.
pub open spec fn collected(
    regions: Seq<MemoryRegion>,
    reports: Seq<Result<(usize, usize, usize), String>>,
    n: int,
) -> bool {
    &&& regions.len() == n
    &&& forall|i: int|
        0 <= i < n ==> ((#[trigger] reports[i]) matches Ok(report) && reported_as(
            regions[i],
            report,
        ))
}

/// Whether a result is the regions that were reported or, if there is one, the first error among
/// the reports.
pub open spec fn read_from(
    r: Result<Vec<MemoryRegion>, OsErr>,
    reports: Seq<Result<(usize, usize, usize), String>>,
) -> bool {
    match r {
        Ok(regions) => collected(regions@, reports, reports.len() as int),
        Err(e) => exists|n: int, regions: Seq<MemoryRegion>|
            {
                &&& 0 <= n < reports.len()
                &&& #[trigger] collected(regions, reports, n)
                &&& reports[n] matches Err(error)
                &&& e@ == error@
            },
    }
}

/// The regions that were reported, each by its base address, its size and its protection bits,
/// or the first error among the reports.
pub fn collect_regions(reports: Vec<Result<(usize, usize, usize), String>>) -> (r: Result<
    Vec<MemoryRegion>,
    OsErr,
>)
    requires
        forall|i: int|
            0 <= i < reports@.len() ==> ((#[trigger] reports@[i]) matches Ok(report)
                ==> report.2 <= 7),
    ensures
        read_from(r, reports@),
        r is Ok <==> forall|i: int| 0 <= i < reports@.len() ==> #[trigger] reports@[i] is Ok,
        r matches Ok(regions) ==> regions@.len() == reports@.len() && forall|i: int|
            #![trigger reports@[i]]
            #![trigger regions@[i]]
            0 <= i < reports@.len() ==> (reports@[i] matches Ok(report) && {
                &&& regions@[i].base == report.0
                &&& regions@[i].size == report.1
                &&& report.2 == 0 ==> regions@[i].prot == Protection::NONE
                &&& report.2 == 1 ==> regions@[i].prot == Protection::READ
                &&& report.2 == 2 ==> regions@[i].prot == Protection::WRITE
                &&& report.2 == 3 ==> regions@[i].prot == Protection::READ_WRITE
                &&& report.2 == 4 ==> regions@[i].prot == Protection::EXECUTE
                &&& report.2 == 5 ==> regions@[i].prot == Protection::READ_EXECUTE
                &&& report.2 == 6 ==> regions@[i].prot == Protection::WRITE_EXECUTE
                &&& report.2 == 7 ==> regions@[i].prot == Protection::READ_WRITE_EXECUTE
                &&& report.2 <= 7
            }),
        r matches Err(e) ==> exists|n: int|
            {
                &&& 0 <= n < reports@.len()
                &&& (#[trigger] reports@[n]) matches Err(error)
                &&& e@ == error@
                &&& forall|i: int| 0 <= i < n ==> reports@[i] is Ok
            },
{
    let mut regions: Vec<MemoryRegion> = Vec::new();
    let mut i: usize = 0;
    while i < reports.len()
        invariant
            i <= reports@.len(),
            collected(regions@, reports@, i as int),
            forall|j: int|
                0 <= j < reports@.len() ==> ((#[trigger] reports@[j]) matches Ok(report)
                    ==> report.2 <= 7),
        decreases reports@.len() - i,
    {
        match &reports[i] {
            Ok((base, size, bits)) => {
                let prot = match Protection::from_bits(*bits) {
                    Some(prot) => prot,
                    None => vstd::pervasive::unreached(),
                };
                regions.push(MemoryRegion { base: *base, size: *size, prot });
            },
            Err(error) => {
                return Err(OsErr::from_string(error.as_str().to_owned()));
            },
        }
        i = i + 1;
    }
    Ok(regions)
}

/// Whether the operating system may give an answer when it is asked for the used regions that
/// overlap `size` bytes at `addr`.
pub closed spec fn may_answer(
    addr: usize,
    size: usize,
    answer: Result<Vec<Result<(usize, usize, usize), String>>, String>,
) -> bool {
    call_ensures(native::query_range, (addr, size), answer)
}

/// Queries committed regions of memory pages with contiguous protection flags that intersect
/// the given range.
///
/// The operating system is asked for the regions of that range. What it answers depends on the
/// process; the result is what its answer says.
pub fn query(addr: usize, size: usize) -> (r: Result<Vec<MemoryRegion>, OsErr>)
    ensures
        exists|answer: Result<Vec<Result<(usize, usize, usize), String>>, String>| #[trigger]
            may_answer(addr, size, answer) && match answer {
                Ok(reports) => read_from(r, reports@),
                Err(error) => r matches Err(e) && e@ == error@,
            },
        exists|answer: Result<Vec<Result<(usize, usize, usize), String>>, String>| #[trigger]
            may_answer(addr, size, answer) && match answer {
                Ok(reports) => {
                    &&& r is Ok <==> forall|i: int|
                        0 <= i < reports@.len() ==> #[trigger] reports@[i] is Ok
                    &&& (r matches Ok(regions) ==> regions@.len() == reports@.len() && forall|
                        i: int,
                    |
                        #![trigger reports@[i]]
                        #![trigger regions@[i]]
                        0 <= i < reports@.len() ==> (reports@[i] matches Ok(report) && {
                            &&& regions@[i].base == report.0
                            &&& regions@[i].size == report.1
                            &&& report.2 == 0 ==> regions@[i].prot == Protection::NONE
                            &&& report.2 == 1 ==> regions@[i].prot == Protection::READ
                            &&& report.2 == 2 ==> regions@[i].prot == Protection::WRITE
                            &&& report.2 == 3 ==> regions@[i].prot == Protection::READ_WRITE
                            &&& report.2 == 4 ==> regions@[i].prot == Protection::EXECUTE
                            &&& report.2 == 5 ==> regions@[i].prot == Protection::READ_EXECUTE
                            &&& report.2 == 6 ==> regions@[i].prot == Protection::WRITE_EXECUTE
                            &&& report.2 == 7 ==> regions@[i].prot == Protection::READ_WRITE_EXECUTE
                            &&& report.2 <= 7
                        }))
                    &&& (r matches Err(e) ==> exists|n: int|
                        {
                            &&& 0 <= n < reports@.len()
                            &&& (#[trigger] reports@[n]) matches Err(error)
                            &&& e@ == error@
                            &&& forall|i: int| 0 <= i < n ==> reports@[i] is Ok
                        })
                },
                Err(error) => r matches Err(e) && e@ == error@,
            },
        size == 0 ==> r is Err,
{
    let answer = native::query_range(addr, size);
    assert(may_answer(addr, size, answer));
    match answer {
        Ok(reports) => collect_regions(reports),
        Err(error) => Err(OsErr::from_string(error)),
    }
}

/// The Windows page flag for a protection.
pub open spec fn native_prot(prot: Protection) -> u32 {
    match prot {
        Protection::NONE => 0x01,
        Protection::READ => 0x02,
        Protection::WRITE => 0x04,
        Protection::EXECUTE => 0x10,
        Protection::READ_EXECUTE => 0x20,
        Protection::READ_WRITE => 0x04,
        Protection::READ_WRITE_EXECUTE => 0x40,
        Protection::WRITE_EXECUTE => 0x40,
    }
}

/// The protection that a Windows page flag stands for.
pub open spec fn prot_of_native(flag: u32) -> Option<Protection> {
    if flag == 0x10 {
        Some(Protection::EXECUTE)
    } else if flag == 0x20 {
        Some(Protection::READ_EXECUTE)
    } else if flag == 0x40 || flag == 0x80 {
        Some(Protection::READ_WRITE_EXECUTE)
    } else if flag == 0x01 {
        Some(Protection::NONE)
    } else if flag == 0x02 {
        Some(Protection::READ)
    } else if flag == 0x04 || flag == 0x08 {
        Some(Protection::READ_WRITE)
    } else {
        None
    }
}

/// The Windows page flag for a protection.
pub fn to_native_prot(prot: Protection) -> (r: u32)
    ensures
        r == native_prot(prot),
        r == match prot {
            Protection::NONE => 0x01,
            Protection::READ => 0x02,
            Protection::WRITE => 0x04,
            Protection::READ_WRITE => 0x04,
            Protection::EXECUTE => 0x10,
            Protection::READ_EXECUTE => 0x20,
            Protection::WRITE_EXECUTE => 0x40,
            Protection::READ_WRITE_EXECUTE => 0x40int,
        },
{
    let flags = native::page_flags();
    match prot {
        Protection::NONE => flags.noaccess,
        Protection::READ => flags.readonly,
        Protection::WRITE => flags.readwrite,
        Protection::EXECUTE => flags.execute,
        Protection::READ_EXECUTE => flags.execute_read,
        Protection::READ_WRITE => flags.readwrite,
        Protection::READ_WRITE_EXECUTE => flags.execute_readwrite,
        Protection::WRITE_EXECUTE => flags.execute_readwrite,
    }
}

/// The protection that Windows page flags stand for, if there is one. Flags other than those
/// that tell how the page may be accessed are ignored.
pub fn from_native_prot(prot: u32) -> (r: Option<Protection>)
    ensures
        r == prot_of_native((prot as int % 0x100) as u32),
        r == Some(Protection::NONE) <==> prot % 0x100 == 0x01,
        r == Some(Protection::READ) <==> prot % 0x100 == 0x02,
        r == Some(Protection::READ_WRITE) <==> prot % 0x100 == 0x04 || prot % 0x100 == 0x08,
        r == Some(Protection::EXECUTE) <==> prot % 0x100 == 0x10,
        r == Some(Protection::READ_EXECUTE) <==> prot % 0x100 == 0x20,
        r == Some(Protection::READ_WRITE_EXECUTE) <==> prot % 0x100 == 0x40 || prot % 0x100
            == 0x80,
        r != Some(Protection::WRITE) && r != Some(Protection::WRITE_EXECUTE),
{
    let flags = native::page_flags();
    let flag: u32 = prot % 0x100;
    if flag == flags.execute {
        Some(Protection::EXECUTE)
    } else if flag == flags.execute_read {
        Some(Protection::READ_EXECUTE)
    } else if flag == flags.execute_readwrite || flag == flags.execute_writecopy {
        Some(Protection::READ_WRITE_EXECUTE)
    } else if flag == flags.noaccess {
        Some(Protection::NONE)
    } else if flag == flags.readonly {
        Some(Protection::READ)
    } else if flag == flags.readwrite || flag == flags.writecopy {
        Some(Protection::READ_WRITE)
    } else {
        None
    }
}

/// What Windows reports of a page is the protection it was given, except that it knows no
/// page that may be written and not read.
pub proof fn law_native_protection_round_trip(prot: Protection)
    ensures
        prot_of_native(native_prot(prot)) == Some(
            match prot {
                Protection::WRITE => Protection::READ_WRITE,
                Protection::WRITE_EXECUTE => Protection::READ_WRITE_EXECUTE,
                _ => prot,
            },
        ),
{
}

/// Whether `size` bytes at `addr` touch one page: the first and the last of them lie on the same
/// page.
pub open spec fn on_one_page(addr: usize, size: usize, page_size: usize) -> bool {
    size > 0 && arith::align_down(addr as int, page_size as int) == arith::align_down(
        addr + size - 1,
        page_size as int,
    )
}

/// Two addresses are on the same page if and only if their pages have the same number.
proof fn lemma_same_page(a: int, b: int, m: int)
    requires
        0 < m,
    ensures
        arith::align_down(a, m) == arith::align_down(b, m) <==> a / m == b / m,
{
    assert(a - a % m == m * (a / m) && b - b % m == m * (b / m)) by (nonlinear_arith)
        requires
            0 < m,
    ;
    if a / m != b / m {
        assert(m * (a / m) != m * (b / m)) by (nonlinear_arith)
            requires
                0 < m,
                a / m != b / m,
        ;
    }
}

/// Whether `size` bytes at `addr` touch one page.
pub fn touches_one_page(addr: usize, size: usize, page_size: usize) -> (r: bool)
    requires
        addr + size <= usize::MAX,
        power2::is_pow2(page_size as int),
    ensures
        r == on_one_page(addr, size, page_size),
        r <==> size > 0 && addr as int / page_size as int == (addr + size - 1) / page_size as int,
{
    proof {
        arith::lemma_pow2_positive(page_size as int);
        lemma_same_page(addr as int, addr + size - 1, page_size as int);
    }
    size > 0 && arith::floor_to_multiple(addr, page_size) == arith::floor_to_multiple(
        addr + (size - 1),
        page_size,
    )
}

/// Changes the protection flags of the pages that `size` bytes at `addr` touch, with a system
/// call that returns the old protection of the first page, as `VirtualProtect` does. If only
/// one page is touched, the regions need not be queried.
///
/// `virtual_protect` is given the address, the size and the Windows page flag.
pub fn mem_protect_guard_windows<M: MemFunctions, V: Fn(usize, usize, u32) -> Result<u32, OsErr>>(
    os: &mut M,
    page_size: usize,
    addr: usize,
    size: usize,
    prot: Protection,
    virtual_protect: V,
) -> (r: Result<MemProtectGuard, OsErr>)
    requires
        addr + size <= usize::MAX,
        power2::is_pow2(page_size as int),
        call_requires(virtual_protect, (addr, size, native_prot(prot))),
        forall|old: Result<u32, OsErr>| #[trigger]
            call_ensures(virtual_protect, (addr, size, native_prot(prot)), old) ==> (old matches Ok(
                flags,
            ) ==> prot_of_native((flags as int % 0x100) as u32) is Some),
    ensures
        on_one_page(addr, size, page_size) ==> *final(os) == *old(os) && match r {
            Ok(guard) => exists|flags: u32|
                {
                    &&& #[trigger] call_ensures(
                        virtual_protect,
                        (addr, size, native_prot(prot)),
                        Ok(flags),
                    )
                    &&& guard@ == seq![
                        MemoryRegion {
                            base: arith::align_down(addr as int, page_size as int) as usize,
                            size: page_size,
                            prot: prot_of_native((flags as int % 0x100) as u32)->0,
                        },
                    ]
                },
            Err(e) => call_ensures(virtual_protect, (addr, size, native_prot(prot)), Err(e)),
        },
        !on_one_page(addr, size, page_size) ==> guarded_by_query(
            *old(os),
            page_size,
            addr,
            size,
            prot,
            *final(os),
            r,
        ),
{
    proof {
        arith::lemma_pow2_positive(page_size as int);
    }
    if let GuardOp::ProtectPage = GuardOp::begin(touches_one_page(addr, size, page_size)) {
        // the old protection of the first page is all there is to keep
        let outcome = match virtual_protect(addr, size, to_native_prot(prot)) {
            Ok(old) => match from_native_prot(old) {
                Some(old_prot) => Ok(old_prot),
                None => vstd::pervasive::unreached(),
            },
            Err(e) => Err(e),
        };
        let start_page: usize = arith::floor_to_multiple(addr, page_size);
        return GuardOp::page_protected(start_page, page_size, outcome);
    }
    let end_page: usize = end_of_pages(addr, size, page_size);
    let answer = os.mem_query(addr, size);
    match GuardOp::queried(answer, end_page) {
        GuardOp::Protect { kept } => {
            let outcome = os.mem_protect(addr, size, prot);
            assert(outcome is Ok ==> outcome->Ok_0 == ());
            GuardOp::protected(kept, outcome)
        },
        GuardOp::Done(r) => r,
        _ => vstd::pervasive::unreached(),
    }
}

/// Whether `size` bytes at `addr` touch the page with number `p`.
pub open spec fn touches(p: int, addr: int, size: int, page_size: int) -> bool {
    &&& 0 < size
    &&& p * page_size < addr + size
    &&& addr < p * page_size + page_size
}

/// The protection of committed pages, by their number, after the protection of those that
/// `size` bytes at `addr` touch is changed.
pub open spec fn after_protect(
    pages: Map<int, Protection>,
    addr: int,
    size: int,
    prot: Protection,
    page_size: int,
) -> Map<int, Protection> {
    Map::new(
        |p: int| pages.contains_key(p),
        |p: int|
            if touches(p, addr, size, page_size) {
                prot
            } else {
                pages[p]
            },
    )
}

/// The protection of committed pages after that of the given regions is set, in order.
pub open spec fn after_revert(
    pages: Map<int, Protection>,
    regions: Seq<MemoryRegion>,
    page_size: int,
) -> Map<int, Protection>
    decreases regions.len(),
{
    if regions.len() == 0 {
        pages
    } else {
        let last = regions.last();
        after_protect(
            after_revert(pages, regions.drop_last(), page_size),
            last.base as int,
            last.size as int,
            last.prot,
            page_size,
        )
    }
}

/// Whether the regions are a true report of the committed pages that `size` bytes at `addr`
/// touch: whole pages in ascending order, with their protection.
pub open spec fn reports(
    regions: Seq<MemoryRegion>,
    pages: Map<int, Protection>,
    addr: int,
    size: int,
    page_size: int,
) -> bool {
    &&& forall|i: int|
        #![trigger regions[i]]
        0 <= i < regions.len() ==> regions[i].base as int % page_size == 0
            && regions[i].size as int % page_size == 0 && 0 < regions[i].size
    &&& forall|i: int, j: int|
        #![trigger regions[i], regions[j]]
        0 <= i < j < regions.len() ==> regions[i].base + regions[i].size <= regions[j].base
    &&& forall|i: int, p: int|
        0 <= i < regions.len() && #[trigger] touches(
            p,
            regions[i].base as int,
            regions[i].size as int,
            page_size,
        ) ==> pages.contains_key(p) && pages[p] == regions[i].prot
    &&& forall|p: int|
        pages.contains_key(p) && #[trigger] touches(p, addr, size, page_size) ==> exists|i: int|
            0 <= i < regions.len() && touches(
                p,
                (#[trigger] regions[i]).base as int,
                regions[i].size as int,
                page_size,
            )
}

/// Setting the protection of regions changes that of the pages they touch, and of no other.
proof fn lemma_after_revert(
    pages: Map<int, Protection>,
    regions: Seq<MemoryRegion>,
    page_size: int,
    p: int,
    prot: Protection,
)
    requires
        forall|i: int|
            0 <= i < regions.len() && touches(
                p,
                (#[trigger] regions[i]).base as int,
                regions[i].size as int,
                page_size,
            ) ==> regions[i].prot == prot,
    ensures
        after_revert(pages, regions, page_size).contains_key(p) == pages.contains_key(p),
        pages.contains_key(p) ==> after_revert(pages, regions, page_size)[p] == if exists|i: int|
            0 <= i < regions.len() && touches(
                p,
                (#[trigger] regions[i]).base as int,
                regions[i].size as int,
                page_size,
            ) {
            prot
        } else {
            pages[p]
        },
    decreases regions.len(),
{
    if regions.len() > 0 {
        let front = regions.drop_last();
        assert forall|i: int|
            0 <= i < front.len() && touches(
                p,
                (#[trigger] front[i]).base as int,
                front[i].size as int,
                page_size,
            ) implies front[i].prot == prot by {
            assert(front[i] == regions[i]);
        }
        lemma_after_revert(pages, front, page_size, p, prot);
        let n = regions.len() - 1;
        if touches(p, regions[n].base as int, regions[n].size as int, page_size) {
        } else {
            if exists|i: int|
                0 <= i < regions.len() && touches(
                    p,
                    (#[trigger] regions[i]).base as int,
                    regions[i].size as int,
                    page_size,
                ) {
                let i = choose|i: int|
                    0 <= i < regions.len() && touches(
                        p,
                        (#[trigger] regions[i]).base as int,
                        regions[i].size as int,
                        page_size,
                    );
                assert(front[i] == regions[i]);
            } else {
                assert forall|i: int| 0 <= i < front.len() implies !touches(
                    p,
                    (#[trigger] front[i]).base as int,
                    front[i].size as int,
                    page_size,
                ) by {
                    assert(front[i] == regions[i]);
                }
            }
        }
    }
}

/// Setting the regions that a guard over one byte or more keeps restores the protection of every
/// page, if the pages that were changed are committed and were truly reported. Bytes on the last
/// page of the address space are excepted, as the end of that page is no address.
pub proof fn law_revert_restores_protection(
    pages: Map<int, Protection>,
    regions: Seq<MemoryRegion>,
    addr: usize,
    size: usize,
    prot: Protection,
    page_size: usize,
)
    requires
        power2::is_pow2(page_size as int),
        arith::align_up(addr + size, page_size as int) <= usize::MAX,
        reports(regions, pages, addr as int, size as int, page_size as int),
        forall|p: int| #[trigger]
            touches(p, addr as int, size as int, page_size as int) ==> pages.contains_key(p),
        0 < size,
    ensures
        after_revert(
            after_protect(pages, addr as int, size as int, prot, page_size as int),
            trimmed(regions, page_end(addr, size, page_size)),
            page_size as int,
        ) == pages,
{
    let m = page_size as int;
    let end = page_end(addr, size, page_size);
    let kept = trimmed(regions, end);
    let changed = after_protect(pages, addr as int, size as int, prot, m);
    arith::lemma_pow2_positive(m);
    arith::lemma_align_up(addr + size, m);
    // the last page that is touched
    let q = end / m - 1;
    assert(q * m == end - m) by (nonlinear_arith)
        requires
            0 < m,
            end % m == 0,
            q == end / m - 1,
    {
        assert(end == m * (end / m));
    }
    assert(touches(q, addr as int, size as int, m));
    let last = regions.len() - 1;
    let k = choose|i: int|
        0 <= i < regions.len() && touches(
            q,
            (#[trigger] regions[i]).base as int,
            regions[i].size as int,
            m,
        );
    assert(end <= regions[k].base + regions[k].size) by {
        let top = regions[k].base + regions[k].size;
        assert(top % m == 0) by {
            vstd::arithmetic::div_mod::lemma_add_mod_noop(
                regions[k].base as int,
                regions[k].size as int,
                m,
            );
        }
        assert(end <= top) by (nonlinear_arith)
            requires
                0 < m,
                top % m == 0,
                end % m == 0,
                end - m < top,
        {
            assert(top == m * (top / m));
            assert(end == m * (end / m));
            if top / m < end / m {
                assert(m * (top / m) + m <= m * (end / m));
            }
        }
    }
    assert(regions[last].base < end ==> end <= regions[last].base + regions[last].size);
    assert forall|i: int, p: int|
        0 <= i < kept.len() && #[trigger] touches(
            p,
            kept[i].base as int,
            kept[i].size as int,
            m,
        ) implies pages.contains_key(p) && pages[p] == kept[i].prot by {
        assert(touches(p, regions[i].base as int, regions[i].size as int, m));
    }
    assert forall|p: int|
        pages.contains_key(p) == #[trigger] after_revert(changed, kept, m).contains_key(p) && (
        pages.contains_key(p) ==> after_revert(changed, kept, m)[p] == pages[p]) by {
        assert forall|i: int|
            0 <= i < kept.len() && touches(
                p,
                (#[trigger] kept[i]).base as int,
                kept[i].size as int,
                m,
            ) implies kept[i].prot == pages[p] by {}
        lemma_after_revert(changed, kept, m, p, pages[p]);
        if pages.contains_key(p) && touches(p, addr as int, size as int, m) {
            let i = choose|i: int|
                0 <= i < regions.len() && touches(
                    p,
                    (#[trigger] regions[i]).base as int,
                    regions[i].size as int,
                    m,
                );
            assert(p * m < end);
            assert(touches(p, kept[i].base as int, kept[i].size as int, m));
        }
    }
    assert(after_revert(changed, kept, m) =~= pages);
}

/// Whether a system keeps its word, given the protection of the committed pages in each of its
/// states: a query reports them truly, and a change of protection changes that of the pages
/// which are touched and of no other.
pub open spec fn truthful<M: MemFunctions>(
    pages: spec_fn(M) -> Map<int, Protection>,
    page_size: usize,
) -> bool {
    &&& forall|os: M, addr: usize, size: usize, regions: Vec<MemoryRegion>| #[trigger]
        call_ensures(M::mem_query, (&os, addr, size), Ok(regions)) ==> reports(
            regions@,
            pages(os),
            addr as int,
            size as int,
            page_size as int,
        )
    &&& forall|os: M, addr: usize, size: usize, prot: Protection, after: M| #[trigger]
        os.may_protect(addr, size, prot, after, Ok(())) ==> pages(after) == after_protect(
            pages(os),
            addr as int,
            size as int,
            prot,
            page_size as int,
        )
}

/// Setting the protection of regions one after the other does to the pages what it should.
proof fn lemma_protects<M: MemFunctions>(
    pages: spec_fn(M) -> Map<int, Protection>,
    page_size: usize,
    before: M,
    regions: Seq<MemoryRegion>,
    after: M,
)
    requires
        truthful(pages, page_size),
        protects(before, regions, after),
    ensures
        pages(after) == after_revert(pages(before), regions, page_size as int),
    decreases regions.len(),
{
    if regions.len() > 0 {
        let last = regions.last();
        let mid = choose|mid: M|
            protects(before, regions.drop_last(), mid) && #[trigger] mid.may_protect(
                last.base,
                last.size,
                last.prot,
                after,
                Ok(()),
            );
        lemma_protects(pages, page_size, before, regions.drop_last(), mid);
    }
}

/// On a system that keeps its word, a guard that was made by a query and is reverted leaves
/// every page with the protection that it had before the guard was made, if nothing else changes
/// the protection meanwhile, the pages are committed and one byte or more is guarded. Bytes on
/// the last page of the address space are excepted, as the end of that page is no address.
pub proof fn law_reverted_guard_leaves_no_trace<M: MemFunctions>(
    pages: spec_fn(M) -> Map<int, Protection>,
    before: M,
    page_size: usize,
    addr: usize,
    size: usize,
    prot: Protection,
    changed: M,
    guard: MemProtectGuard,
    after: M,
)
    requires
        power2::is_pow2(page_size as int),
        arith::align_up(addr + size, page_size as int) <= usize::MAX,
        truthful(pages, page_size),
        forall|p: int| #[trigger]
            touches(p, addr as int, size as int, page_size as int) ==> pages(
                before,
            ).contains_key(p),
        0 < size,
        guarded_by_query(before, page_size, addr, size, prot, changed, Ok(guard)),
        reverted(changed, guard@, after, Ok(())),
    ensures
        pages(changed) == after_protect(
            pages(before),
            addr as int,
            size as int,
            prot,
            page_size as int,
        ),
        pages(after) == pages(before),
{
    let answer = choose|answer: Result<Vec<MemoryRegion>, OsErr>|
        {
            &&& #[trigger] call_ensures(M::mem_query, (&before, addr, size), answer)
            &&& match answer {
                Ok(regions) => {
                    &&& before.may_protect(addr, size, prot, changed, Ok(()))
                    &&& guard@ == trimmed(regions@, page_end(addr, size, page_size))
                },
                Err(e) => false,
            }
        };
    let regions = answer->Ok_0;
    assert(call_ensures(M::mem_query, (&before, addr, size), Ok(regions)));
    lemma_protects(pages, page_size, changed, guard@, after);
    law_revert_restores_protection(pages(before), regions@, addr, size, prot, page_size);
}

/// The bits of a protection tell, one by one, whether the memory may be read, written and
/// executed, and every protection comes back from its bits.
pub proof fn law_bits_tell_what_is_allowed(prot: Protection, bits: usize, back: Option<Protection>)
    requires
        call_ensures(Protection::bits, (&prot,), bits),
        call_ensures(Protection::from_bits, (bits,), back),
    ensures
        back == Some(prot),
        bits < 8,
        bits % 2 == 1 <==> (prot == Protection::READ || prot == Protection::READ_WRITE || prot
            == Protection::READ_EXECUTE || prot == Protection::READ_WRITE_EXECUTE),
        (bits / 2) % 2 == 1 <==> (prot == Protection::WRITE || prot == Protection::READ_WRITE
            || prot == Protection::WRITE_EXECUTE || prot == Protection::READ_WRITE_EXECUTE),
        (bits / 4) % 2 == 1 <==> (prot == Protection::EXECUTE || prot == Protection::READ_EXECUTE
            || prot == Protection::WRITE_EXECUTE || prot == Protection::READ_WRITE_EXECUTE),
{
}

/// A region that was reported has the base, the size and the very flags that were reported, one
/// region for each report and in the same order. There is a result if and only if no report is
/// an error.
pub proof fn law_regions_are_as_reported(
    reports: Vec<Result<(usize, usize, usize), String>>,
    r: Result<Vec<MemoryRegion>, OsErr>,
    i: int,
    bits: usize,
)
    requires
        call_ensures(collect_regions, (reports,), r),
        0 <= i < reports@.len(),
        r matches Ok(regions) ==> call_ensures(Protection::bits, (&regions@[i].prot,), bits),
    ensures
        r is Ok <==> forall|j: int| 0 <= j < reports@.len() ==> #[trigger] reports@[j] is Ok,
        r matches Ok(regions) ==> {
            &&& regions@.len() == reports@.len()
            &&& reports@[i] == Ok::<(usize, usize, usize), String>(
                (regions@[i].base, regions@[i].size, bits),
            )
        },
{
    if let Ok(regions) = r {
        let report = reports@[i]->Ok_0;
        assert(regions@[i].base == report.0);
        assert(report == (report.0, report.1, report.2));
    }
}

/// A query asks the system for the very bytes that it was given, and its result is what the
/// answer says.
pub(crate) proof fn law_query_asks_for_the_bytes(
    addr: usize,
    size: usize,
    r: Result<Vec<MemoryRegion>, OsErr>,
)
    requires
        call_ensures(query, (addr, size), r),
    ensures
        exists|answer: Result<Vec<Result<(usize, usize, usize), String>>, String>| #[trigger]
            call_ensures(native::query_range, (addr, size), answer) && match answer {
                Ok(reports) => r matches Ok(regions) ==> regions@.len() == reports@.len(),
                Err(error) => r matches Err(e) && e@ == error@,
            },
{
    let answer = choose|answer: Result<Vec<Result<(usize, usize, usize), String>>, String>|
        #[trigger] may_answer(addr, size, answer) && match answer {
            Ok(reports) => read_from(r, reports@),
            Err(error) => r matches Err(e) && e@ == error@,
        };
    assert(call_ensures(native::query_range, (addr, size), answer));
}

/// The pages that bytes touch end at a multiple of the page size at or above the end of the
/// bytes, and less than a page above it. Where that is no address, the last page of the address
/// space counts as their end.
pub proof fn law_pages_end_behind_the_bytes(addr: usize, size: usize, page_size: usize, end: usize)
    requires
        addr + size <= usize::MAX,
        power2::is_pow2(page_size as int),
        call_ensures(end_of_pages, (addr, size, page_size), end),
    ensures
        end as int % page_size as int == 0,
        addr + size <= usize::MAX - page_size + 1 ==> addr + size <= end < addr + size + page_size,
        addr + size > usize::MAX - page_size + 1 ==> end == usize::MAX - page_size + 1,
{
}

/// Bytes touch one page if and only if there are any, and the first and the last of them are on
/// the page with the same number.
pub proof fn law_one_page_has_one_number(addr: usize, size: usize, page_size: usize, r: bool)
    requires
        call_ensures(touches_one_page, (addr, size, page_size), r),
    ensures
        r <==> size > 0 && addr as int / page_size as int == (addr + size - 1) / page_size as int,
{
}

/// Regions that are trimmed keep their number, their bases and their protections. The last one
/// ends where it is trimmed if it starts before that; nothing else changes.
pub proof fn law_trimming_moves_one_end(regions: &mut Vec<MemoryRegion>, end: usize, i: int)
    requires
        call_ensures(trim_last, (regions, end), ()),
        0 <= i < old(regions)@.len(),
    ensures
        final(regions)@.len() == old(regions)@.len(),
        final(regions)@[i].base == old(regions)@[i].base,
        final(regions)@[i].prot == old(regions)@[i].prot,
        i < old(regions)@.len() - 1 ==> final(regions)@[i] == old(regions)@[i],
        i == old(regions)@.len() - 1 && old(regions)@[i].base < end ==> final(regions)@[i].base
            + final(regions)@[i].size == end,
        i == old(regions)@.len() - 1 && old(regions)@[i].base >= end ==> final(regions)@[i]
            == old(regions)@[i],
{
    let (before, after) = (old(regions)@[i], final(regions)@[i]);
    assert(after.base == before.base);
}

/// Setting the protection of regions, one after the other, passes through a state of the system
/// after each of them.
proof fn lemma_states_of_protects<M: MemFunctions>(
    before: M,
    regions: Seq<MemoryRegion>,
    after: M,
) -> (states: Seq<M>)
    requires
        protects(before, regions, after),
    ensures
        states.len() == regions.len() + 1,
        states[0] == before,
        states[regions.len() as int] == after,
        forall|i: int|
            0 <= i < regions.len() ==> (#[trigger] states[i]).may_protect(
                regions[i].base,
                regions[i].size,
                regions[i].prot,
                states[i + 1],
                Ok(()),
            ),
    decreases regions.len(),
{
    if regions.len() == 0 {
        seq![before]
    } else {
        let last = regions.last();
        let mid = choose|mid: M|
            protects(before, regions.drop_last(), mid) && #[trigger] mid.may_protect(
                last.base,
                last.size,
                last.prot,
                after,
                Ok(()),
            );
        let init = lemma_states_of_protects(before, regions.drop_last(), mid);
        let states = init.push(after);
        assert forall|i: int| 0 <= i < regions.len() implies (#[trigger] states[i]).may_protect(
            regions[i].base,
            regions[i].size,
            regions[i].prot,
            states[i + 1],
            Ok(()),
        ) by {
            assert(states[i] == init[i]);
            if i < regions.len() - 1 {
                assert(regions.drop_last()[i] == regions[i]);
                assert(states[i + 1] == init[i + 1]);
            }
        }
        states
    }
}

/// Reverting a guard sets the protection of its regions one by one, in order, each to the one
/// that was kept, over the very bytes that were kept. It stops at the first error, and reports
/// it; if there is none, every region has been set, and success is reported.
pub proof fn law_revert_sets_every_region<M: MemFunctions>(
    guard: MemProtectGuard,
    os: &mut M,
    r: Result<(), OsErr>,
)
    requires
        call_ensures(MemProtectGuard::revert::<M>, (guard, os), r),
    ensures
        exists|states: Seq<M>|
            {
                let n = states.len() - 1;
                &&& 0 <= n <= guard@.len()
                &&& #[trigger] states[0] == *old(os)
                &&& forall|i: int|
                    0 <= i < n ==> (#[trigger] states[i]).may_protect(
                        guard@[i].base,
                        guard@[i].size,
                        guard@[i].prot,
                        states[i + 1],
                        Ok(()),
                    )
                &&& match r {
                    Ok(()) => n == guard@.len() && states[n] == *final(os),
                    Err(e) => n < guard@.len() && states[n].may_protect(
                        guard@[n].base,
                        guard@[n].size,
                        guard@[n].prot,
                        *final(os),
                        Err(e),
                    ),
                }
            },
{
    assert(reverted(*old(os), guard@, *final(os), r));
    match r {
        Ok(()) => {
            let states = lemma_states_of_protects(*old(os), guard@, *final(os));
            assert(states[0] == *old(os));
        },
        Err(e) => {
            let (n, mid) = choose|n: int, mid: M|
                {
                    &&& 0 <= n < guard@.len()
                    &&& #[trigger] protects(*old(os), guard@.take(n), mid)
                    &&& mid.may_protect(
                        guard@[n].base,
                        guard@[n].size,
                        guard@[n].prot,
                        *final(os),
                        Err(e),
                    )
                };
            let states = lemma_states_of_protects(*old(os), guard@.take(n), mid);
            assert(states[0] == *old(os));
            assert forall|i: int| 0 <= i < n implies (#[trigger] states[i]).may_protect(
                guard@[i].base,
                guard@[i].size,
                guard@[i].prot,
                states[i + 1],
                Ok(()),
            ) by {
                assert(guard@.take(n)[i] == guard@[i]);
            }
        },
    }
}

/// A guard that is made keeps what the system answered before the change, region by region,
/// except that the last one ends with the pages that are changed. Nothing is changed unless the
/// query succeeds, and every error is reported as it came.
pub proof fn law_guard_keeps_the_answer<M: MemFunctions>(
    before: M,
    page_size: usize,
    addr: usize,
    size: usize,
    prot: Protection,
    after: M,
    r: Result<MemProtectGuard, OsErr>,
)
    requires
        power2::is_pow2(page_size as int),
        addr + size <= usize::MAX,
        guarded_by_query(before, page_size, addr, size, prot, after, r),
    ensures
        exists|answer: Result<Vec<MemoryRegion>, OsErr>|
            {
                &&& #[trigger] call_ensures(M::mem_query, (&before, addr, size), answer)
                &&& answer matches Err(e) ==> r == Err::<MemProtectGuard, OsErr>(e) && after
                    == before
                &&& answer is Ok ==> match r {
                    Ok(_) => before.may_protect(addr, size, prot, after, Ok(())),
                    Err(e) => before.may_protect(addr, size, prot, after, Err(e)),
                }
                &&& answer matches Ok(regions) ==> (r matches Ok(guard) ==> {
                    &&& guard@.len() == regions@.len()
                    &&& forall|i: int|
                        0 <= i < regions@.len() ==> {
                            &&& (#[trigger] guard@[i]).base == regions@[i].base
                            &&& guard@[i].prot == regions@[i].prot
                            &&& (i < regions@.len() - 1 ==> guard@[i].size == regions@[i].size)
                        }
                    &&& regions@.len() > 0 && addr + size <= usize::MAX - page_size + 1 ==> {
                        let end = guard@.last().base + guard@.last().size;
                        regions@.last().base < addr + size ==> {
                            &&& end % page_size as int == 0
                            &&& addr + size <= end < addr + size + page_size
                        }
                    }
                })
            },
{
    lemma_page_end_is_least(addr, size, page_size);
}

/// A guard is made by a query, or in the way that an implementation tells of.
pub proof fn law_guard_is_made_by_a_query_or_as_told<M: MemFunctions>(
    before: M,
    addr: usize,
    size: usize,
    prot: Protection,
    after: M,
    r: Result<MemProtectGuard, OsErr>,
)
    requires
        guarded(before, addr, size, prot, after, r),
        !before.may_guard(addr, size, prot, after, r),
    ensures
        exists|page_size: usize, answer: Result<Vec<MemoryRegion>, OsErr>|
            {
                &&& #[trigger] call_ensures(M::page_size, (&before,), page_size)
                &&& #[trigger] call_ensures(M::mem_query, (&before, addr, size), answer)
                &&& answer matches Err(e) ==> r == Err::<MemProtectGuard, OsErr>(e) && after
                    == before
                &&& answer is Ok ==> match r {
                    Ok(_) => before.may_protect(addr, size, prot, after, Ok(())),
                    Err(e) => before.may_protect(addr, size, prot, after, Err(e)),
                }
            },
{
}

/// The flags of Windows for each protection, and the protection that flags stand for, whatever
/// other flags come with them.
pub proof fn law_native_flags_of_protections(
    prot: Protection,
    flag: u32,
    other: u32,
    back: Option<Protection>,
)
    requires
        call_ensures(to_native_prot, (prot,), flag),
        other % 0x100 == flag,
        call_ensures(from_native_prot, (other,), back),
    ensures
        prot == Protection::NONE ==> flag == 0x01 && back == Some(Protection::NONE),
        prot == Protection::READ ==> flag == 0x02 && back == Some(Protection::READ),
        prot == Protection::WRITE ==> flag == 0x04 && back == Some(Protection::READ_WRITE),
        prot == Protection::READ_WRITE ==> flag == 0x04 && back == Some(Protection::READ_WRITE),
        prot == Protection::EXECUTE ==> flag == 0x10 && back == Some(Protection::EXECUTE),
        prot == Protection::READ_EXECUTE ==> flag == 0x20 && back == Some(
            Protection::READ_EXECUTE,
        ),
        prot == Protection::WRITE_EXECUTE ==> flag == 0x40 && back == Some(
            Protection::READ_WRITE_EXECUTE,
        ),
        prot == Protection::READ_WRITE_EXECUTE ==> flag == 0x40 && back == Some(
            Protection::READ_WRITE_EXECUTE,
        ),
{
}

/// On Windows, bytes on one page are guarded by one call that changes their protection and tells
/// what it was: the guard keeps that page, whole, with the protection that the flags stand for.
/// All other bytes are guarded by a query.
pub proof fn law_one_page_is_guarded_without_a_query<
    M: MemFunctions,
    V: Fn(usize, usize, u32) -> Result<u32, OsErr>,
>(
    os: &mut M,
    page_size: usize,
    addr: usize,
    size: usize,
    prot: Protection,
    virtual_protect: V,
    flag: u32,
    r: Result<MemProtectGuard, OsErr>,
)
    requires
        power2::is_pow2(page_size as int),
        addr + size <= usize::MAX,
        call_ensures(to_native_prot, (prot,), flag),
        call_ensures(
            mem_protect_guard_windows::<M, V>,
            (os, page_size, addr, size, prot, virtual_protect),
            r,
        ),
    ensures
        size > 0 && addr as int / page_size as int == (addr + size - 1) / page_size as int ==> {
            &&& *final(os) == *old(os)
            &&& match r {
                Ok(guard) => guard@.len() == 1 && guard@[0].base as int == page_size * (addr as int
                    / page_size as int) && guard@[0].size == page_size && exists|old: u32|
                    {
                        let kept = guard@[0].prot;
                        &&& #[trigger] call_ensures(virtual_protect, (addr, size, flag), Ok(old))
                        &&& old % 0x100 == 0x01 ==> kept == Protection::NONE
                        &&& old % 0x100 == 0x02 ==> kept == Protection::READ
                        &&& old % 0x100 == 0x04 ==> kept == Protection::READ_WRITE
                        &&& old % 0x100 == 0x08 ==> kept == Protection::READ_WRITE
                        &&& old % 0x100 == 0x10 ==> kept == Protection::EXECUTE
                        &&& old % 0x100 == 0x20 ==> kept == Protection::READ_EXECUTE
                        &&& old % 0x100 == 0x40 ==> kept == Protection::READ_WRITE_EXECUTE
                        &&& old % 0x100 == 0x80 ==> kept == Protection::READ_WRITE_EXECUTE
                    },
                Err(e) => call_ensures(virtual_protect, (addr, size, flag), Err(e)),
            }
        },
        !(size > 0 && addr as int / page_size as int == (addr + size - 1) / page_size as int)
            ==> guarded_by_query(*old(os), page_size, addr, size, prot, *final(os), r),
{
    arith::lemma_pow2_positive(page_size as int);
    lemma_same_page(addr as int, addr + size - 1, page_size as int);
    let m = page_size as int;
    assert(addr as int - addr as int % m == m * (addr as int / m)) by (nonlinear_arith)
        requires
            0 < m,
    ;
}

/// A guard keeps the very regions that it is made of.
pub proof fn law_guard_keeps_its_regions(
    regions: Vec<MemoryRegion>,
    guard: MemProtectGuard,
    kept: &Vec<MemoryRegion>,
)
    requires
        call_ensures(MemProtectGuard::new, (regions,), guard),
        call_ensures(MemProtectGuard::regions, (&guard,), kept),
    ensures
        kept@ == regions@,
        guard@ == regions@,
{
}

/// The steps of making a guard. One page is changed at once; otherwise the regions are queried
/// first. They are kept, and after that the protection is changed; if the query fails, there is
/// no guard, and nothing is changed. What was kept is guarded if the change succeeds, and its
/// error is handed on if not. One page is kept, whole, with the protection that it had.
pub proof fn law_guard_is_made_step_by_step(
    answer: Vec<MemoryRegion>,
    error: OsErr,
    end: usize,
    queried: GuardOp,
    refused: GuardOp,
    kept: Vec<MemoryRegion>,
    done: Result<MemProtectGuard, OsErr>,
    failed: Result<MemProtectGuard, OsErr>,
    start: usize,
    page_size: usize,
    prot: Protection,
    page: Result<MemProtectGuard, OsErr>,
    no_page: Result<MemProtectGuard, OsErr>,
)
    requires
        call_ensures(GuardOp::queried, (Ok(answer), end), queried),
        call_ensures(GuardOp::queried, (Err(error), end), refused),
        call_ensures(GuardOp::protected, (kept, Ok(())), done),
        call_ensures(GuardOp::protected, (kept, Err(error)), failed),
        call_ensures(GuardOp::page_protected, (start, page_size, Ok(prot)), page),
        call_ensures(GuardOp::page_protected, (start, page_size, Err(error)), no_page),
    ensures
        forall|first: GuardOp| #[trigger]
            call_ensures(GuardOp::begin, (true,), first) ==> first == GuardOp::ProtectPage,
        forall|first: GuardOp| #[trigger]
            call_ensures(GuardOp::begin, (false,), first) ==> first == GuardOp::Query,
        queried matches GuardOp::Protect { kept } && kept@.len() == answer@.len() && forall|i: int|
            0 <= i < answer@.len() ==> (#[trigger] kept@[i]).base == answer@[i].base
                && kept@[i].prot == answer@[i].prot && (i < answer@.len() - 1 ==> kept@[i]
                == answer@[i]),
        refused == GuardOp::Done(Err(error)),
        done matches Ok(guard) && guard@ == kept@,
        failed == Err::<MemProtectGuard, OsErr>(error),
        page matches Ok(guard) && guard@.len() == 1 && guard@[0] == (MemoryRegion {
            base: start,
            size: page_size,
            prot,
        }),
        no_page == Err::<MemProtectGuard, OsErr>(error),
{
}

/// What a query returns: an error if the system answers with one, the first error among the
/// reports if there is one, and otherwise one region for each report, with its base, its size and
/// the very flags that were reported.
pub proof fn law_query_returns_what_is_reported(
    addr: usize,
    size: usize,
    r: Result<Vec<MemoryRegion>, OsErr>,
    i: int,
    bits: usize,
)
    requires
        call_ensures(query, (addr, size), r),
        r matches Ok(regions) ==> 0 <= i < regions@.len() && call_ensures(
            Protection::bits,
            (&regions@[i].prot,),
            bits,
        ),
    ensures
        size == 0 ==> r is Err,
        exists|answer: Result<Vec<Result<(usize, usize, usize), String>>, String>|
            {
                &&& #[trigger] may_answer(addr, size, answer)
                &&& answer matches Err(error) ==> (r matches Err(e) && e@ == error@)
                &&& answer matches Ok(reports) ==> (r is Ok <==> forall|j: int|
                    0 <= j < reports@.len() ==> #[trigger] reports@[j] is Ok)
                &&& r matches Ok(regions) ==> (answer matches Ok(reports) && reports@.len()
                    == regions@.len() && reports@[i] == Ok::<(usize, usize, usize), String>(
                    (regions@[i].base, regions@[i].size, bits),
                ))
            },
{
    let answer = choose|answer: Result<Vec<Result<(usize, usize, usize), String>>, String>|
        #[trigger] may_answer(addr, size, answer) && match answer {
            Ok(reports) => read_from(r, reports@),
            Err(error) => r matches Err(e) && e@ == error@,
        };
    assert(may_answer(addr, size, answer));
    if let Ok(reports) = answer {
        if let Ok(regions) = r {
            let report = reports@[i]->Ok_0;
            assert(reported_as(regions@[i], report));
            assert(report == (report.0, report.1, report.2));
        } else {
            let n = choose|n: int|
                0 <= n < reports@.len() && #[trigger] reports@[n] is Err;
            assert(reports@[n] is Err);
        }
    }
}

/// A protection that nothing is said of allows no access.
pub proof fn law_default_protection_allows_nothing(prot: Protection, bits: usize)
    requires
        call_ensures(<Protection as Default>::default, (), prot),
        call_ensures(Protection::bits, (&prot,), bits),
    ensures
        bits == 0,
{
}

} // verus!
