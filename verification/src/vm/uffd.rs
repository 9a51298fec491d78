//! Serving page faults of a guest whose memory is restored from a snapshot file on demand.
//!
//! Firecracker describes the regions of the guest's memory and hands over a descriptor for their
//! page faults. Each fault is answered with the page of the memory file that belongs there.

#[allow(unused_imports)]
use vstd::arithmetic::div_mod::{
    lemma_add_mod_noop, lemma_fundamental_div_mod, lemma_mod_multiples_basic,
};
#[allow(unused_imports)]
use vstd::arithmetic::power2::{lemma_pow2_pos, pow2};
#[allow(unused_imports)]
use vstd::bits::{lemma_usize_low_bits_mask_is_mod, low_bits_mask};
use vstd::prelude::*;
use vstd::slice::slice_subrange;
#[allow(unused_imports)]
use vstd::utf8::{decode_utf8, valid_utf8};

verus! {

/// Where a region of the guest's memory lies in the address space of the Firecracker process, and
/// where its contents lie in the memory file.
#[derive(Clone, Copy, Debug, PartialEq, Eq, Structural)]
pub struct GuestRegionUffdMapping {
    pub base_host_virt_addr: u64,
    pub size: usize,
    pub offset: u64,
    pub page_size: usize,
}

impl GuestRegionUffdMapping {
    /// The address of the first byte of the region.
    pub open spec fn base(self) -> int {
        (self.base_host_virt_addr as usize) as int
    }

    /// The place of the first byte of the region in the memory file.
    pub open spec fn file_offset(self) -> int {
        (self.offset as usize) as int
    }

    /// Whether an address lies in the region.
    pub open spec fn covers(self, addr: int) -> bool {
        self.base() <= addr < self.base() + self.size
    }

    /// Tells whether an address lies in the region.
    pub fn contains(&self, addr: usize) -> (inside: bool)
        requires
            addr >= self.base() ==> self.base() + self.size <= usize::MAX,
        ensures
            inside == self.covers(addr as int),
    {
        let base: usize = self.base_host_virt_addr as usize;
        addr >= base && addr < base + self.size
    }
}

/// The address of the page that an address lies in.
pub open spec fn page_of(addr: usize, page_size: usize) -> usize {
    addr & !((page_size - 1) as usize)
}

/// What a search for the region of an address comes to.
pub ghost enum Located {
    Region(GuestRegionUffdMapping),
    Nowhere,
    /// A region that was looked at ends behind the last address there is.
    Overflow,
}

/// The first of the regions that an address lies in.
pub open spec fn located(mappings: Seq<GuestRegionUffdMapping>, addr: int) -> Located
    decreases mappings.len(),
{
    if mappings.len() == 0 {
        Located::Nowhere
    } else if addr >= mappings[0].base() && mappings[0].base() + mappings[0].size > usize::MAX {
        Located::Overflow
    } else if mappings[0].covers(addr) {
        Located::Region(mappings[0])
    } else {
        located(mappings.drop_first(), addr)
    }
}

/// How to answer a page fault.
#[derive(Clone, Copy, Debug, PartialEq, Eq, Structural)]
pub enum FaultAction {
    /// Copy `len` bytes from `src_offset` in the memory file to the address `dst`.
    Copy { src_offset: usize, dst: usize, len: usize },
    /// The page is in no region.
    Unmapped { page_addr: usize },
    /// The addresses involved do not fit the address space.
    Overflow,
}

/// The answer to a fault at `addr`.
pub open spec fn fault_action(
    mappings: Seq<GuestRegionUffdMapping>,
    page_size: usize,
    addr: usize,
) -> FaultAction {
    if page_size == 0 {
        FaultAction::Overflow
    } else {
        let page = page_of(addr, page_size);
        match located(mappings, page as int) {
            Located::Overflow => FaultAction::Overflow,
            Located::Nowhere => FaultAction::Unmapped { page_addr: page },
            Located::Region(region) => {
                let src = region.file_offset() + (page - region.base());
                if src > usize::MAX {
                    FaultAction::Overflow
                } else {
                    FaultAction::Copy { src_offset: src as usize, dst: page, len: page_size }
                }
            },
        }
    }
}

/// The first of the regions that an address lies in, or `Err` if one ends behind the last address.
fn locate(mappings: &[GuestRegionUffdMapping], addr: usize) -> (found: Result<
    Option<GuestRegionUffdMapping>,
    (),
>)
    ensures
        match located(mappings@, addr as int) {
            Located::Region(region) => found == Ok::<Option<GuestRegionUffdMapping>, ()>(
                Some(region),
            ),
            Located::Nowhere => found == Ok::<Option<GuestRegionUffdMapping>, ()>(None),
            Located::Overflow => found is Err,
        },
{
    let mut i: usize = 0;
    assert(mappings@.skip(0) =~= mappings@);
    while i < mappings.len()
        invariant
            i <= mappings@.len(),
            located(mappings@, addr as int) == located(mappings@.skip(i as int), addr as int),
        decreases mappings.len() - i,
    {
        let region = mappings[i];
        assert(mappings@.skip(i as int)[0] == region);
        assert(mappings@.skip(i as int).drop_first() =~= mappings@.skip(i + 1));
        let base: usize = region.base_host_virt_addr as usize;
        if addr >= base && base.checked_add(region.size).is_none() {
            return Err(());
        }
        if region.contains(addr) {
            return Ok(Some(region));
        }
        i = i + 1;
    }
    Ok(None)
}

/// Answers a page fault.
pub fn serve_fault(
    mappings: &[GuestRegionUffdMapping],
    page_size: usize,
    fault_addr: usize,
) -> (action: FaultAction)
    ensures
        action == fault_action(mappings@, page_size, fault_addr),
{
    if page_size == 0 {
        return FaultAction::Overflow;
    }
    let page_addr: usize = fault_addr & !(page_size - 1);
    match locate(mappings, page_addr) {
        Err(_) => FaultAction::Overflow,
        Ok(None) => FaultAction::Unmapped { page_addr },
        Ok(Some(region)) => {
            proof {
                lemma_located(mappings@, page_addr as int);
            }
            let region_offset: usize = page_addr - region.base_host_virt_addr as usize;
            match (region.offset as usize).checked_add(region_offset) {
                Some(src_offset) => FaultAction::Copy {
                    src_offset,
                    dst: page_addr,
                    len: page_size,
                },
                None => FaultAction::Overflow,
            }
        },
    }
}

/// A region that was found is one of the regions, and the address lies in it.
pub proof fn lemma_located(mappings: Seq<GuestRegionUffdMapping>, addr: int)
    ensures
        located(mappings, addr) matches Located::Region(region) ==> mappings.contains(region)
            && region.covers(addr) && region.base() + region.size <= usize::MAX,
    decreases mappings.len(),
{
    if mappings.len() > 0 {
        let rest = mappings.drop_first();
        lemma_located(rest, addr);
        if let Located::Region(region) = located(mappings, addr) {
            if mappings[0].covers(addr) {
                assert(mappings.contains(mappings[0]));
            } else {
                let i = choose|i: int| 0 <= i < rest.len() && rest[i] == region;
                assert(mappings[i + 1] == region);
            }
        }
    }
}

/// The regions that a handshake described, and the size of their pages.
pub struct PageServer {
    pub mappings: Vec<GuestRegionUffdMapping>,
    pub page_size: usize,
}

/// What was read from the descriptor for page faults.
#[derive(Clone, Copy, Debug, PartialEq, Eq, Structural)]
pub enum UffdEvent {
    /// A fault at an address.
    Pagefault(usize),
    /// Anything else.
    Other,
    /// Nothing: the descriptor was not ready.
    NotReady,
}

/// What the handler of page faults does next.
#[derive(Clone, Copy, Debug, PartialEq, Eq, Structural)]
pub enum HandlerAction {
    /// Answer a fault, then read the next event.
    Serve(FaultAction),
    /// Read the next event.
    ReadEvent,
}

impl PageServer {
    /// Takes the regions of a handshake. The size of a page is that of the first region; without
    /// a region there is nothing to serve.
    pub fn from_handshake(mappings: Vec<GuestRegionUffdMapping>) -> (server: Option<PageServer>)
        ensures
            server is Some <==> mappings@.len() > 0,
            server matches Some(s) ==> s.mappings == mappings && s.page_size
                == mappings@[0].page_size,
    {
        if mappings.len() == 0 {
            None
        } else {
            let page_size: usize = mappings[0].page_size;
            Some(PageServer { mappings, page_size })
        }
    }

    /// Decides what follows an event.
    pub fn on_event(&self, event: UffdEvent) -> (action: HandlerAction)
        ensures
            action == match event {
                UffdEvent::Pagefault(addr) => HandlerAction::Serve(
                    fault_action(self.mappings@, self.page_size, addr),
                ),
                _ => HandlerAction::ReadEvent,
            },
    {
        match event {
            UffdEvent::Pagefault(addr) => HandlerAction::Serve(
                serve_fault(self.mappings.as_slice(), self.page_size, addr),
            ),
            _ => HandlerAction::ReadEvent,
        }
    }
}

/// How a copy into the guest's memory came out.
#[derive(Clone, Copy, Debug, PartialEq, Eq, Structural)]
pub enum CopyResult {
    /// So many bytes were copied.
    Copied(usize),
    /// The system refused, with its error number if there is one.
    Refused(Option<i32>),
    /// It failed in another way.
    Failed,
}

/// What to make of a copy.
#[derive(Clone, Copy, Debug, PartialEq, Eq, Structural)]
pub enum CopyVerdict {
    /// The fault is answered.
    Served,
    /// No byte was copied.
    Empty,
    /// The fault is not answered.
    Broken,
}

/// `libc::EEXIST`, which is 17 on Linux.
#[verifier::external_body]
fn already_there() -> (errno: i32)
    ensures
        errno == 17,
{
    libc::EEXIST
}

/// Judges a copy. A page that is there already was brought by another fault on it, which is as
/// good.
pub fn judge_copy(result: CopyResult) -> (verdict: CopyVerdict)
    ensures
        verdict == match result {
            CopyResult::Copied(n) => if n > 0 {
                CopyVerdict::Served
            } else {
                CopyVerdict::Empty
            },
            CopyResult::Refused(Some(errno)) => if errno == 17 {
                CopyVerdict::Served
            } else {
                CopyVerdict::Broken
            },
            _ => CopyVerdict::Broken,
        },
{
    match result {
        CopyResult::Copied(n) => if n > 0 {
            CopyVerdict::Served
        } else {
            CopyVerdict::Empty
        },
        CopyResult::Refused(Some(errno)) => if errno == already_there() {
            CopyVerdict::Served
        } else {
            CopyVerdict::Broken
        },
        _ => CopyVerdict::Broken,
    }
}

/// `String::from_utf8`: the text that the bytes are the UTF-8 of, if they are UTF-8.
#[verifier::external_body]
fn decode_exact(bytes: &[u8]) -> (text: Option<String>)
    ensures
        text is Some <==> valid_utf8(bytes@),
        text matches Some(t) ==> t@ == decode_utf8(bytes@),
{
    String::from_utf8(bytes.to_vec()).ok()
}

/// The text of a handshake of which `received` bytes came into the buffer, if it is UTF-8.
pub fn handshake_text(buf: &[u8], received: usize) -> (text: Option<String>)
    ensures
        ({
            let bytes = buf@.take(if received < buf@.len() { received as int } else { buf@.len() as int });
            match text {
                Some(t) => valid_utf8(bytes) && t@ == decode_utf8(bytes),
                None => !valid_utf8(bytes),
            }
        }),
{
    let n: usize = if received < buf.len() { received } else { buf.len() };
    assert(buf@.subrange(0, n as int) =~= buf@.take(n as int));
    decode_exact(slice_subrange(buf, 0, n))
}

/// With pages whose size is a power of two, the page of an address is the multiple of that size
/// at or below it, so that the address lies in the page.
pub proof fn page_holds_address(addr: usize, page_size: usize, n: nat)
    requires
        page_size == pow2(n),
        n < usize::BITS,
    ensures
        page_of(addr, page_size) == addr - addr % page_size,
        page_of(addr, page_size) % page_size == 0,
        page_of(addr, page_size) <= addr < page_of(addr, page_size) + page_size,
{
    lemma_pow2_pos(n);
    lemma_usize_low_bits_mask_is_mod(addr, n);
    let mask = (page_size - 1) as usize;
    assert(low_bits_mask(n) == mask);
    assert(addr & !mask == addr - (addr & mask)) by (bit_vector);
    lemma_fundamental_div_mod(addr as int, page_size as int);
    let q = addr as int / page_size as int;
    assert(page_of(addr, page_size) == page_size * q);
    lemma_mod_multiples_basic(q, page_size as int);
    assert(page_size * q == q * page_size) by (nonlinear_arith);
}

/// Whether a region consists of whole pages, fits the address space and lies within a memory file
/// of `file_len` bytes.
pub open spec fn is_sound(region: GuestRegionUffdMapping, page_size: usize, file_len: int) -> bool {
    &&& region.base() % page_size as int == 0
    &&& region.size as int % page_size as int == 0
    &&& region.base() + region.size <= usize::MAX
    &&& region.file_offset() + region.size <= file_len <= usize::MAX
}

/// Where every region is sound, a fault in one of them is answered with a copy from within the
/// memory file to within the region, of the page that the fault lies in, and the place in the
/// file is as far into the region's part of it as the page is into the region.
pub proof fn copies_within_file(
    mappings: Seq<GuestRegionUffdMapping>,
    page_size: usize,
    n: nat,
    file_len: int,
    addr: usize,
    i: int,
)
    requires
        page_size == pow2(n),
        n < usize::BITS,
        forall|j: int|
            0 <= j < mappings.len() ==> is_sound(#[trigger] mappings[j], page_size, file_len),
        0 <= i < mappings.len(),
        mappings[i].covers(addr as int),
    ensures
        exists|j: int|
            {
                &&& 0 <= j < mappings.len()
                &&& (#[trigger] mappings[j]).covers(addr as int)
                &&& fault_action(mappings, page_size, addr) matches FaultAction::Copy {
                    src_offset,
                    dst,
                    len,
                }
                &&& len == page_size
                &&& dst <= addr < dst + len
                &&& mappings[j].base() <= dst
                &&& dst + len <= mappings[j].base() + mappings[j].size
                &&& src_offset - mappings[j].file_offset() == dst - mappings[j].base()
                &&& src_offset + len <= file_len
            },
{
    page_holds_address(addr, page_size, n);
    lemma_pow2_pos(n);
    let page = page_of(addr, page_size);
    lemma_page_in_region(mappings[i], page_size, file_len, page as int, addr as int);
    lemma_found(mappings, page as int, i);
    lemma_located(mappings, page as int);
    let region = located(mappings, page as int)->Region_0;
    let j = choose|j: int| 0 <= j < mappings.len() && mappings[j] == region;
    assert(is_sound(mappings[j], page_size, file_len));
    lemma_whole_page(region, page_size, file_len, page as int);
    assert(mappings[j].covers(addr as int));
}

/// A fault whose page lies in no region is not answered with a copy.
pub proof fn no_copy_outside(mappings: Seq<GuestRegionUffdMapping>, page_size: usize, addr: usize)
    requires
        page_size > 0,
        forall|j: int|
            0 <= j < mappings.len() ==> !(#[trigger] mappings[j]).covers(
                page_of(addr, page_size) as int,
            ),
    ensures
        !(fault_action(mappings, page_size, addr) is Copy),
{
    lemma_located(mappings, page_of(addr, page_size) as int);
}

/// The page of an address in a region of whole pages lies in the region.
proof fn lemma_page_in_region(
    region: GuestRegionUffdMapping,
    page_size: usize,
    file_len: int,
    page: int,
    addr: int,
)
    requires
        page_size > 0,
        is_sound(region, page_size, file_len),
        region.covers(addr),
        page % page_size as int == 0,
        page <= addr < page + page_size,
    ensures
        region.covers(page),
{
    let p = page_size as int;
    let base = region.base();
    if page < base {
        lemma_multiples_apart(page, base, p);
    }
}

/// A page that starts in a region of whole pages ends in it.
proof fn lemma_whole_page(region: GuestRegionUffdMapping, page_size: usize, file_len: int, page: int)
    requires
        page_size > 0,
        is_sound(region, page_size, file_len),
        region.covers(page),
        page % page_size as int == 0,
    ensures
        page + page_size <= region.base() + region.size,
{
    let p = page_size as int;
    let end = region.base() + region.size;
    lemma_add_mod_noop(region.base(), region.size as int, p);
    assert(end % p == 0) by {
        assert((0int + 0int) % p == 0) by (nonlinear_arith)
            requires
                p > 0,
        ;
    }
    lemma_multiples_apart(page, end, p);
}

/// Two different multiples of a number are at least that number apart.
proof fn lemma_multiples_apart(a: int, b: int, p: int)
    requires
        p > 0,
        a % p == 0,
        b % p == 0,
        a < b,
    ensures
        a + p <= b,
{
    lemma_fundamental_div_mod(a, p);
    lemma_fundamental_div_mod(b, p);
    let x = a / p;
    let y = b / p;
    assert(x < y) by (nonlinear_arith)
        requires
            p > 0,
            a == p * x,
            b == p * y,
            a < b,
    ;
    assert(p * x + p <= p * y) by (nonlinear_arith)
        requires
            p > 0,
            x < y,
    ;
}

/// A region is found for an address that lies in one, if all regions fit the address space.
proof fn lemma_found(mappings: Seq<GuestRegionUffdMapping>, addr: int, i: int)
    requires
        0 <= i < mappings.len(),
        mappings[i].covers(addr),
        forall|j: int|
            0 <= j < mappings.len() ==> (#[trigger] mappings[j]).base() + mappings[j].size
                <= usize::MAX,
    ensures
        located(mappings, addr) is Region,
    decreases mappings.len(),
{
    assert(mappings[0].base() + mappings[0].size <= usize::MAX);
    if !mappings[0].covers(addr) {
        let rest = mappings.drop_first();
        assert forall|j: int| 0 <= j < rest.len() implies (#[trigger] rest[j]).base()
            + rest[j].size <= usize::MAX by {
            assert(rest[j] == mappings[j + 1]);
        }
        assert(rest[i - 1] == mappings[i]);
        lemma_found(rest, addr, i - 1);
    }
}

/// Where the search for the region of an address stops.
proof fn lemma_located_at(mappings: Seq<GuestRegionUffdMapping>, addr: int, i: int)
    requires
        0 <= i <= mappings.len(),
        forall|j: int|
            0 <= j < i ==> !(#[trigger] mappings[j]).covers(addr) && (addr < mappings[j].base()
                || mappings[j].base() + mappings[j].size <= usize::MAX),
    ensures
        i == mappings.len() ==> located(mappings, addr) is Nowhere,
        i < mappings.len() && addr >= mappings[i].base() && mappings[i].base() + mappings[i].size
            > usize::MAX ==> located(mappings, addr) is Overflow,
        i < mappings.len() && mappings[i].covers(addr) && mappings[i].base() + mappings[i].size
            <= usize::MAX ==> located(mappings, addr) == Located::Region(mappings[i]),
    decreases i,
{
    if i > 0 {
        let rest = mappings.drop_first();
        assert(!mappings[0].covers(addr));
        assert forall|j: int| 0 <= j < i - 1 implies !(#[trigger] rest[j]).covers(addr) && (addr
            < rest[j].base() || rest[j].base() + rest[j].size <= usize::MAX) by {
            assert(rest[j] == mappings[j + 1]);
        }
        lemma_located_at(rest, addr, i - 1);
    }
}

/// A region begins at the address and at the place in the file that its fields give, and ends
/// `size` bytes behind it.
pub proof fn region_is_what_its_fields_say(region: GuestRegionUffdMapping, addr: int)
    requires
        region.base_host_virt_addr <= usize::MAX,
        region.offset <= usize::MAX,
    ensures
        region.base() == region.base_host_virt_addr,
        region.file_offset() == region.offset,
        region.covers(addr) <==> region.base_host_virt_addr <= addr < region.base_host_virt_addr
            + region.size,
{
}

/// A fault is answered from the first region, by the fields of the regions, that holds the page of
/// the fault: the page is the address without its bits below the size of a page, and it is as far
/// into the region as what is copied is into the region's part of the file.
pub proof fn fault_is_answered_from_its_region(
    mappings: Seq<GuestRegionUffdMapping>,
    page_size: usize,
    addr: usize,
    page: usize,
    i: int,
)
    requires
        page_size > 0,
        page & ((page_size - 1) as usize) == 0,
        page | (addr & ((page_size - 1) as usize)) == addr,
        forall|j: int|
            0 <= j < mappings.len() ==> (#[trigger] mappings[j]).base_host_virt_addr <= usize::MAX
                && mappings[j].offset <= usize::MAX,
        0 <= i <= mappings.len(),
        forall|j: int|
            0 <= j < i ==> page < (#[trigger] mappings[j]).base_host_virt_addr || (
            mappings[j].base_host_virt_addr + mappings[j].size <= page
                && mappings[j].base_host_virt_addr + mappings[j].size <= usize::MAX),
        i < mappings.len() ==> mappings[i].base_host_virt_addr <= page && page
            < mappings[i].base_host_virt_addr + mappings[i].size,
    ensures
        i == mappings.len() ==> fault_action(mappings, page_size, addr) == (FaultAction::Unmapped {
            page_addr: page,
        }),
        i < mappings.len() && mappings[i].base_host_virt_addr + mappings[i].size > usize::MAX
            ==> fault_action(mappings, page_size, addr) is Overflow,
        i < mappings.len() && mappings[i].offset + (page - mappings[i].base_host_virt_addr)
            > usize::MAX ==> fault_action(mappings, page_size, addr) is Overflow,
        i < mappings.len() && mappings[i].base_host_virt_addr + mappings[i].size <= usize::MAX
            && mappings[i].offset + (page - mappings[i].base_host_virt_addr) <= usize::MAX ==> (
        fault_action(mappings, page_size, addr) matches FaultAction::Copy { src_offset, dst, len }
            && dst == page && len == page_size && src_offset - mappings[i].offset == dst
            - mappings[i].base_host_virt_addr),
{
    let mask = (page_size - 1) as usize;
    assert(page == addr & !mask) by (bit_vector)
        requires
            page & mask == 0,
            page | (addr & mask) == addr,
    ;
    assert forall|j: int| 0 <= j < i implies !(#[trigger] mappings[j]).covers(page as int) && (page
        < mappings[j].base() || mappings[j].base() + mappings[j].size <= usize::MAX) by {
        region_is_what_its_fields_say(mappings[j], page as int);
    }
    if i < mappings.len() {
        region_is_what_its_fields_say(mappings[i], page as int);
    }
    lemma_located_at(mappings, page as int, i);
}

/// With pages whose size is a power of two and regions of whole pages, a fault in a region brings
/// the page that holds its address, from as far into the region's part of the file.
pub proof fn fault_brings_the_page_around_it(
    mappings: Seq<GuestRegionUffdMapping>,
    page_size: usize,
    n: nat,
    addr: usize,
    i: int,
)
    requires
        page_size == pow2(n),
        n < usize::BITS,
        forall|j: int|
            0 <= j < mappings.len() ==> {
                let r = #[trigger] mappings[j];
                &&& r.base_host_virt_addr as int % page_size as int == 0
                &&& r.size as int % page_size as int == 0
                &&& r.base_host_virt_addr + r.size <= usize::MAX
                &&& r.offset + r.size <= usize::MAX
            },
        0 <= i < mappings.len(),
        mappings[i].base_host_virt_addr <= addr < mappings[i].base_host_virt_addr
            + mappings[i].size,
        forall|j: int|
            0 <= j < i ==> !((#[trigger] mappings[j]).base_host_virt_addr <= addr && addr
                < mappings[j].base_host_virt_addr + mappings[j].size),
    ensures
        fault_action(mappings, page_size, addr) matches FaultAction::Copy { src_offset, dst, len }
            && len == page_size && dst == addr - addr % page_size && src_offset
            - mappings[i].offset == dst - mappings[i].base_host_virt_addr && dst + len
            <= mappings[i].base_host_virt_addr + mappings[i].size,
{
    page_holds_address(addr, page_size, n);
    lemma_pow2_pos(n);
    let page = page_of(addr, page_size);
    let mask = (page_size - 1) as usize;
    assert(page & mask == 0 && page | (addr & mask) == addr) by (bit_vector)
        requires
            page == addr & !mask,
    ;
    assert forall|j: int| 0 <= j < i implies page < (#[trigger] mappings[j]).base_host_virt_addr
        || (mappings[j].base_host_virt_addr + mappings[j].size <= page
        && mappings[j].base_host_virt_addr + mappings[j].size <= usize::MAX) by {
        let r = mappings[j];
        region_is_what_its_fields_say(r, page as int);
        if r.covers(page as int) {
            lemma_whole_page(r, page_size, usize::MAX as int, page as int);
        }
    }
    let r = mappings[i];
    region_is_what_its_fields_say(r, addr as int);
    region_is_what_its_fields_say(r, page as int);
    lemma_page_in_region(r, page_size, usize::MAX as int, page as int, addr as int);
    lemma_whole_page(r, page_size, usize::MAX as int, page as int);
    fault_is_answered_from_its_region(mappings, page_size, addr, page, i);
}

/// Without a size, there are no pages to bring.
pub proof fn no_page_without_a_size(mappings: Seq<GuestRegionUffdMapping>, addr: usize)
    ensures
        fault_action(mappings, 0, addr) is Overflow,
{
}

} // verus!
