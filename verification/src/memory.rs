//! The handle table behind the boundary.
//!
//! A host that shares no address space with the engine exchanges buffers by
//! `(address, length)` descriptors. Every such buffer is created here, is
//! owned by the table until the host releases it, and is released exactly once
//! with the length it was reserved with. An address is a handle: it is never
//! zero and never handed out twice, so a stale descriptor is detected and
//! refused.

use vstd::prelude::*;
use vstd::slice::slice_subrange;
use vstd::slice::slice_to_vec;
use crate::error::CryptoError;

verus! {

/// One buffer that the host currently owns.
struct Region {
    addr: usize,
    bytes: Vec<u8>,
}

/// All buffers currently handed out, by address.
pub struct BoundaryMemory {
    regions: Vec<Region>,
    next: usize,
    max_len: usize,
}

/// A buffer of `size` zero bytes: the contents of a fresh reservation.
pub open spec fn zeros(size: nat) -> Seq<u8> {
    Seq::new(size, |i: int| 0u8)
}

/// `current` with its first bytes replaced by `data`.
pub open spec fn overwritten(current: Seq<u8>, data: Seq<u8>) -> Seq<u8> {
    data + current.skip(data.len() as int)
}

/// Whether the descriptor `(addr, len)` names bytes of a live buffer of `m`.
pub open spec fn names(m: Map<usize, Seq<u8>>, addr: usize, len: usize) -> bool {
    m.dom().contains(addr) && len <= m[addr].len()
}

/// The bytes that a valid descriptor `(addr, len)` names.
pub open spec fn named_bytes(m: Map<usize, Seq<u8>>, addr: usize, len: usize) -> Seq<u8> {
    m[addr].take(len as int)
}

/// Copies the bytes of `source` from index `from` up to, not including, `to`.
pub(crate) fn copy_range(source: &[u8], from: usize, to: usize) -> (copy: Vec<u8>)
    requires
        from <= to <= source@.len(),
    ensures
        copy@ == source@.subrange(from as int, to as int),
{
    slice_to_vec(slice_subrange(source, from, to))
}

/// A vector of `size` zero bytes.
fn zeroed(size: usize) -> (bytes: Vec<u8>)
    ensures
        bytes@ == zeros(size as nat),
{
    let mut bytes: Vec<u8> = Vec::new();
    let mut i: usize = 0;
    while i < size
        invariant
            i <= size,
            bytes@ == zeros(i as nat),
        decreases size - i,
    {
        bytes.push(0u8);
        i += 1;
        assert(bytes@ =~= zeros(i as nat));
    }
    bytes
}

impl BoundaryMemory {
    /// No address is live twice, every live address lies below the next one
    /// to be handed out, and no buffer exceeds the table's length limit.
    #[verifier::type_invariant]
    closed spec fn wf(self) -> bool {
        &&& 1 <= self.next
        &&& forall|i: int|
            0 <= i < self.regions@.len() ==> {
                &&& 1 <= (#[trigger] self.regions@[i]).addr < self.next
                &&& self.regions@[i].bytes@.len() <= self.max_len
            }
        &&& forall|i: int, j: int|
            0 <= i < j < self.regions@.len() ==> (#[trigger] self.regions@[i]).addr != (
            #[trigger] self.regions@[j]).addr
    }

    /// The live buffers: each address with the bytes stored under it.
    pub closed spec fn view(&self) -> Map<usize, Seq<u8>> {
        Map::new(
            |a: usize|
                exists|i: int| 0 <= i < self.regions@.len() && (#[trigger] self.regions@[i]).addr == a,
            |a: usize|
                self.regions@[choose|i: int|
                    0 <= i < self.regions@.len() && (#[trigger] self.regions@[i]).addr == a].bytes@,
        )
    }

    /// The address that the next reservation will get.
    pub closed spec fn frontier(&self) -> usize {
        self.next
    }

    /// The longest buffer that the table reserves.
    pub closed spec fn max_len(&self) -> usize {
        self.max_len
    }

    /// Whether `count` more buffers, none longer than `longest`, can be reserved.
    pub open spec fn has_room(&self, count: int, longest: int) -> bool {
        longest <= self.max_len() && self.frontier() + count <= usize::MAX
    }

    /// The region at index `i` is live, and the view holds its bytes.
    proof fn lemma_region(&self, i: int)
        requires
            self.wf(),
            0 <= i < self.regions@.len(),
        ensures
            self@.dom().contains(self.regions@[i].addr),
            self@[self.regions@[i].addr] == self.regions@[i].bytes@,
            1 <= self.regions@[i].addr < self.frontier(),
            self.regions@[i].bytes@.len() <= self.max_len(),
    {
        let a = self.regions@[i].addr;
        let j = choose|j: int| 0 <= j < self.regions@.len() && (#[trigger] self.regions@[j]).addr == a;
        assert(j == i);
    }

    /// A live address is that of some region, whose bytes the view holds.
    proof fn lemma_live(&self, a: usize) -> (i: int)
        requires
            self.wf(),
            self@.dom().contains(a),
        ensures
            0 <= i < self.regions@.len(),
            self.regions@[i].addr == a,
            self@[a] == self.regions@[i].bytes@,
    {
        let i = choose|i: int| 0 <= i < self.regions@.len() && (#[trigger] self.regions@[i]).addr == a;
        self.lemma_region(i);
        i
    }

    /// Every live address is nonzero and below the frontier, and every live
    /// buffer respects the length limit.
    proof fn lemma_live_bounds(&self, a: usize)
        requires
            self.wf(),
            self@.dom().contains(a),
        ensures
            1 <= a < self.frontier(),
            self@[a].len() <= self.max_len(),
    {
        let i = self.lemma_live(a);
        self.lemma_region(i);
    }

    /// An empty table whose buffers may be up to `max_len` bytes long.
    pub fn new(max_len: usize) -> (mem: BoundaryMemory)
        ensures
            mem@ == Map::<usize, Seq<u8>>::empty(),
            mem.frontier() == 1,
            mem.max_len() == max_len,
    {
        let mem = BoundaryMemory { regions: Vec::new(), next: 1, max_len };
        assert(mem@ =~= Map::<usize, Seq<u8>>::empty());
        mem
    }

    /// Whether `count` more buffers, none longer than `longest`, can be reserved.
    pub fn room(&self, count: usize, longest: usize) -> (ok: bool)
        ensures
            ok == self.has_room(count as int, longest as int),
    {
        longest <= self.max_len && count <= usize::MAX - self.next
    }

    /// The index of the region at `addr`, if the address is live.
    fn find(&self, addr: usize) -> (slot: Option<usize>)
        ensures
            match slot {
                Some(i) => i < self.regions@.len() && self.regions@[i as int].addr == addr
                    && self@.dom().contains(addr) && self@[addr] == self.regions@[i as int].bytes@,
                None => !self@.dom().contains(addr),
            },
    {
        proof {
            use_type_invariant(self);
        }
        let mut i: usize = 0;
        while i < self.regions.len()
            invariant
                self.wf(),
                i <= self.regions@.len(),
                forall|k: int| 0 <= k < i ==> (#[trigger] self.regions@[k]).addr != addr,
            decreases self.regions@.len() - i,
        {
            if self.regions[i].addr == addr {
                proof {
                    self.lemma_region(i as int);
                }
                return Some(i);
            }
            i += 1;
        }
        None
    }

    /// Places `bytes` under the next address.
    fn install(&mut self, bytes: Vec<u8>) -> (addr: usize)
        requires
            old(self).has_room(1, bytes@.len() as int),
        ensures
            addr == old(self).frontier(),
            addr >= 1,
            !old(self)@.dom().contains(addr),
            final(self)@ == old(self)@.insert(addr, bytes@),
            final(self).frontier() == addr + 1,
            final(self).max_len() == old(self).max_len(),
    {
        proof {
            use_type_invariant(&*self);
        }
        let addr = self.next;
        let ghost before = *self;
        let ghost content = bytes@;
        let mut regions: Vec<Region> = Vec::new();
        std::mem::swap(&mut regions, &mut self.regions);
        regions.push(Region { addr, bytes });
        self.next = addr + 1;
        proof {
            let n = before.regions@.len() as int;
            assert(regions@[n].addr == addr);
            assert forall|k: int| 0 <= k < n implies regions@[k] == before.regions@[k] by {}
        }
        self.regions = regions;
        proof {
            let after = *self;
            let n = before.regions@.len() as int;
            if before@.dom().contains(addr) {
                before.lemma_live_bounds(addr);
            }
            let target = before@.insert(addr, content);
            assert forall|i: int| 0 <= i < after.regions@.len() implies target.dom().contains(
                (#[trigger] after.regions@[i]).addr,
            ) && target[after.regions@[i].addr] == after.regions@[i].bytes@ by {
                if i < n {
                    before.lemma_region(i);
                }
            }
            assert forall|a: usize| target.dom().contains(a) implies exists|i: int|
                0 <= i < after.regions@.len() && (#[trigger] after.regions@[i]).addr == a by {
                if a == addr {
                    assert(after.regions@[n].addr == a);
                } else {
                    let i = before.lemma_live(a);
                    assert(after.regions@[i].addr == a);
                }
            }
            after.lemma_view_is(target);
        }
        addr
    }

    /// A map that agrees with the table on every region, and holds nothing
    /// else, is the table's view.
    proof fn lemma_view_is(&self, m: Map<usize, Seq<u8>>)
        requires
            self.wf(),
            forall|i: int|
                0 <= i < self.regions@.len() ==> m.dom().contains((#[trigger] self.regions@[i]).addr)
                    && m[self.regions@[i].addr] == self.regions@[i].bytes@,
            forall|a: usize|
                m.dom().contains(a) ==> exists|i: int|
                    0 <= i < self.regions@.len() && (#[trigger] self.regions@[i]).addr == a,
        ensures
            self@ == m,
    {
        assert forall|a: usize| self@.dom().contains(a) <==> m.dom().contains(a) by {
            if self@.dom().contains(a) {
                let i = self.lemma_live(a);
            }
        }
        assert forall|a: usize| self@.dom().contains(a) implies self@[a] == m[a] by {
            let i = self.lemma_live(a);
        }
        assert(self@ =~= m);
    }

    /// Hands `bytes` over to the host in a buffer of their own and returns its
    /// address. Fails, changing nothing, when the table has no room for it.
    pub fn store(&mut self, bytes: &[u8]) -> (r: Result<usize, CryptoError>)
        ensures
            final(self).max_len() == old(self).max_len(),
            match r {
                Ok(addr) => {
                    &&& old(self).has_room(1, bytes@.len() as int)
                    &&& addr == old(self).frontier()
                    &&& addr != 0
                    &&& !old(self)@.dom().contains(addr)
                    &&& final(self)@ == old(self)@.insert(addr, bytes@)
                    &&& final(self).frontier() == addr + 1
                },
                Err(e) => {
                    &&& !old(self).has_room(1, bytes@.len() as int)
                    &&& e == CryptoError::AllocationFailure
                    &&& *final(self) == *old(self)
                },
            },
    {
        if !self.room(1, bytes.len()) {
            return Err(CryptoError::AllocationFailure);
        }
        let copy = copy_range(bytes, 0, bytes.len());
        assert(bytes@.subrange(0, bytes@.len() as int) =~= bytes@);
        Ok(self.install(copy))
    }

    /// Copies `data` over the first bytes of the buffer at `addr`, as the host
    /// does when it stages an input. Refuses a buffer that is not live or is
    /// shorter than `data`.
    pub fn write(&mut self, addr: usize, data: &[u8]) -> (r: Result<(), CryptoError>)
        ensures
            final(self).max_len() == old(self).max_len(),
            final(self).frontier() == old(self).frontier(),
            match r {
                Ok(_) => {
                    &&& names(old(self)@, addr, data.len())
                    &&& final(self)@ == old(self)@.insert(addr, overwritten(old(self)@[addr], data@))
                },
                Err(e) => {
                    &&& !names(old(self)@, addr, data.len())
                    &&& e == CryptoError::ContractViolation
                    &&& *final(self) == *old(self)
                },
            },
    {
        let slot = match self.find(addr) {
            Some(slot) => slot,
            None => {
                return Err(CryptoError::ContractViolation);
            },
        };
        let size = self.regions[slot].bytes.len();
        if data.len() > size {
            return Err(CryptoError::ContractViolation);
        }
        proof {
            use_type_invariant(&*self);
        }
        let ghost before = *self;
        let mut bytes = copy_range(data, 0, data.len());
        let mut rest = copy_range(self.regions[slot].bytes.as_slice(), data.len(), size);
        bytes.append(&mut rest);
        let ghost content = bytes@;
        let mut regions: Vec<Region> = Vec::new();
        std::mem::swap(&mut regions, &mut self.regions);
        regions.set(slot, Region { addr, bytes });
        proof {
            assert(content =~= overwritten(before@[addr], data@));
            assert forall|k: int| 0 <= k < before.regions@.len() && k != slot implies regions@[k]
                == before.regions@[k] by {}
            assert(regions@[slot as int].addr == before.regions@[slot as int].addr);
            assert forall|i: int| 0 <= i < regions@.len() implies 1 <= (#[trigger] regions@[i]).addr
                < before.next && regions@[i].bytes@.len() <= before.max_len by {
                before.lemma_region(i);
            }
            assert forall|i: int, j: int| 0 <= i < j < regions@.len() implies (
            #[trigger] regions@[i]).addr != (#[trigger] regions@[j]).addr by {
                assert(regions@[i].addr == before.regions@[i].addr);
                assert(regions@[j].addr == before.regions@[j].addr);
            }
        }
        self.regions = regions;
        proof {
            let after = *self;
            let target = before@.insert(addr, content);
            assert forall|i: int| 0 <= i < after.regions@.len() implies target.dom().contains(
                (#[trigger] after.regions@[i]).addr,
            ) && target[after.regions@[i].addr] == after.regions@[i].bytes@ by {
                before.lemma_region(i);
            }
            assert forall|a: usize| target.dom().contains(a) implies exists|i: int|
                0 <= i < after.regions@.len() && (#[trigger] after.regions@[i]).addr == a by {
                if a == addr {
                    assert(after.regions@[slot as int].addr == a);
                } else {
                    let i = before.lemma_live(a);
                    assert(after.regions@[i].addr == a);
                }
            }
            after.lemma_view_is(target);
        }
        Ok(())
    }

    /// Borrows the bytes that the descriptor `(addr, len)` names: the first
    /// `len` bytes of the live buffer at `addr`. Nothing is copied.
    pub fn read(&self, addr: usize, len: usize) -> (r: Result<&[u8], CryptoError>)
        ensures
            match r {
                Ok(bytes) => names(self@, addr, len) && bytes@ == named_bytes(self@, addr, len),
                Err(e) => !names(self@, addr, len) && e == CryptoError::ContractViolation,
            },
    {
        match self.find(addr) {
            Some(slot) => {
                if len > self.regions[slot].bytes.len() {
                    return Err(CryptoError::ContractViolation);
                }
                Ok(slice_subrange(self.regions[slot].bytes.as_slice(), 0, len))
            },
            None => Err(CryptoError::ContractViolation),
        }
    }
}

/// Reserves a zero-filled buffer of `size` bytes for the host and returns its
/// address. The host owns the buffer until it releases it with the same size.
pub fn wasm_alloc(mem: &mut BoundaryMemory, size: usize) -> (r: Result<usize, CryptoError>)
    ensures
        final(mem).max_len() == old(mem).max_len(),
        match r {
            Ok(addr) => {
                &&& old(mem).has_room(1, size as int)
                &&& addr == old(mem).frontier()
                &&& addr != 0
                &&& !old(mem)@.dom().contains(addr)
                &&& final(mem)@ == old(mem)@.insert(addr, zeros(size as nat))
                &&& final(mem).frontier() == addr + 1
            },
            Err(e) => {
                &&& !old(mem).has_room(1, size as int)
                &&& e == CryptoError::AllocationFailure
                &&& *final(mem) == *old(mem)
            },
        },
{
    if !mem.room(1, size) {
        return Err(CryptoError::AllocationFailure);
    }
    let bytes = zeroed(size);
    Ok(mem.install(bytes))
}

/// Takes back the buffer at `addr`, which must be live and `size` bytes long.
/// Anything else (an address never handed out, one already released, another
/// size) is a violation of the hand-off protocol: it is refused and nothing
/// changes.
pub fn wasm_dealloc(mem: &mut BoundaryMemory, addr: usize, size: usize) -> (r: Result<
    (),
    CryptoError,
>)
    ensures
        final(mem).max_len() == old(mem).max_len(),
        final(mem).frontier() == old(mem).frontier(),
        match r {
            Ok(_) => {
                &&& old(mem)@.dom().contains(addr)
                &&& old(mem)@[addr].len() == size
                &&& final(mem)@ == old(mem)@.remove(addr)
            },
            Err(e) => {
                &&& !(old(mem)@.dom().contains(addr) && old(mem)@[addr].len() == size)
                &&& e == CryptoError::ContractViolation
                &&& *final(mem) == *old(mem)
            },
        },
{
    let slot = match mem.find(addr) {
        Some(slot) => slot,
        None => {
            return Err(CryptoError::ContractViolation);
        },
    };
    if mem.regions[slot].bytes.len() != size {
        return Err(CryptoError::ContractViolation);
    }
    proof {
        use_type_invariant(&*mem);
    }
    let ghost before = *mem;
    let mut regions: Vec<Region> = Vec::new();
    std::mem::swap(&mut regions, &mut mem.regions);
    let _ = regions.remove(slot);
    proof {
        let s = slot as int;
        assert forall|k: int| 0 <= k < regions@.len() implies regions@[k] == (if k < s {
            before.regions@[k]
        } else {
            before.regions@[k + 1]
        }) by {}
        assert forall|i: int| 0 <= i < regions@.len() implies 1 <= (#[trigger] regions@[i]).addr
            < before.next && regions@[i].bytes@.len() <= before.max_len by {
            if i < s {
                before.lemma_region(i);
            } else {
                before.lemma_region(i + 1);
            }
        }
        assert forall|i: int, j: int| 0 <= i < j < regions@.len() implies (
        #[trigger] regions@[i]).addr != (#[trigger] regions@[j]).addr by {
            let bi = if i < s { i } else { i + 1 };
            let bj = if j < s { j } else { j + 1 };
            assert(before.regions@[bi].addr != before.regions@[bj].addr);
        }
    }
    mem.regions = regions;
    proof {
        let after = *mem;
        let s = slot as int;
        let target = before@.remove(addr);
        assert forall|i: int| 0 <= i < after.regions@.len() implies target.dom().contains(
            (#[trigger] after.regions@[i]).addr,
        ) && target[after.regions@[i].addr] == after.regions@[i].bytes@ by {
            let bi = if i < s { i } else { i + 1 };
            before.lemma_region(bi);
            assert(before.regions@[bi].addr != before.regions@[s].addr);
        }
        assert forall|a: usize| target.dom().contains(a) implies exists|i: int|
            0 <= i < after.regions@.len() && (#[trigger] after.regions@[i]).addr == a by {
            let bi = before.lemma_live(a);
            let i = if bi < s { bi } else { bi - 1 };
            assert(after.regions@[i].addr == a);
        }
        after.lemma_view_is(target);
    }
    Ok(())
}

/// A buffer that is reserved, written and released leaves the table as it
/// was: while it is live it holds the bytes written to it, every other live
/// buffer keeps its address and its bytes throughout, and once it is
/// released nothing of it remains.
pub proof fn lemma_reserve_release(m: Map<usize, Seq<u8>>, addr: usize, size: usize, pattern: Seq<u8>)
    requires
        !m.dom().contains(addr),
        pattern.len() <= size,
    ensures
        ({
            let reserved = m.insert(addr, zeros(size as nat));
            let written = reserved.insert(addr, overwritten(reserved[addr], pattern));
            &&& names(reserved, addr, size)
            &&& named_bytes(written, addr, pattern.len() as usize) == pattern
            &&& written[addr].len() == size
            &&& forall|other: usize|
                m.dom().contains(other) ==> reserved.dom().contains(other) && reserved[other]
                    == m[other] && written.dom().contains(other) && written[other] == m[other]
            &&& written.remove(addr) == m
            &&& reserved.remove(addr) == m
        }),
{
    let reserved = m.insert(addr, zeros(size as nat));
    let written = reserved.insert(addr, overwritten(reserved[addr], pattern));
    assert(named_bytes(written, addr, pattern.len() as usize) =~= pattern);
    assert(written.remove(addr) =~= m);
    assert(reserved.remove(addr) =~= m);
}

} // verus!
