use vstd::prelude::*;
use crate::error::VmError;

verus! {

/// `e` says that gas ran out in an import call, with `used` of `limit` spent.
pub open spec fn is_out_of_gas(e: VmError, limit: u64, used: u64) -> bool {
    e matches VmError::OutOfGas { limit: l, used: u, .. } && l == limit && u == used
}

/// Gas spent by the host on a contract's import calls, against an optional
/// limit.
#[derive(Debug, Clone, Copy)]
pub struct GasTracker {
    pub limit: Option<u64>,
    pub used: u64,
}

impl GasTracker {
    pub fn new(limit: Option<u64>) -> (r: GasTracker)
        ensures
            r.limit == limit,
            r.used == 0,
    {
        GasTracker { limit, used: 0 }
    }

    /// Charges `amount`. Fails with `OutOfGas`, charging nothing, where that
    /// would pass the limit; without a limit the count stops at `u64::MAX`.
    pub fn consume(&mut self, amount: u64, comment: &str) -> (r: Result<(), VmError>)
        requires
            old(self).limit matches Some(l) ==> old(self).used <= l,
        ensures
            final(self).limit == old(self).limit,
            final(self).limit matches Some(l) ==> final(self).used <= l,
            r is Ok == (old(self).limit matches Some(l) ==> old(self).used + amount <= l),
            r is Ok ==> final(self).used == if old(self).used + amount > u64::MAX {
                u64::MAX as int
            } else {
                old(self).used + amount
            },
            r is Err ==> final(self).used == old(self).used,
            r matches Err(e) ==> is_out_of_gas(e, old(self).limit->Some_0, old(self).used),
    {
        match self.limit {
            Some(l) => {
                if amount > l - self.used {
                    return Err(
                        VmError::OutOfGas { limit: l, used: self.used, comment: comment.to_owned() },
                    );
                }
                self.used = self.used + amount;
            },
            None => {
                self.used = self.used.saturating_add(amount);
            },
        }
        Ok(())
    }

    /// Gas still available, if there is a limit.
    pub fn remaining(&self) -> (r: Option<u64>)
        requires
            self.limit matches Some(l) ==> self.used <= l,
        ensures
            r == match self.limit {
                Some(l) => Some((l - self.used) as u64),
                None => None::<u64>,
            },
    {
        match self.limit {
            Some(l) => Some(l - self.used),
            None => None,
        }
    }
}

/// A region of guest memory: where it starts, how much it can hold, and how
/// much of it is in use.
#[derive(Debug, Clone, Copy)]
pub struct Region {
    pub offset: u32,
    pub capacity: u32,
    pub length: u32,
}

/// The region lies within guest memory of `memory_size` bytes and is
/// consistent.
pub open spec fn region_valid(region: Region, memory_size: u64) -> bool {
    &&& region.offset + region.capacity <= memory_size
    &&& region.length <= region.capacity
}

/// Checks a region that `data_len` bytes are to be written to: it must lie in
/// guest memory and hold them.
pub fn check_region_write(region: &Region, memory_size: u64, data_len: u32) -> (r: Result<(), VmError>)
    ensures
        r is Ok == (region_valid(*region, memory_size) && data_len <= region.capacity),
        r matches Err(e) ==> e == (VmError::RegionTooSmall {
            offset: region.offset,
            capacity: region.capacity,
            data_len,
        }),
{
    let end = region.offset as u64 + region.capacity as u64;
    if end > memory_size || region.length > region.capacity || data_len > region.capacity {
        return Err(
            VmError::RegionTooSmall { offset: region.offset, capacity: region.capacity, data_len },
        );
    }
    Ok(())
}

/// `e` says that `name` returned `actual` values where `expect` were due.
pub open spec fn is_return_count_error(e: VmError, name: Seq<char>, expect: usize, actual: usize) -> bool {
    e matches VmError::ReturnCount { name: n, expect: x, actual: y } && n@ == name && x == expect
        && y == actual
}

/// Checks that a call returned `expect` values.
pub fn check_return_count(name: &str, expect: usize, actual: usize) -> (r: Result<(), VmError>)
    ensures
        r is Ok == (expect == actual),
        r matches Err(e) ==> is_return_count_error(e, name@, expect, actual),
{
    if expect != actual {
        return Err(VmError::ReturnCount { name: name.to_owned(), expect, actual });
    }
    Ok(())
}

/// Range scans that a contract has open, by identifier. Identifiers are handed
/// out in increasing order and never reused.
#[derive(Debug, Clone)]
pub struct Iterators {
    next_id: i32,
    open: Vec<i32>,
}

impl Iterators {
    /// The identifier the next scan gets.
    pub closed spec fn next_id(&self) -> int {
        self.next_id as int
    }

    /// The identifiers of the open scans.
    pub closed spec fn open_ids(&self) -> Set<int> {
        Set::new(|id: int| has_id(self.open@, id))
    }

    pub closed spec fn wf(&self) -> bool {
        &&& 0 <= self.next_id
        &&& forall|i: int| 0 <= i < self.open@.len() ==> 0 <= #[trigger] self.open@[i] < self.next_id
    }

    pub fn new() -> (r: Iterators)
        ensures
            r.wf(),
            r.next_id() == 0,
            r.open_ids() == Set::<int>::empty(),
    {
        let r = Iterators { next_id: 0, open: Vec::new() };
        assert(r.open_ids() =~= Set::<int>::empty());
        r
    }

    /// Opens a scan and returns its identifier, greater than any before it.
    pub fn open(&mut self) -> (r: i32)
        requires
            old(self).wf(),
            old(self).next_id() < i32::MAX,
        ensures
            final(self).wf(),
            r == old(self).next_id(),
            final(self).next_id() == old(self).next_id() + 1,
            final(self).open_ids() == old(self).open_ids().insert(r as int),
    {
        let id = self.next_id;
        self.open.push(id);
        self.next_id = id + 1;
        proof {
            assert forall|x: int| #[trigger] self.open_ids().contains(x) == old(self).open_ids().insert(id as int).contains(x) by {
                lemma_has_id_push(old(self).open@, id, x);
            }
            assert(self.open_ids() =~= old(self).open_ids().insert(id as int));
        }
        id
    }

    fn position(&self, id: i32) -> (r: Option<usize>)
        ensures
            r is Some == self.open_ids().contains(id as int),
            r matches Some(i) ==> i < self.open@.len() && self.open@[i as int] == id,
    {
        let mut i: usize = 0;
        while i < self.open.len()
            invariant
                i <= self.open@.len(),
                forall|j: int| 0 <= j < i ==> self.open@[j] != id,
            decreases self.open@.len() - i,
        {
            if self.open[i] == id {
                return Some(i);
            }
            i = i + 1;
        }
        None
    }

    /// Checks that `id` names an open scan.
    pub fn check(&self, id: i32) -> (r: Result<(), VmError>)
        ensures
            r is Ok == self.open_ids().contains(id as int),
            r matches Err(e) ==> e == (VmError::IteratorNotFound { iterator_id: id }),
    {
        match self.position(id) {
            Some(_) => Ok(()),
            None => Err(VmError::IteratorNotFound { iterator_id: id }),
        }
    }

    /// Closes the scan `id`.
    pub fn close(&mut self, id: i32) -> (r: Result<(), VmError>)
        requires
            old(self).wf(),
        ensures
            final(self).wf(),
            final(self).next_id() == old(self).next_id(),
            r is Ok == old(self).open_ids().contains(id as int),
            r is Ok ==> final(self).open_ids() == old(self).open_ids().remove(id as int),
            r matches Err(e) ==> final(self).open_ids() == old(self).open_ids() && e == (
            VmError::IteratorNotFound { iterator_id: id }),
    {
        if self.position(id).is_none() {
            return Err(VmError::IteratorNotFound { iterator_id: id });
        }
        let mut kept: Vec<i32> = Vec::new();
        let mut i: usize = 0;
        while i < self.open.len()
            invariant
                i <= self.open@.len(),
                self.open@ == old(self).open@,
                self.next_id == old(self).next_id,
                old(self).wf(),
                forall|j: int| 0 <= j < kept@.len() ==> 0 <= #[trigger] kept@[j] < self.next_id,
                forall|x: int| #[trigger] has_id(kept@, x) == (x != id && has_id(self.open@.subrange(0, i as int), x)),
            decreases self.open@.len() - i,
        {
            let v = self.open[i];
            let ghost before = kept@;
            if v != id {
                kept.push(v);
            }
            proof {
                assert(self.open@.subrange(0, i + 1) =~= self.open@.subrange(0, i as int).push(v));
                assert forall|x: int| #[trigger] has_id(kept@, x) == (x != id && has_id(self.open@.subrange(0, i + 1), x)) by {
                    lemma_has_id_push(self.open@.subrange(0, i as int), v, x);
                    if v != id {
                        lemma_has_id_push(before, v, x);
                    }
                }
            }
            i = i + 1;
        }
        proof {
            assert(self.open@.subrange(0, self.open@.len() as int) =~= self.open@);
        }
        self.open = kept;
        proof {
            assert forall|x: int| #[trigger] self.open_ids().contains(x) == old(self).open_ids().remove(id as int).contains(x) by {
                assert(self.open_ids().contains(x) == has_id(self.open@, x));
                assert(old(self).open_ids().contains(x) == has_id(old(self).open@, x));
            }
            assert(self.open_ids() =~= old(self).open_ids().remove(id as int));
        }
        Ok(())
    }
}

/// `x` occurs in `s`.
pub open spec fn has_id(s: Seq<i32>, x: int) -> bool {
    exists|j: int| 0 <= j < s.len() && s[j] == x
}

proof fn lemma_has_id_push(s: Seq<i32>, v: i32, x: int)
    ensures
        has_id(s.push(v), x) == (has_id(s, x) || x == v),
{
    if has_id(s, x) {
        let j = choose|j: int| 0 <= j < s.len() && s[j] == x;
        assert(s.push(v)[j] == x);
    }
    if x == v {
        assert(s.push(v)[s.len() as int] == x);
    }
    if has_id(s.push(v), x) && x != v {
        let j = choose|j: int| 0 <= j < s.len() + 1 && s.push(v)[j] == x;
        assert(s[j] == x);
    }
}

} // verus!
