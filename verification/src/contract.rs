//! Contract addresses and the block number kept for each.

use vstd::prelude::*;

verus! {

/// Number of bytes of a contract address.
pub const CONTRACT_ADDR_SIZE: usize = 20;

/// Address of a contract that events come from.
#[derive(Clone, Copy, Debug)]
pub struct ContractAddr {
    bytes: [u8; 20],
}

impl View for ContractAddr {
    type V = Seq<u8>;

    closed spec fn view(&self) -> Seq<u8> {
        self.bytes@
    }
}

impl ContractAddr {
    pub fn new(bytes: [u8; 20]) -> (addr: Self)
        ensures
            addr@ == bytes@,
    {
        ContractAddr { bytes }
    }

    pub fn as_bytes(&self) -> (bytes: &[u8; 20])
        ensures
            bytes@ == self@,
    {
        &self.bytes
    }

    /// Whether two addresses hold the same bytes.
    pub fn same(&self, other: &ContractAddr) -> (b: bool)
        ensures
            b == (self@ == other@),
    {
        let mut i: usize = 0;
        while i < 20
            invariant
                0 <= i <= 20,
                forall|j: int| 0 <= j < i ==> self.bytes@[j] == other.bytes@[j],
            decreases 20 - i,
        {
            if self.bytes[i] != other.bytes[i] {
                return false;
            }
            i += 1;
        }
        assert(self.bytes@ =~= other.bytes@);
        true
    }
}

/// One row of the table: an address and the next block to poll from.
#[derive(Clone, Copy, Debug)]
pub struct BlockNumEntry {
    pub addr: ContractAddr,
    pub block_num: u64,
}

/// Index of the first row at or after `i` that is for `addr`; the length where
/// there is none.
pub open spec fn row_of(rows: Seq<BlockNumEntry>, addr: Seq<u8>, i: int) -> int
    decreases rows.len() - i,
{
    if 0 <= i < rows.len() && rows[i].addr@ != addr {
        row_of(rows, addr, i + 1)
    } else {
        i
    }
}

/// The table as a map: each address with the block number of its first row.
pub open spec fn table(rows: Seq<BlockNumEntry>) -> Map<Seq<u8>, u64> {
    Map::new(
        |addr: Seq<u8>| row_of(rows, addr, 0) < rows.len(),
        |addr: Seq<u8>| rows[row_of(rows, addr, 0)].block_num,
    )
}

/// Where the search for `addr` ends: within bounds, at a row for `addr` if at
/// any, and after none for it.
pub proof fn lemma_row_of(rows: Seq<BlockNumEntry>, addr: Seq<u8>, i: int)
    requires
        0 <= i <= rows.len(),
    ensures
        i <= row_of(rows, addr, i) <= rows.len(),
        row_of(rows, addr, i) < rows.len() ==> rows[row_of(rows, addr, i)].addr@ == addr,
        forall|j: int| i <= j < row_of(rows, addr, i) ==> (#[trigger] rows[j]).addr@ != addr,
    decreases rows.len() - i,
{
    if i < rows.len() && rows[i].addr@ != addr {
        lemma_row_of(rows, addr, i + 1);
    }
}

/// The search goes by the addresses alone, and ends at `end` where that is
/// the first row for `addr`.
pub proof fn lemma_row_of_is(rows: Seq<BlockNumEntry>, addr: Seq<u8>, i: int, end: int)
    requires
        0 <= i <= end <= rows.len(),
        forall|j: int| i <= j < end ==> (#[trigger] rows[j]).addr@ != addr,
        end < rows.len() ==> rows[end].addr@ == addr,
    ensures
        row_of(rows, addr, i) == end,
    decreases end - i,
{
    if i < end {
        lemma_row_of_is(rows, addr, i + 1, end);
    }
}

/// Writing a block number into the first row for an address stores it in the
/// table under that address and changes nothing else.
pub proof fn lemma_table_update(rows: Seq<BlockNumEntry>, at: int, row: BlockNumEntry)
    requires
        0 <= at < rows.len(),
        row_of(rows, row.addr@, 0) == at,
    ensures
        table(rows.update(at, row)) == table(rows).insert(row.addr@, row.block_num),
{
    let after = rows.update(at, row);
    let want = table(rows).insert(row.addr@, row.block_num);
    lemma_row_of(rows, row.addr@, 0);
    assert forall|addr: Seq<u8>|
        (#[trigger] table(after).dom().contains(addr)) == want.dom().contains(addr) && (
        want.dom().contains(addr) ==> table(after)[addr] == want[addr]) by {
        lemma_row_of(rows, addr, 0);
        let end = row_of(rows, addr, 0);
        assert forall|j: int| 0 <= j < end implies (#[trigger] after[j]).addr@ != addr by {
            assert(rows[j].addr@ != addr);
        }
        lemma_row_of_is(after, addr, 0, end);
    }
    assert(table(after) =~= want);
}

/// A new row for an address that has none stores its block number in the
/// table under that address and changes nothing else.
pub proof fn lemma_table_push(rows: Seq<BlockNumEntry>, row: BlockNumEntry)
    requires
        row_of(rows, row.addr@, 0) == rows.len(),
    ensures
        table(rows.push(row)) == table(rows).insert(row.addr@, row.block_num),
{
    let after = rows.push(row);
    let want = table(rows).insert(row.addr@, row.block_num);
    assert forall|addr: Seq<u8>|
        (#[trigger] table(after).dom().contains(addr)) == want.dom().contains(addr) && (
        want.dom().contains(addr) ==> table(after)[addr] == want[addr]) by {
        lemma_row_of(rows, addr, 0);
        let end = row_of(rows, addr, 0);
        if end < rows.len() || addr == row.addr@ {
            assert forall|j: int| 0 <= j < end implies (#[trigger] after[j]).addr@ != addr by {
                assert(rows[j].addr@ != addr);
            }
            lemma_row_of_is(after, addr, 0, end);
        } else {
            assert forall|j: int| 0 <= j < end + 1 implies (#[trigger] after[j]).addr@
                != addr by {
                if j < end {
                    assert(rows[j].addr@ != addr);
                }
            }
            lemma_row_of_is(after, addr, 0, end + 1);
        }
    }
    assert(table(after) =~= want);
}

/// The next block to poll from, for each contract. No address has two rows
/// that count: the first one does.
#[derive(Debug)]
pub struct BlockNumCounter {
    rows: Vec<BlockNumEntry>,
}

impl View for BlockNumCounter {
    type V = Map<Seq<u8>, u64>;

    closed spec fn view(&self) -> Map<Seq<u8>, u64> {
        table(self.rows@)
    }
}

impl BlockNumCounter {
    pub fn new() -> (counter: Self)
        ensures
            counter@ == Map::<Seq<u8>, u64>::empty(),
    {
        let counter = BlockNumCounter { rows: Vec::new() };
        assert(counter@ =~= Map::<Seq<u8>, u64>::empty());
        counter
    }

    /// Index of the first row for `addr`; the number of rows where there is none.
    fn find(&self, addr: &ContractAddr) -> (i: usize)
        ensures
            i == row_of(self.rows@, addr@, 0),
            i <= self.rows@.len(),
    {
        let mut i: usize = 0;
        while i < self.rows.len() && !self.rows[i].addr.same(addr)
            invariant
                0 <= i <= self.rows@.len(),
                row_of(self.rows@, addr@, 0) == row_of(self.rows@, addr@, i as int),
            decreases self.rows@.len() - i,
        {
            i += 1;
        }
        i
    }

    /// Stores `block_num` for `addr` and returns what was stored before.
    pub fn insert(&mut self, addr: ContractAddr, block_num: u64) -> (prior: Option<u64>)
        ensures
            final(self)@ == old(self)@.insert(addr@, block_num),
            prior == (if old(self)@.contains_key(addr@) {
                Some(old(self)@[addr@])
            } else {
                None
            }),
    {
        let i = self.find(&addr);
        let row = BlockNumEntry { addr, block_num };
        if i < self.rows.len() {
            let prior = self.rows[i].block_num;
            proof {
                lemma_table_update(self.rows@, i as int, row);
            }
            self.rows.set(i, row);
            Some(prior)
        } else {
            proof {
                lemma_table_push(self.rows@, row);
            }
            self.rows.push(row);
            None
        }
    }

    /// The block number stored for `addr`.
    pub fn get(&self, addr: &ContractAddr) -> (block_num: Option<u64>)
        ensures
            block_num == (if self@.contains_key(addr@) {
                Some(self@[addr@])
            } else {
                None
            }),
    {
        let i = self.find(addr);
        if i < self.rows.len() {
            Some(self.rows[i].block_num)
        } else {
            None
        }
    }
}

} // verus!
