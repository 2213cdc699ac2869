//! The record store: storage slots by address, changed only by whole
//! invocations.
//!
//! A slot holds the bytes of one record. Operations do not write to the
//! store; they stage writes in an [`Invocation`]. [`Store::commit`] applies
//! a staged log in full, or not at all.
use crate::address::{copy_bytes, Address};
use crate::error::IntroError;
use crate::layout::{
    intro_view, parse_counter, parse_intro, parse_reply, reply_view, Reply, ReplyCounter,
    ReplyView, StudentInfo, StudentInfoView,
};
use crate::ledger::{ledger_view, LedgerCall, LedgerCallView};
use vstd::prelude::*;

verus! {

/// What a store holds, as a mathematical value: the bytes at each
/// populated address.
pub type Records = Map<Seq<u8>, Seq<u8>>;

/// A staged change to one storage slot.
#[derive(Clone, Debug, PartialEq, Eq)]
pub enum Write {
    /// Allocate a slot of exactly `data.len()` bytes at a vacant
    /// `address`, charged to `payer`, and fill it with `data`.
    Create { address: Address, payer: Address, data: Vec<u8> },
    /// Resize the slot at `address` to exactly `data.len()` bytes, the
    /// difference in cost charged or refunded to `payer`, and fill it with
    /// `data`.
    Resize { address: Address, payer: Address, data: Vec<u8> },
    /// Free the slot at `address` and refund its cost to `refund_to`.
    Destroy { address: Address, refund_to: Address },
}

/// A staged change as a mathematical value.
pub enum WriteView {
    Create { address: Seq<u8>, payer: Seq<u8>, data: Seq<u8> },
    Resize { address: Seq<u8>, payer: Seq<u8>, data: Seq<u8> },
    Destroy { address: Seq<u8>, refund_to: Seq<u8> },
}

impl View for Write {
    type V = WriteView;

    open spec fn view(&self) -> WriteView {
        match *self {
            Write::Create { address, payer, data } => WriteView::Create {
                address: address@,
                payer: payer@,
                data: data@,
            },
            Write::Resize { address, payer, data } => WriteView::Resize {
                address: address@,
                payer: payer@,
                data: data@,
            },
            Write::Destroy { address, refund_to } => WriteView::Destroy {
                address: address@,
                refund_to: refund_to@,
            },
        }
    }
}

/// Everything one operation wants done: its staged writes, in order, and
/// the call it wants made on the token ledger.
#[derive(Clone, Debug, PartialEq, Eq)]
pub struct Invocation {
    pub writes: Vec<Write>,
    pub ledger: Option<LedgerCall>,
}

/// An invocation as a mathematical value.
pub struct InvocationView {
    pub writes: Seq<WriteView>,
    pub ledger: Option<LedgerCallView>,
}

impl View for Invocation {
    type V = InvocationView;

    open spec fn view(&self) -> InvocationView {
        InvocationView {
            writes: self.writes@.map_values(|w: Write| w@),
            ledger: ledger_view(self.ledger),
        }
    }
}

/// How the calls outside the store went for an invocation.
#[derive(Clone, Copy, Debug, PartialEq, Eq, Structural)]
pub enum Settlement {
    /// The storage was paid for and the ledger made its call.
    Accepted,
    /// A payer could not cover the cost of the storage asked for.
    InsufficientFunds,
    /// The ledger refused its call.
    LedgerRejected,
}

/// The bytes of a slot after it is resized: cut to the new size, or
/// extended to it with zero bytes.
pub open spec fn resized(data: Seq<u8>, size: nat) -> Seq<u8> {
    if size <= data.len() {
        data.subrange(0, size as int)
    } else {
        data + Seq::new((size - data.len()) as nat, |i: int| 0u8)
    }
}

/// What the records are once one write is applied, or why it cannot be.
pub open spec fn applied(records: Records, ceiling: nat, write: WriteView) -> Result<
    Records,
    IntroError,
> {
    match write {
        WriteView::Create { address, payer, data } => {
            if records.contains_key(address) {
                Err(IntroError::DuplicateRecord)
            } else if data.len() > ceiling {
                Err(IntroError::SizeOverflow)
            } else {
                Ok(records.insert(address, data))
            }
        },
        WriteView::Resize { address, payer, data } => {
            if !records.contains_key(address) {
                Err(IntroError::NotFound)
            } else if data.len() > ceiling {
                Err(IntroError::SizeOverflow)
            } else {
                Ok(records.insert(address, data))
            }
        },
        WriteView::Destroy { address, refund_to } => {
            if !records.contains_key(address) {
                Err(IntroError::NotFound)
            } else {
                Ok(records.remove(address))
            }
        },
    }
}

/// The address of the slot that a write changes.
pub open spec fn write_address(write: WriteView) -> Seq<u8> {
    match write {
        WriteView::Create { address, payer, data } => address,
        WriteView::Resize { address, payer, data } => address,
        WriteView::Destroy { address, refund_to } => address,
    }
}

/// What the records are once the writes are applied one after the other,
/// or the failure of the first that cannot be.
pub open spec fn applied_all(records: Records, ceiling: nat, writes: Seq<WriteView>) -> Result<
    Records,
    IntroError,
>
    decreases writes.len(),
{
    if writes.len() == 0 {
        Ok(records)
    } else {
        match applied(records, ceiling, writes[0]) {
            Ok(next) => applied_all(next, ceiling, writes.drop_first()),
            Err(e) => Err(e),
        }
    }
}

/// A log of one write comes to that write.
pub proof fn lemma_applied_one(records: Records, ceiling: nat, write: WriteView)
    ensures
        applied_all(records, ceiling, seq![write]) == applied(records, ceiling, write),
{
    let writes = seq![write];
    assert(writes.drop_first() =~= Seq::<WriteView>::empty());
    reveal_with_fuel(applied_all, 2);
}

/// A log of two writes comes to the first, then the second on what the
/// first left.
pub proof fn lemma_applied_two(records: Records, ceiling: nat, first: WriteView, second: WriteView)
    ensures
        applied_all(records, ceiling, seq![first, second]) == match applied(
            records,
            ceiling,
            first,
        ) {
            Ok(next) => applied(next, ceiling, second),
            Err(e) => Err(e),
        },
{
    let writes = seq![first, second];
    assert(writes.drop_first() =~= seq![second]);
    assert(writes[0] == first);
    match applied(records, ceiling, first) {
        Ok(next) => {
            lemma_applied_one(next, ceiling, second);
        },
        Err(e) => {},
    }
}

/// What the records are once an invocation is settled: untouched unless
/// the calls outside were accepted and every write can be applied.
pub open spec fn settled(
    records: Records,
    ceiling: nat,
    writes: Seq<WriteView>,
    settlement: Settlement,
) -> Result<Records, IntroError> {
    match settlement {
        Settlement::InsufficientFunds => Err(IntroError::InsufficientFunds),
        Settlement::LedgerRejected => Err(IntroError::ExternalLedgerFailure),
        Settlement::Accepted => applied_all(records, ceiling, writes),
    }
}

/// The introduction stored at the address, if one is.
pub open spec fn stored_intro(records: Records, address: Seq<u8>) -> Option<StudentInfoView> {
    if records.contains_key(address) {
        parse_intro(records[address])
    } else {
        None
    }
}

/// The reply counter stored at the address, if one is.
pub open spec fn stored_counter(records: Records, address: Seq<u8>) -> Option<ReplyCounter> {
    if records.contains_key(address) {
        parse_counter(records[address])
    } else {
        None
    }
}

/// The reply stored at the address, if one is.
pub open spec fn stored_reply(records: Records, address: Seq<u8>) -> Option<ReplyView> {
    if records.contains_key(address) {
        parse_reply(records[address])
    } else {
        None
    }
}

/// One storage slot.
struct Slot {
    address: Address,
    data: Vec<u8>,
}

/// No two slots have the same address.
spec fn distinct(slots: Seq<Slot>) -> bool {
    forall|i: int, j: int| 0 <= i < j < slots.len() ==> slots[i].address@ != slots[j].address@
}

/// Whether some slot has the address.
spec fn occupied(slots: Seq<Slot>, address: Seq<u8>) -> bool {
    exists|i: int| 0 <= i < slots.len() && slots[i].address@ == address
}

/// The index of a slot with the address.
spec fn position(slots: Seq<Slot>, address: Seq<u8>) -> int {
    choose|i: int| 0 <= i < slots.len() && slots[i].address@ == address
}

/// The records that the slots hold.
spec fn contents(slots: Seq<Slot>) -> Records {
    Map::new(
        |address: Seq<u8>| occupied(slots, address),
        |address: Seq<u8>| slots[position(slots, address)].data@,
    )
}

proof fn lemma_slot(slots: Seq<Slot>, i: int)
    requires
        distinct(slots),
        0 <= i < slots.len(),
    ensures
        contents(slots).contains_key(slots[i].address@),
        contents(slots)[slots[i].address@] == slots[i].data@,
        position(slots, slots[i].address@) == i,
{
    let a = slots[i].address@;
    assert(occupied(slots, a));
    let p = position(slots, a);
    assert(0 <= p < slots.len() && slots[p].address@ == a);
    if p < i {
        assert(slots[p].address@ != slots[i].address@);
    }
    if i < p {
        assert(slots[i].address@ != slots[p].address@);
    }
}

proof fn lemma_vacant(slots: Seq<Slot>, address: Seq<u8>)
    requires
        forall|i: int| 0 <= i < slots.len() ==> slots[i].address@ != address,
    ensures
        !contents(slots).contains_key(address),
{
}

proof fn lemma_push(slots: Seq<Slot>, slot: Slot)
    requires
        distinct(slots),
        !occupied(slots, slot.address@),
    ensures
        distinct(slots.push(slot)),
        contents(slots.push(slot)) == contents(slots).insert(slot.address@, slot.data@),
{
    let after = slots.push(slot);
    let n = slots.len() as int;
    assert forall|i: int, j: int| 0 <= i < j < after.len() implies after[i].address@
        != after[j].address@ by {
        if j == n {
            assert(after[i] == slots[i]);
            if slots[i].address@ == slot.address@ {
                assert(occupied(slots, slot.address@));
            }
        } else {
            assert(after[i] == slots[i] && after[j] == slots[j]);
        }
    }
    let expected = contents(slots).insert(slot.address@, slot.data@);
    assert forall|a: Seq<u8>| contents(after).contains_key(a) == expected.contains_key(a) by {
        if occupied(after, a) {
            let i = position(after, a);
            if i < n {
                assert(slots[i].address@ == a);
            }
        }
        if occupied(slots, a) {
            let i = position(slots, a);
            assert(after[i].address@ == a);
        }
        if a == slot.address@ {
            assert(after[n].address@ == a);
        }
    }
    assert forall|a: Seq<u8>| contents(after).contains_key(a) implies contents(after)[a]
        == expected[a] by {
        let i = position(after, a);
        lemma_slot(after, i);
        if i < n {
            assert(after[i] == slots[i]);
            lemma_slot(slots, i);
        }
    }
    assert(contents(after) =~= expected);
}

proof fn lemma_update(slots: Seq<Slot>, i: int, slot: Slot)
    requires
        distinct(slots),
        0 <= i < slots.len(),
        slot.address@ == slots[i].address@,
    ensures
        distinct(slots.update(i, slot)),
        contents(slots.update(i, slot)) == contents(slots).insert(slot.address@, slot.data@),
{
    let after = slots.update(i, slot);
    assert forall|x: int, y: int| 0 <= x < y < after.len() implies after[x].address@
        != after[y].address@ by {
        assert(after[x].address@ == slots[x].address@);
        assert(after[y].address@ == slots[y].address@);
    }
    let expected = contents(slots).insert(slot.address@, slot.data@);
    assert forall|a: Seq<u8>| contents(after).contains_key(a) == expected.contains_key(a) by {
        if occupied(after, a) {
            let x = position(after, a);
            assert(slots[x].address@ == a);
        }
        if occupied(slots, a) {
            let x = position(slots, a);
            assert(after[x].address@ == a);
        }
        if a == slot.address@ {
            assert(after[i].address@ == a);
        }
    }
    assert forall|a: Seq<u8>| contents(after).contains_key(a) implies contents(after)[a]
        == expected[a] by {
        let x = position(after, a);
        lemma_slot(after, x);
        if x != i {
            assert(after[x] == slots[x]);
            lemma_slot(slots, x);
        }
    }
    assert(contents(after) =~= expected);
}

proof fn lemma_remove(slots: Seq<Slot>, i: int)
    requires
        distinct(slots),
        0 <= i < slots.len(),
    ensures
        distinct(slots.remove(i)),
        contents(slots.remove(i)) == contents(slots).remove(slots[i].address@),
{
    let after = slots.remove(i);
    let gone = slots[i].address@;
    assert forall|x: int| 0 <= x < after.len() implies after[x] == slots[if x < i {
        x
    } else {
        x + 1
    }] by {}
    assert forall|x: int, y: int| 0 <= x < y < after.len() implies after[x].address@
        != after[y].address@ by {
        let sx = if x < i {
            x
        } else {
            x + 1
        };
        let sy = if y < i {
            y
        } else {
            y + 1
        };
        assert(after[x] == slots[sx] && after[y] == slots[sy]);
    }
    let expected = contents(slots).remove(gone);
    assert forall|a: Seq<u8>| contents(after).contains_key(a) == expected.contains_key(a) by {
        if occupied(after, a) {
            let x = position(after, a);
            let sx = if x < i {
                x
            } else {
                x + 1
            };
            assert(after[x] == slots[sx]);
            assert(slots[sx].address@ == a);
            if a == gone {
                lemma_slot(slots, sx);
                lemma_slot(slots, i);
            }
        }
        if occupied(slots, a) && a != gone {
            let x = position(slots, a);
            let ax = if x < i {
                x
            } else {
                x - 1
            };
            assert(after[ax] == slots[x]);
            assert(after[ax].address@ == a);
        }
    }
    assert forall|a: Seq<u8>| contents(after).contains_key(a) implies contents(after)[a]
        == expected[a] by {
        let x = position(after, a);
        lemma_slot(after, x);
        let sx = if x < i {
            x
        } else {
            x + 1
        };
        assert(after[x] == slots[sx]);
        lemma_slot(slots, sx);
    }
    assert(contents(after) =~= expected);
}

/// The record store of one program.
pub struct Store {
    program: Address,
    ceiling: usize,
    slots: Vec<Slot>,
}

impl View for Store {
    type V = Records;

    closed spec fn view(&self) -> Records {
        contents(self.slots@)
    }
}

impl Store {
    #[verifier::type_invariant]
    spec fn well_formed(&self) -> bool {
        distinct(self.slots@)
    }

    /// The identity of the program that owns the store, under which its
    /// addresses derive.
    pub closed spec fn program_id(&self) -> Seq<u8> {
        self.program@
    }

    /// The largest number of bytes a slot may have.
    pub closed spec fn limit(&self) -> nat {
        self.ceiling as nat
    }

    /// An empty store for the program, whose slots may have up to
    /// `ceiling` bytes.
    pub fn new(program: Address, ceiling: usize) -> (store: Store)
        ensures
            store@ == Map::<Seq<u8>, Seq<u8>>::empty(),
            store.program_id() == program@,
            store.limit() == ceiling,
    {
        let store = Store { program, ceiling, slots: Vec::new() };
        assert(store@ =~= Map::<Seq<u8>, Seq<u8>>::empty());
        store
    }

    /// The identity of the program that owns the store.
    pub fn program(&self) -> (program: Address)
        ensures
            program@ == self.program_id(),
    {
        self.program
    }

    /// The largest number of bytes a slot may have.
    pub fn ceiling(&self) -> (ceiling: usize)
        ensures
            ceiling == self.limit(),
    {
        self.ceiling
    }

    /// The index of the slot with the address.
    fn find(&self, address: &Address) -> (found: Option<usize>)
        ensures
            match found {
                Some(i) => i < self.slots@.len() && self.slots@[i as int].address@ == address@,
                None => forall|i: int|
                    0 <= i < self.slots@.len() ==> self.slots@[i].address@ != address@,
            },
    {
        let mut i: usize = 0;
        while i < self.slots.len()
            invariant
                0 <= i <= self.slots@.len(),
                forall|j: int| 0 <= j < i ==> self.slots@[j].address@ != address@,
            decreases self.slots@.len() - i,
        {
            if self.slots[i].address.same(address) {
                return Some(i);
            }
            i += 1;
        }
        None
    }

    /// Whether a record is stored at the address.
    pub fn contains(&self, address: &Address) -> (r: bool)
        ensures
            r == self@.contains_key(address@),
    {
        proof {
            use_type_invariant(&*self);
        }
        match self.find(address) {
            Some(i) => {
                proof {
                    lemma_slot(self.slots@, i as int);
                }
                true
            },
            None => {
                proof {
                    lemma_vacant(self.slots@, address@);
                }
                false
            },
        }
    }

    /// The bytes stored at the address, if any are.
    pub fn get(&self, address: &Address) -> (r: Option<&Vec<u8>>)
        ensures
            match r {
                Some(data) => self@.contains_key(address@) && data@ == self@[address@],
                None => !self@.contains_key(address@),
            },
    {
        proof {
            use_type_invariant(&*self);
        }
        match self.find(address) {
            Some(i) => {
                proof {
                    lemma_slot(self.slots@, i as int);
                }
                Some(&self.slots[i].data)
            },
            None => {
                proof {
                    lemma_vacant(self.slots@, address@);
                }
                None
            },
        }
    }

    /// The introduction stored at the address; `None` where the address
    /// is vacant or holds something else.
    pub fn read_intro(&self, address: &Address) -> (r: Option<StudentInfo>)
        ensures
            intro_view(r) == stored_intro(self@, address@),
    {
        match self.get(address) {
            Some(data) => StudentInfo::decode(data.as_slice()),
            None => None,
        }
    }

    /// The reply counter stored at the address; `None` where the address
    /// is vacant or holds something else.
    pub fn read_counter(&self, address: &Address) -> (r: Option<ReplyCounter>)
        ensures
            r == stored_counter(self@, address@),
    {
        match self.get(address) {
            Some(data) => ReplyCounter::decode(data.as_slice()),
            None => None,
        }
    }

    /// The reply stored at the address; `None` where the address is vacant
    /// or holds something else.
    pub fn read_reply(&self, address: &Address) -> (r: Option<Reply>)
        ensures
            reply_view(r) == stored_reply(self@, address@),
    {
        match self.get(address) {
            Some(data) => Reply::decode(data.as_slice()),
            None => None,
        }
    }

    /// Allocates a zero-filled slot of `size` bytes at the address.
    /// Refuses with `DuplicateRecord` where the address is populated, and
    /// else with `SizeOverflow` where the size is above the ceiling.
    pub fn create(&mut self, address: Address, size: usize) -> (r: Result<(), IntroError>)
        ensures
            final(self).program_id() == old(self).program_id(),
            final(self).limit() == old(self).limit(),
            match r {
                Ok(_) => {
                    &&& !old(self)@.contains_key(address@)
                    &&& size <= old(self).limit()
                    &&& final(self)@ == old(self)@.insert(
                        address@,
                        Seq::new(size as nat, |i: int| 0u8),
                    )
                },
                Err(e) => {
                    &&& final(self)@ == old(self)@
                    &&& if old(self)@.contains_key(address@) {
                        e == IntroError::DuplicateRecord
                    } else {
                        e == IntroError::SizeOverflow && size > old(self).limit()
                    }
                },
            },
    {
        if self.contains(&address) {
            return Err(IntroError::DuplicateRecord);
        }
        if size > self.ceiling {
            return Err(IntroError::SizeOverflow);
        }
        let mut data: Vec<u8> = Vec::new();
        data.resize(size, 0u8);
        assert(data@ =~= Seq::new(size as nat, |i: int| 0u8));
        self.place(address, data);
        Ok(())
    }

    /// Adds a slot at an address that has none.
    fn place(&mut self, address: Address, data: Vec<u8>)
        requires
            !old(self)@.contains_key(address@),
        ensures
            final(self).program_id() == old(self).program_id(),
            final(self).limit() == old(self).limit(),
            final(self)@ == old(self)@.insert(address@, data@),
    {
        proof {
            use_type_invariant(&*self);
            lemma_push(self.slots@, Slot { address, data });
        }
        let mut slots: Vec<Slot> = Vec::new();
        std::mem::swap(&mut slots, &mut self.slots);
        slots.push(Slot { address, data });
        self.slots = slots;
    }

    /// Puts new bytes into the slot at the address.
    fn replace(&mut self, address: &Address, data: Vec<u8>) -> (done: bool)
        ensures
            final(self).program_id() == old(self).program_id(),
            final(self).limit() == old(self).limit(),
            done == old(self)@.contains_key(address@),
            done ==> final(self)@ == old(self)@.insert(address@, data@),
            !done ==> final(self)@ == old(self)@,
    {
        proof {
            use_type_invariant(&*self);
        }
        match self.find(address) {
            Some(i) => {
                let slot = Slot { address: self.slots[i].address, data };
                proof {
                    lemma_slot(self.slots@, i as int);
                    lemma_update(self.slots@, i as int, slot);
                }
                let mut slots: Vec<Slot> = Vec::new();
                std::mem::swap(&mut slots, &mut self.slots);
                slots[i] = slot;
                self.slots = slots;
                true
            },
            None => {
                proof {
                    lemma_vacant(self.slots@, address@);
                }
                false
            },
        }
    }

    /// Grows or shrinks the slot at the address to exactly `size` bytes.
    /// Bytes that are added are zero; bytes beyond the new size are
    /// gone. Refuses with `NotFound` where the address is vacant, and else
    /// with `SizeOverflow` where the size is above the ceiling.
    pub fn resize(&mut self, address: &Address, size: usize) -> (r: Result<(), IntroError>)
        ensures
            final(self).program_id() == old(self).program_id(),
            final(self).limit() == old(self).limit(),
            match r {
                Ok(_) => {
                    &&& old(self)@.contains_key(address@)
                    &&& size <= old(self).limit()
                    &&& final(self)@ == old(self)@.insert(
                        address@,
                        resized(old(self)@[address@], size as nat),
                    )
                },
                Err(e) => {
                    &&& final(self)@ == old(self)@
                    &&& if !old(self)@.contains_key(address@) {
                        e == IntroError::NotFound
                    } else {
                        e == IntroError::SizeOverflow && size > old(self).limit()
                    }
                },
            },
    {
        let mut data = match self.get(address) {
            Some(current) => copy_bytes(current),
            None => {
                return Err(IntroError::NotFound);
            },
        };
        if size > self.ceiling {
            return Err(IntroError::SizeOverflow);
        }
        let ghost before = data@;
        data.resize(size, 0u8);
        assert(data@ =~= resized(before, size as nat));
        self.replace(address, data);
        Ok(())
    }

    /// Frees the slot at the address. Refuses with `NotFound` where the
    /// address is vacant.
    pub fn destroy(&mut self, address: &Address) -> (r: Result<(), IntroError>)
        ensures
            final(self).program_id() == old(self).program_id(),
            final(self).limit() == old(self).limit(),
            match r {
                Ok(_) => old(self)@.contains_key(address@) && final(self)@ == old(self)@.remove(
                    address@,
                ),
                Err(e) => e == IntroError::NotFound && !old(self)@.contains_key(address@)
                    && final(self)@ == old(self)@,
            },
    {
        proof {
            use_type_invariant(&*self);
        }
        match self.find(address) {
            Some(i) => {
                proof {
                    lemma_slot(self.slots@, i as int);
                    lemma_remove(self.slots@, i as int);
                }
                let mut slots: Vec<Slot> = Vec::new();
                std::mem::swap(&mut slots, &mut self.slots);
                slots.remove(i);
                self.slots = slots;
                Ok(())
            },
            None => {
                proof {
                    lemma_vacant(self.slots@, address@);
                }
                Err(IntroError::NotFound)
            },
        }
    }

    /// Applies one staged write, or refuses it and leaves the store as it
    /// was.
    pub fn apply(&mut self, write: &Write) -> (r: Result<(), IntroError>)
        ensures
            final(self).program_id() == old(self).program_id(),
            final(self).limit() == old(self).limit(),
            match applied(old(self)@, old(self).limit(), write@) {
                Ok(records) => r is Ok && final(self)@ == records,
                Err(e) => r == Err::<(), IntroError>(e) && final(self)@ == old(self)@,
            },
    {
        match write {
            Write::Create { address, payer, data } => {
                match self.create(*address, data.len()) {
                    Ok(_) => {},
                    Err(e) => {
                        return Err(e);
                    },
                }
                self.replace(address, copy_bytes(data));
                assert(self@ =~= old(self)@.insert(address@, data@));
                Ok(())
            },
            Write::Resize { address, payer, data } => {
                match self.resize(address, data.len()) {
                    Ok(_) => {},
                    Err(e) => {
                        return Err(e);
                    },
                }
                self.replace(address, copy_bytes(data));
                assert(self@ =~= old(self)@.insert(address@, data@));
                Ok(())
            },
            Write::Destroy { address, refund_to } => self.destroy(address),
        }
    }

    /// A copy of the store.
    fn snapshot(&self) -> (copy: Store)
        ensures
            copy@ == self@,
            copy.program_id() == self.program_id(),
            copy.limit() == self.limit(),
    {
        proof {
            use_type_invariant(&*self);
        }
        let mut slots: Vec<Slot> = Vec::new();
        let mut i: usize = 0;
        while i < self.slots.len()
            invariant
                0 <= i <= self.slots@.len(),
                slots@.len() == i,
                forall|j: int|
                    0 <= j < i ==> slots@[j].address@ == self.slots@[j].address@ && slots@[j].data@
                        == self.slots@[j].data@,
            decreases self.slots@.len() - i,
        {
            slots.push(Slot { address: self.slots[i].address, data: copy_bytes(&self.slots[i].data) });
            i += 1;
        }
        proof {
            lemma_same_contents(self.slots@, slots@);
        }
        Store { program: self.program, ceiling: self.ceiling, slots }
    }

    /// Settles an invocation. Where the calls outside the store were
    /// accepted and every staged write can be applied, in order, the store
    /// holds the result. In every other case the store is left exactly as
    /// it was and the failure is returned: that of the calls outside, or
    /// else that of the first write that cannot be applied.
    pub fn commit(&mut self, invocation: &Invocation, settlement: Settlement) -> (r: Result<
        (),
        IntroError,
    >)
        ensures
            final(self).program_id() == old(self).program_id(),
            final(self).limit() == old(self).limit(),
            match settled(old(self)@, old(self).limit(), invocation@.writes, settlement) {
                Ok(records) => r is Ok && final(self)@ == records,
                Err(e) => r == Err::<(), IntroError>(e) && final(self)@ == old(self)@,
            },
    {
        match settlement {
            Settlement::InsufficientFunds => {
                return Err(IntroError::InsufficientFunds);
            },
            Settlement::LedgerRejected => {
                return Err(IntroError::ExternalLedgerFailure);
            },
            Settlement::Accepted => {},
        }
        let mut work = self.snapshot();
        let ghost writes = invocation@.writes;
        let mut i: usize = 0;
        assert(writes.skip(0) =~= writes);
        while i < invocation.writes.len()
            invariant
                0 <= i <= invocation.writes@.len(),
                writes == invocation@.writes,
                settlement == Settlement::Accepted,
                self@ == old(self)@,
                self.limit() == old(self).limit(),
                self.program_id() == old(self).program_id(),
                work.program_id() == self.program_id(),
                work.limit() == self.limit(),
                applied_all(self@, self.limit(), writes) == applied_all(
                    work@,
                    self.limit(),
                    writes.skip(i as int),
                ),
            decreases invocation.writes@.len() - i,
        {
            let ghost rest = writes.skip(i as int);
            let ghost before = work@;
            assert(rest.len() > 0);
            assert(rest[0] == invocation.writes@[i as int]@);
            assert(rest.drop_first() =~= writes.skip(i + 1));
            match work.apply(&invocation.writes[i]) {
                Ok(_) => {
                    assert(applied_all(before, self.limit(), rest) == applied_all(
                        work@,
                        self.limit(),
                        rest.drop_first(),
                    ));
                },
                Err(e) => {
                    assert(applied_all(before, self.limit(), rest) == Err::<Records, IntroError>(e));
                    return Err(e);
                },
            }
            i += 1;
        }
        assert(writes.skip(i as int).len() == 0);
        *self = work;
        Ok(())
    }
}

proof fn lemma_same_contents(a: Seq<Slot>, b: Seq<Slot>)
    requires
        distinct(a),
        a.len() == b.len(),
        forall|j: int|
            0 <= j < a.len() ==> b[j].address@ == a[j].address@ && b[j].data@ == a[j].data@,
    ensures
        distinct(b),
        contents(b) == contents(a),
{
    assert forall|x: int, y: int| 0 <= x < y < b.len() implies b[x].address@ != b[y].address@ by {
        assert(a[x].address@ != a[y].address@);
    }
    assert forall|k: Seq<u8>| contents(a).contains_key(k) == contents(b).contains_key(k) by {
        if occupied(a, k) {
            let x = position(a, k);
            assert(b[x].address@ == k);
        }
        if occupied(b, k) {
            let x = position(b, k);
            assert(a[x].address@ == k);
        }
    }
    assert forall|k: Seq<u8>| contents(a).contains_key(k) implies contents(a)[k] == contents(
        b,
    )[k] by {
        let x = position(a, k);
        lemma_slot(a, x);
        lemma_slot(b, x);
    }
    assert(contents(a) =~= contents(b));
}

} // verus!
