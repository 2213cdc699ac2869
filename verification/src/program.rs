//! The operations of the program: what each one checks, and what it
//! stages.
//!
//! Every operation comes in two parts. The part named after the operation
//! derives the addresses it needs; the part named `plan_..` takes the
//! derived addresses as arguments and decides, from them and from what the
//! store holds, which writes to stage and which ledger call to ask for.
//! Neither part changes the store: the invocation they return is settled
//! by [`Store::commit`].
use crate::address::{
    address_view, confirmed, counter_seeds, counter_seeds_view, created_address, derive_address, derived_view,
    found_address, intro_seeds, intro_seeds_view, mint_seeds, mint_seeds_view, reply_seeds,
    reply_seeds_view, rederive_address, Address,
};
use crate::error::IntroError;
use crate::layout::{
    intro_fits, intro_size, reply_fits, reply_size, Reply, ReplyCounter, ReplyView,
    StudentInfo, StudentInfoView,
};
use crate::ledger::{
    Authority, AuthorityView, LedgerCall, LedgerCallView, INTRO_REWARD, MINT_DECIMALS,
    REPLY_REWARD,
};
use crate::store::{
    stored_counter, stored_intro, Invocation, InvocationView, Records, Store, Write, WriteView,
};
use vstd::prelude::*;
use vstd::utf8::encode_utf8;

verus! {

/// What creating an introduction is given: the identity that signs, pays
/// and will own the introduction.
#[derive(Clone, Copy, Debug, PartialEq, Eq)]
pub struct AddStudentIntro {
    pub student: Address,
}

/// What replying is given: the introduction replied to, its counter, and
/// the identity that signs and pays.
#[derive(Clone, Copy, Debug, PartialEq, Eq)]
pub struct AddReply {
    pub student_intro: Address,
    pub reply_counter: Address,
    pub student: Address,
}

/// What updating an introduction is given: the introduction, and the
/// identity that signs and pays.
#[derive(Clone, Copy, Debug, PartialEq, Eq)]
pub struct UpdateStudentIntro {
    pub student_intro: Address,
    pub student: Address,
}

/// What closing an introduction is given: the introduction, and the
/// identity that signs and takes the refund.
#[derive(Clone, Copy, Debug, PartialEq, Eq)]
pub struct Close {
    pub student_intro: Address,
    pub student: Address,
}

/// What setting up the reward mint is given: the identity that signs and
/// pays.
#[derive(Clone, Copy, Debug, PartialEq, Eq)]
pub struct InitializeMint {
    pub user: Address,
}

/// The view of what an operation returns.
pub open spec fn plan_view(r: Result<Invocation, IntroError>) -> Result<
    InvocationView,
    IntroError,
> {
    match r {
        Ok(invocation) => Ok(invocation@),
        Err(e) => Err(e),
    }
}

/// The view of a ledger call that may have been refused.
pub open spec fn call_view(r: Result<LedgerCall, IntroError>) -> Result<
    LedgerCallView,
    IntroError,
> {
    match r {
        Ok(call) => Ok(call@),
        Err(e) => Err(e),
    }
}

/// The ledger call that mints `amount` units of the mint to the recipient,
/// signed as the mint itself.
pub open spec fn reward_call(mint: (Seq<u8>, u8), recipient: Seq<u8>, amount: u64) -> LedgerCallView {
    LedgerCallView::MintTo {
        mint: mint.0,
        recipient,
        amount,
        signer: AuthorityView { seeds: mint_seeds_view(), bump: mint.1 },
    }
}

/// What minting a reward comes to, given the derivation of the mint's
/// address: the ledger call, or `DerivationFailed` where the mint has no
/// address.
pub open spec fn reward_plan(mint: Option<(Seq<u8>, u8)>, recipient: Seq<u8>, amount: u64) -> Result<
    LedgerCallView,
    IntroError,
> {
    match mint {
        Some(m) => Ok(reward_call(m, recipient, amount)),
        None => Err(IntroError::DerivationFailed),
    }
}

/// The call that mints a reward, for a mint whose derivation is given.
pub fn plan_reward(mint: Option<(Address, u8)>, amount: u64, recipient: &Address) -> (r: Result<
    LedgerCall,
    IntroError,
>)
    ensures
        call_view(r) == reward_plan(derived_view(mint), recipient@, amount),
{
    match mint {
        Some((address, bump)) => Ok(
            LedgerCall::MintTo {
                mint: address,
                recipient: *recipient,
                amount,
                signer: Authority { seeds: mint_seeds(), bump },
            },
        ),
        None => Err(IntroError::DerivationFailed),
    }
}

/// The call that mints `amount` units to the recipient from the reward
/// mint of the program, whose address and signing proof derive from the
/// seed `mint`.
pub fn mint_reward(program: &Address, amount: u64, recipient: &Address) -> (r: Result<
    LedgerCall,
    IntroError,
>)
    ensures
        call_view(r) == reward_plan(
            found_address(mint_seeds_view(), program@),
            recipient@,
            amount,
        ),
{
    let mint = derive_address(&mint_seeds(), program);
    plan_reward(mint, amount, recipient)
}

/// The counter's derivation for an introduction whose own derivation is
/// given.
pub open spec fn counter_of(intro: Option<(Seq<u8>, u8)>, program: Seq<u8>) -> Option<
    (Seq<u8>, u8),
> {
    match intro {
        Some(found) => found_address(counter_seeds_view(found.0), program),
        None => None,
    }
}

/// What creating an introduction comes to, given the derivations of the
/// three addresses it needs.
///
/// It fails with `DerivationFailed` where one of them is missing; else
/// with `DuplicateRecord` where the introduction already exists; else
/// with `SizeOverflow` where the introduction does not fit; else with
/// `DuplicateRecord` where the address of its counter is populated, be it
/// by a counter that outlived an earlier introduction or because it is
/// the introduction's own address. Otherwise it stages the introduction
/// and a counter at zero, both paid by the student, and asks for
/// 10,000,000 units to be minted to the student.
pub open spec fn intro_plan(
    records: Records,
    ceiling: nat,
    student: Seq<u8>,
    intro: Option<(Seq<u8>, u8)>,
    counter: Option<(Seq<u8>, u8)>,
    mint: Option<(Seq<u8>, u8)>,
    name: Seq<char>,
    message: Seq<char>,
) -> Result<InvocationView, IntroError> {
    match (intro, counter, mint) {
        (Some(i), Some(c), Some(m)) => {
            if records.contains_key(i.0) {
                Err(IntroError::DuplicateRecord)
            } else if !intro_fits(encode_utf8(name).len(), encode_utf8(message).len(), ceiling) {
                Err(IntroError::SizeOverflow)
            } else if records.contains_key(c.0) || i.0 == c.0 {
                Err(IntroError::DuplicateRecord)
            } else {
                Ok(
                    InvocationView {
                        writes: seq![
                            WriteView::Create {
                                address: i.0,
                                payer: student,
                                data: StudentInfoView { student, name, message, bump: i.1 }.encoding(),
                            },
                            WriteView::Create {
                                address: c.0,
                                payer: student,
                                data: ReplyCounter { counter: 0, bump: c.1 }.encoding(),
                            },
                        ],
                        ledger: Some(reward_call(m, student, 10_000_000)),
                    },
                )
            }
        },
        _ => Err(IntroError::DerivationFailed),
    }
}

/// Plans the creation of an introduction from the derivations of its
/// address, of its counter's address and of the mint's address.
pub fn plan_intro(
    store: &Store,
    student: &Address,
    intro: Option<(Address, u8)>,
    counter: Option<(Address, u8)>,
    mint: Option<(Address, u8)>,
    name: String,
    message: String,
) -> (r: Result<Invocation, IntroError>)
    ensures
        plan_view(r) == intro_plan(
            store@,
            store.limit(),
            student@,
            derived_view(intro),
            derived_view(counter),
            derived_view(mint),
            name@,
            message@,
        ),
{
    let (intro_at, intro_bump) = match intro {
        Some(found) => found,
        None => {
            return Err(IntroError::DerivationFailed);
        },
    };
    let (counter_at, counter_bump) = match counter {
        Some(found) => found,
        None => {
            return Err(IntroError::DerivationFailed);
        },
    };
    let reward = match plan_reward(mint, INTRO_REWARD, student) {
        Ok(call) => call,
        Err(e) => {
            return Err(e);
        },
    };
    if store.contains(&intro_at) {
        return Err(IntroError::DuplicateRecord);
    }
    let name_len = name.as_str().as_bytes().len();
    let message_len = message.as_str().as_bytes().len();
    if intro_size(name_len, message_len, store.ceiling()).is_err() {
        return Err(IntroError::SizeOverflow);
    }
    if store.contains(&counter_at) || intro_at.same(&counter_at) {
        return Err(IntroError::DuplicateRecord);
    }
    let info = StudentInfo { student: *student, name, message, bump: intro_bump };
    let data = match info.encode() {
        Some(data) => data,
        None => {
            return Err(IntroError::SizeOverflow);
        },
    };
    let zero = ReplyCounter { counter: 0, bump: counter_bump };
    let mut writes: Vec<Write> = Vec::new();
    writes.push(Write::Create { address: intro_at, payer: *student, data });
    writes.push(Write::Create { address: counter_at, payer: *student, data: zero.encode() });
    let invocation = Invocation { writes, ledger: Some(reward) };
    assert(invocation@.writes =~= intro_plan(
        store@,
        store.limit(),
        student@,
        derived_view(intro),
        derived_view(counter),
        derived_view(mint),
        name@,
        message@,
    )->Ok_0.writes);
    Ok(invocation)
}

/// Creates the introduction of the student who signs, with its reply
/// counter at zero, and rewards the student.
///
/// The introduction's address derives from the student's identity, the
/// counter's from the introduction's address, the mint's from the seed
/// `mint`, all under the program that owns the store. What is staged and
/// when the operation fails is as [`intro_plan`] says of these
/// derivations.
pub fn add_student_intro(store: &Store, ctx: &AddStudentIntro, name: String, message: String) -> (r:
    Result<Invocation, IntroError>)
    ensures
        plan_view(r) == intro_plan(
            store@,
            store.limit(),
            ctx.student@,
            found_address(intro_seeds_view(ctx.student@), store.program_id()),
            counter_of(
                found_address(intro_seeds_view(ctx.student@), store.program_id()),
                store.program_id(),
            ),
            found_address(mint_seeds_view(), store.program_id()),
            name@,
            message@,
        ),
        r is Ok ==> {
            let intro = found_address(intro_seeds_view(ctx.student@), store.program_id())->0;
            let counter = found_address(counter_seeds_view(intro.0), store.program_id())->0;
            &&& confirmed(intro_seeds_view(ctx.student@), store.program_id(), intro)
            &&& confirmed(counter_seeds_view(intro.0), store.program_id(), counter)
        },
{
    let program = store.program();
    let intro = derive_address(&intro_seeds(&ctx.student), &program);
    let counter = match intro {
        Some((address, _)) => derive_address(&counter_seeds(&address), &program),
        None => None,
    };
    let mint = derive_address(&mint_seeds(), &program);
    plan_intro(store, &ctx.student, intro, counter, mint, name, message)
}

/// The address that a counter with this bump must have to belong to the
/// introduction.
pub open spec fn counter_check(
    records: Records,
    intro: Seq<u8>,
    counter: Seq<u8>,
    program: Seq<u8>,
) -> Option<Seq<u8>> {
    match stored_counter(records, counter) {
        Some(c) => created_address(counter_seeds_view(intro).push(seq![c.bump]), program),
        None => None,
    }
}

/// The derivation of the next reply's address, from the counter as it is
/// stored.
pub open spec fn next_reply(
    records: Records,
    intro: Seq<u8>,
    counter: Seq<u8>,
    program: Seq<u8>,
) -> Option<(Seq<u8>, u8)> {
    match stored_counter(records, counter) {
        Some(c) => found_address(reply_seeds_view(intro, c.counter), program),
        None => None,
    }
}

/// What replying comes to, given the address the counter should have, and
/// the derivations of the reply's address and of the mint's.
///
/// It fails with `NotFound` where the introduction or the counter is not
/// stored at the address given for it; else with `AddressMismatch` where
/// the counter's address is not the one that derives for this
/// introduction with the counter's stored bump; else with
/// `DerivationFailed` where the reply or the mint has no address; else
/// with `DuplicateRecord` where the reply's address is populated; else
/// with `SizeOverflow` where the reply does not fit; else with
/// `CounterExhausted` where the counter cannot go up.
/// Otherwise it stages the reply at the position the counter gives, then
/// the counter raised by one, both paid by the student, and asks for
/// 5,000,000 units to be minted to the student.
pub open spec fn reply_plan(
    records: Records,
    ceiling: nat,
    intro: Seq<u8>,
    counter: Seq<u8>,
    student: Seq<u8>,
    expected: Option<Seq<u8>>,
    reply_at: Option<(Seq<u8>, u8)>,
    mint: Option<(Seq<u8>, u8)>,
    reply: Seq<char>,
) -> Result<InvocationView, IntroError> {
    if stored_intro(records, intro) is None || stored_counter(records, counter) is None {
        Err(IntroError::NotFound)
    } else if expected != Some(counter) {
        Err(IntroError::AddressMismatch)
    } else {
        match (reply_at, mint) {
            (Some(at), Some(m)) => {
                let c = stored_counter(records, counter)->0;
                if records.contains_key(at.0) {
                    Err(IntroError::DuplicateRecord)
                } else if !reply_fits(encode_utf8(reply).len(), ceiling) {
                    Err(IntroError::SizeOverflow)
                } else if c.counter == u64::MAX {
                    Err(IntroError::CounterExhausted)
                } else {
                    Ok(
                        InvocationView {
                            writes: seq![
                                WriteView::Create {
                                    address: at.0,
                                    payer: student,
                                    data: ReplyView { studentinfo: intro, reply }.encoding(),
                                },
                                WriteView::Resize {
                                    address: counter,
                                    payer: student,
                                    data: ReplyCounter {
                                        counter: (c.counter + 1) as u64,
                                        bump: c.bump,
                                    }.encoding(),
                                },
                            ],
                            ledger: Some(reward_call(m, student, 5_000_000)),
                        },
                    )
                }
            },
            _ => Err(IntroError::DerivationFailed),
        }
    }
}

/// Plans a reply from the address the counter should have, and the
/// derivations of the reply's address and of the mint's.
pub fn plan_reply(
    store: &Store,
    ctx: &AddReply,
    expected: Option<Address>,
    reply_at: Option<(Address, u8)>,
    mint: Option<(Address, u8)>,
    reply: String,
) -> (r: Result<Invocation, IntroError>)
    ensures
        plan_view(r) == reply_plan(
            store@,
            store.limit(),
            ctx.student_intro@,
            ctx.reply_counter@,
            ctx.student@,
            address_view(expected),
            derived_view(reply_at),
            derived_view(mint),
            reply@,
        ),
{
    if store.read_intro(&ctx.student_intro).is_none() {
        return Err(IntroError::NotFound);
    }
    let counter = match store.read_counter(&ctx.reply_counter) {
        Some(counter) => counter,
        None => {
            return Err(IntroError::NotFound);
        },
    };
    let matches = match expected {
        Some(address) => address.same(&ctx.reply_counter),
        None => false,
    };
    if !matches {
        return Err(IntroError::AddressMismatch);
    }
    let (reply_address, _) = match reply_at {
        Some(found) => found,
        None => {
            return Err(IntroError::DerivationFailed);
        },
    };
    let reward = match plan_reward(mint, REPLY_REWARD, &ctx.student) {
        Ok(call) => call,
        Err(e) => {
            return Err(e);
        },
    };
    if store.contains(&reply_address) {
        return Err(IntroError::DuplicateRecord);
    }
    let reply_len = reply.as_str().as_bytes().len();
    if reply_size(reply_len, store.ceiling()).is_err() {
        return Err(IntroError::SizeOverflow);
    }
    if counter.counter == u64::MAX {
        return Err(IntroError::CounterExhausted);
    }
    let record = Reply { studentinfo: ctx.student_intro, reply };
    let data = match record.encode() {
        Some(data) => data,
        None => {
            return Err(IntroError::SizeOverflow);
        },
    };
    let raised = ReplyCounter { counter: counter.counter + 1, bump: counter.bump };
    let mut writes: Vec<Write> = Vec::new();
    writes.push(Write::Create { address: reply_address, payer: ctx.student, data });
    writes.push(
        Write::Resize { address: ctx.reply_counter, payer: ctx.student, data: raised.encode() },
    );
    let invocation = Invocation { writes, ledger: Some(reward) };
    assert(invocation@.writes =~= reply_plan(
        store@,
        store.limit(),
        ctx.student_intro@,
        ctx.reply_counter@,
        ctx.student@,
        address_view(expected),
        derived_view(reply_at),
        derived_view(mint),
        reply@,
    )->Ok_0.writes);
    Ok(invocation)
}

/// Adds a reply to an introduction, at the position its counter gives,
/// raises the counter, and rewards the student who signs.
///
/// The counter must sit at the address that derives from the marker
/// `counter`, the introduction's address and the bump stored in the
/// counter; the reply's address derives from the introduction's address
/// and the counter's value, the mint's from the seed `mint`, all under the
/// program that owns the store. What is staged and when the operation
/// fails is as [`reply_plan`] says of these derivations.
pub fn add_reply(store: &Store, ctx: &AddReply, reply: String) -> (r: Result<
    Invocation,
    IntroError,
>)
    ensures
        plan_view(r) == reply_plan(
            store@,
            store.limit(),
            ctx.student_intro@,
            ctx.reply_counter@,
            ctx.student@,
            counter_check(store@, ctx.student_intro@, ctx.reply_counter@, store.program_id()),
            next_reply(store@, ctx.student_intro@, ctx.reply_counter@, store.program_id()),
            found_address(mint_seeds_view(), store.program_id()),
            reply@,
        ),
{
    let program = store.program();
    let (expected, reply_at) = match store.read_counter(&ctx.reply_counter) {
        Some(counter) => (
            rederive_address(&counter_seeds(&ctx.student_intro), counter.bump, &program),
            derive_address(&reply_seeds(&ctx.student_intro, counter.counter), &program),
        ),
        None => (None, None),
    };
    let mint = derive_address(&mint_seeds(), &program);
    plan_reply(store, ctx, expected, reply_at, mint, reply)
}

/// The address that an introduction with its stored bump must have to
/// belong to the student.
pub open spec fn intro_check(
    records: Records,
    intro: Seq<u8>,
    student: Seq<u8>,
    program: Seq<u8>,
) -> Option<Seq<u8>> {
    match stored_intro(records, intro) {
        Some(info) => created_address(intro_seeds_view(student).push(seq![info.bump]), program),
        None => None,
    }
}

/// What updating an introduction comes to, given the address it should
/// have.
///
/// It fails with `NotFound` where no introduction is stored at the
/// address; else with `OwnerMismatch` where the stored owner is not the
/// student; else with `AddressMismatch` where the address is not the one
/// that derives for the student with the stored bump; else with
/// `SizeOverflow` where the new texts do not fit. Otherwise it stages one
/// write, which resizes the slot to exactly the size of the new
/// introduction and fills it with the new introduction, owner and bump
/// unchanged.
pub open spec fn update_plan(
    records: Records,
    ceiling: nat,
    intro: Seq<u8>,
    student: Seq<u8>,
    expected: Option<Seq<u8>>,
    name: Seq<char>,
    message: Seq<char>,
) -> Result<InvocationView, IntroError> {
    if stored_intro(records, intro) is None {
        Err(IntroError::NotFound)
    } else if stored_intro(records, intro)->0.student != student {
        Err(IntroError::OwnerMismatch)
    } else if expected != Some(intro) {
        Err(IntroError::AddressMismatch)
    } else if !intro_fits(encode_utf8(name).len(), encode_utf8(message).len(), ceiling) {
        Err(IntroError::SizeOverflow)
    } else {
        Ok(
            InvocationView {
                writes: seq![
                    WriteView::Resize {
                        address: intro,
                        payer: student,
                        data: StudentInfoView {
                            student,
                            name,
                            message,
                            bump: stored_intro(records, intro)->0.bump,
                        }.encoding(),
                    },
                ],
                ledger: None,
            },
        )
    }
}

/// Plans the update of an introduction from the address it should have.
pub fn plan_update(
    store: &Store,
    ctx: &UpdateStudentIntro,
    expected: Option<Address>,
    name: String,
    message: String,
) -> (r: Result<Invocation, IntroError>)
    ensures
        plan_view(r) == update_plan(
            store@,
            store.limit(),
            ctx.student_intro@,
            ctx.student@,
            address_view(expected),
            name@,
            message@,
        ),
{
    let stored = match store.read_intro(&ctx.student_intro) {
        Some(stored) => stored,
        None => {
            return Err(IntroError::NotFound);
        },
    };
    if !stored.student.same(&ctx.student) {
        return Err(IntroError::OwnerMismatch);
    }
    let matches = match expected {
        Some(address) => address.same(&ctx.student_intro),
        None => false,
    };
    if !matches {
        return Err(IntroError::AddressMismatch);
    }
    let name_len = name.as_str().as_bytes().len();
    let message_len = message.as_str().as_bytes().len();
    if intro_size(name_len, message_len, store.ceiling()).is_err() {
        return Err(IntroError::SizeOverflow);
    }
    let info = StudentInfo { student: ctx.student, name, message, bump: stored.bump };
    let data = match info.encode() {
        Some(data) => data,
        None => {
            return Err(IntroError::SizeOverflow);
        },
    };
    let mut writes: Vec<Write> = Vec::new();
    writes.push(Write::Resize { address: ctx.student_intro, payer: ctx.student, data });
    let invocation = Invocation { writes, ledger: None };
    assert(invocation@.writes =~= update_plan(
        store@,
        store.limit(),
        ctx.student_intro@,
        ctx.student@,
        address_view(expected),
        name@,
        message@,
    )->Ok_0.writes);
    Ok(invocation)
}

/// Replaces the name and message of the introduction of the student who
/// signs, resizing its storage to fit.
///
/// The introduction must sit at the address that derives from the
/// student's identity and the bump stored in it, under the program that
/// owns the store. What is staged and when the operation fails is as
/// [`update_plan`] says of that derivation.
pub fn update_student_intro(
    store: &Store,
    ctx: &UpdateStudentIntro,
    name: String,
    message: String,
) -> (r: Result<Invocation, IntroError>)
    ensures
        plan_view(r) == update_plan(
            store@,
            store.limit(),
            ctx.student_intro@,
            ctx.student@,
            intro_check(store@, ctx.student_intro@, ctx.student@, store.program_id()),
            name@,
            message@,
        ),
{
    let program = store.program();
    let expected = match store.read_intro(&ctx.student_intro) {
        Some(stored) => rederive_address(&intro_seeds(&ctx.student), stored.bump, &program),
        None => None,
    };
    plan_update(store, ctx, expected, name, message)
}

/// What closing an introduction comes to, given the address it should
/// have.
///
/// It fails with `NotFound` where no introduction is stored at the
/// address; else with `OwnerMismatch` where the stored owner is not the
/// student; else with `AddressMismatch` where the address is not the one
/// that derives for the student with the stored bump. Otherwise it stages
/// one write, which frees the slot and refunds the student. Counters and
/// replies are not touched.
pub open spec fn close_plan(
    records: Records,
    intro: Seq<u8>,
    student: Seq<u8>,
    expected: Option<Seq<u8>>,
) -> Result<InvocationView, IntroError> {
    if stored_intro(records, intro) is None {
        Err(IntroError::NotFound)
    } else if stored_intro(records, intro)->0.student != student {
        Err(IntroError::OwnerMismatch)
    } else if expected != Some(intro) {
        Err(IntroError::AddressMismatch)
    } else {
        Ok(
            InvocationView {
                writes: seq![WriteView::Destroy { address: intro, refund_to: student }],
                ledger: None,
            },
        )
    }
}

/// Plans the closing of an introduction from the address it should have.
pub fn plan_close(store: &Store, ctx: &Close, expected: Option<Address>) -> (r: Result<
    Invocation,
    IntroError,
>)
    ensures
        plan_view(r) == close_plan(
            store@,
            ctx.student_intro@,
            ctx.student@,
            address_view(expected),
        ),
{
    let stored = match store.read_intro(&ctx.student_intro) {
        Some(stored) => stored,
        None => {
            return Err(IntroError::NotFound);
        },
    };
    if !stored.student.same(&ctx.student) {
        return Err(IntroError::OwnerMismatch);
    }
    let matches = match expected {
        Some(address) => address.same(&ctx.student_intro),
        None => false,
    };
    if !matches {
        return Err(IntroError::AddressMismatch);
    }
    let mut writes: Vec<Write> = Vec::new();
    writes.push(Write::Destroy { address: ctx.student_intro, refund_to: ctx.student });
    let invocation = Invocation { writes, ledger: None };
    assert(invocation@.writes =~= close_plan(
        store@,
        ctx.student_intro@,
        ctx.student@,
        address_view(expected),
    )->Ok_0.writes);
    Ok(invocation)
}

/// Closes the introduction of the student who signs: its storage is freed
/// and its cost refunded to the student.
///
/// The introduction must sit at the address that derives from the
/// student's identity and the bump stored in it, under the program that
/// owns the store. What is staged and when the operation fails is as
/// [`close_plan`] says of that derivation.
pub fn close(store: &Store, ctx: &Close) -> (r: Result<Invocation, IntroError>)
    ensures
        plan_view(r) == close_plan(
            store@,
            ctx.student_intro@,
            ctx.student@,
            intro_check(store@, ctx.student_intro@, ctx.student@, store.program_id()),
        ),
{
    let program = store.program();
    let expected = match store.read_intro(&ctx.student_intro) {
        Some(stored) => rederive_address(&intro_seeds(&ctx.student), stored.bump, &program),
        None => None,
    };
    plan_close(store, ctx, expected)
}

/// What setting up the reward mint comes to, given the derivation of its
/// address: `DerivationFailed` where it has none, and else no write and
/// one ledger call, which sets up the mint at that address with six
/// decimals, paid by the user, the mint being its own authority.
pub open spec fn mint_plan(user: Seq<u8>, mint: Option<(Seq<u8>, u8)>) -> Result<
    InvocationView,
    IntroError,
> {
    match mint {
        Some(m) => Ok(
            InvocationView {
                writes: Seq::<WriteView>::empty(),
                ledger: Some(
                    LedgerCallView::InitializeMint {
                        mint: m.0,
                        decimals: 6,
                        authority: m.0,
                        payer: user,
                    },
                ),
            },
        ),
        None => Err(IntroError::DerivationFailed),
    }
}

/// Plans the setting up of the reward mint from the derivation of its
/// address.
pub fn plan_mint(ctx: &InitializeMint, mint: Option<(Address, u8)>) -> (r: Result<
    Invocation,
    IntroError,
>)
    ensures
        plan_view(r) == mint_plan(ctx.user@, derived_view(mint)),
{
    match mint {
        Some((address, _)) => {
            let invocation = Invocation {
                writes: Vec::new(),
                ledger: Some(
                    LedgerCall::InitializeMint {
                        mint: address,
                        decimals: MINT_DECIMALS,
                        authority: address,
                        payer: ctx.user,
                    },
                ),
            };
            assert(invocation@.writes =~= Seq::<WriteView>::empty());
            Ok(invocation)
        },
        None => Err(IntroError::DerivationFailed),
    }
}

/// Sets up the reward mint, at the address that derives from the seed
/// `mint` under the program that owns the store. What is asked of the
/// ledger is as [`mint_plan`] says of that derivation.
pub fn initialize_token_mint(store: &Store, ctx: &InitializeMint) -> (r: Result<
    Invocation,
    IntroError,
>)
    ensures
        plan_view(r) == mint_plan(ctx.user@, found_address(mint_seeds_view(), store.program_id())),
{
    let program = store.program();
    let mint = derive_address(&mint_seeds(), &program);
    plan_mint(ctx, mint)
}

} // verus!
