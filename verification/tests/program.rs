use anchor_lang::prelude::Pubkey;
use std::collections::HashMap;
use student_intro::address::{
    counter_seeds, derive_address, intro_seeds, mint_seeds, rederive_address, reply_seeds,
};
use student_intro::ledger::{INTRO_REWARD, MINT_DECIMALS, REPLY_REWARD};
use student_intro::program::{plan_close, plan_intro, plan_mint, plan_reply, plan_reward, plan_update};
use student_intro::{
    add_reply, add_student_intro, close, initialize_token_mint, mint_reward, update_student_intro,
    AddReply, AddStudentIntro, Address, Authority, Close, InitializeMint, IntroError, Invocation,
    LedgerCall, Reply, ReplyCounter, Settlement, Store, StudentInfo, UpdateStudentIntro, Write,
};

const CEILING: usize = 10240;

fn program() -> Address {
    Address::new([42u8; 32])
}

fn who(n: u8) -> Address {
    Address::new([n; 32])
}

fn intro_of(student: &Address) -> (Address, u8) {
    derive_address(&intro_seeds(student), &program()).unwrap()
}

fn counter_of(intro: &Address) -> (Address, u8) {
    derive_address(&counter_seeds(intro), &program()).unwrap()
}

fn reply_at(intro: &Address, position: u64) -> Address {
    derive_address(&reply_seeds(intro, position), &program()).unwrap().0
}

fn mint() -> (Address, u8) {
    derive_address(&mint_seeds(), &program()).unwrap()
}

/// A ledger that keeps a balance for each owner and can be told to refuse.
struct Ledger {
    balances: HashMap<Address, u64>,
    paused: bool,
}

impl Ledger {
    fn new() -> Ledger {
        Ledger { balances: HashMap::new(), paused: false }
    }

    fn balance(&self, owner: &Address) -> u64 {
        *self.balances.get(owner).unwrap_or(&0)
    }

    fn run(&mut self, store: &mut Store, invocation: &Invocation) -> Result<(), IntroError> {
        let settlement = if self.paused && invocation.ledger.is_some() {
            Settlement::LedgerRejected
        } else {
            Settlement::Accepted
        };
        store.commit(invocation, settlement)?;
        if let Some(LedgerCall::MintTo { recipient, amount, .. }) = &invocation.ledger {
            *self.balances.entry(*recipient).or_insert(0) += amount;
        }
        Ok(())
    }
}

fn store_with_intro(student: &Address, name: &str, message: &str) -> Store {
    let mut store = Store::new(program(), CEILING);
    let invocation = add_student_intro(
        &store,
        &AddStudentIntro { student: *student },
        name.to_string(),
        message.to_string(),
    )
    .unwrap();
    store.commit(&invocation, Settlement::Accepted).unwrap();
    store
}

fn reply_ctx(owner: &Address, replier: &Address) -> AddReply {
    let (intro, _) = intro_of(owner);
    AddReply { student_intro: intro, reply_counter: counter_of(&intro).0, student: *replier }
}

#[test]
fn reward_amounts() {
    assert_eq!(INTRO_REWARD, 10_000_000);
    assert_eq!(REPLY_REWARD, 5_000_000);
    assert_eq!(MINT_DECIMALS, 6);
}

#[test]
fn mint_reward_names_the_mint_and_signs_as_it() {
    let (address, bump) = mint();
    let (expected, expected_bump) =
        Pubkey::find_program_address(&[b"mint"], &Pubkey::new_from_array(program().bytes));
    assert_eq!(address.bytes, expected.to_bytes());
    assert_eq!(bump, expected_bump);
    assert_eq!(
        mint_reward(&program(), 123, &who(1)),
        Ok(LedgerCall::MintTo {
            mint: address,
            recipient: who(1),
            amount: 123,
            signer: Authority { seeds: vec![b"mint".to_vec()], bump },
        })
    );
}

#[test]
fn plan_reward_needs_the_mint() {
    assert_eq!(plan_reward(None, 5, &who(1)), Err(IntroError::DerivationFailed));
    assert_eq!(
        plan_reward(Some((who(7), 3)), 5, &who(1)),
        Ok(LedgerCall::MintTo {
            mint: who(7),
            recipient: who(1),
            amount: 5,
            signer: Authority { seeds: vec![b"mint".to_vec()], bump: 3 },
        })
    );
}

#[test]
fn create_stages_intro_counter_and_reward() {
    let store = Store::new(program(), CEILING);
    let a = who(1);
    let (intro, bump) = intro_of(&a);
    let (counter, counter_bump) = counter_of(&intro);
    let (mint, mint_bump) = mint();
    let invocation = add_student_intro(
        &store,
        &AddStudentIntro { student: a },
        "Alice".to_string(),
        "Hi there".to_string(),
    )
    .unwrap();
    let info = StudentInfo {
        student: a,
        name: "Alice".to_string(),
        message: "Hi there".to_string(),
        bump,
    };
    assert_eq!(
        invocation,
        Invocation {
            writes: vec![
                Write::Create { address: intro, payer: a, data: info.encode().unwrap() },
                Write::Create {
                    address: counter,
                    payer: a,
                    data: ReplyCounter { counter: 0, bump: counter_bump }.encode(),
                },
            ],
            ledger: Some(LedgerCall::MintTo {
                mint,
                recipient: a,
                amount: 10_000_000,
                signer: Authority { seeds: vec![b"mint".to_vec()], bump: mint_bump },
            }),
        }
    );
    assert!(!store.contains(&intro));
}

#[test]
fn created_intro_reads_back() {
    let a = who(1);
    let store = store_with_intro(&a, "Alice", "Hi there");
    let (intro, bump) = intro_of(&a);
    let (counter, counter_bump) = counter_of(&intro);
    assert_eq!(
        store.read_intro(&intro),
        Some(StudentInfo {
            student: a,
            name: "Alice".to_string(),
            message: "Hi there".to_string(),
            bump,
        })
    );
    assert_eq!(store.get(&intro).unwrap().len(), 49 + 5 + 8);
    assert_eq!(store.read_counter(&counter), Some(ReplyCounter { counter: 0, bump: counter_bump }));
    assert_eq!(store.get(&counter).unwrap().len(), 17);
    assert_eq!(store.read_intro(&counter), None);
    assert_eq!(store.read_counter(&intro), None);
}

#[test]
fn create_twice_is_a_duplicate() {
    let a = who(1);
    let store = store_with_intro(&a, "Alice", "Hi there");
    let again = add_student_intro(
        &store,
        &AddStudentIntro { student: a },
        "Alice".to_string(),
        "Again".to_string(),
    );
    assert_eq!(again, Err(IntroError::DuplicateRecord));
    let other = add_student_intro(
        &store,
        &AddStudentIntro { student: who(2) },
        "Bob".to_string(),
        "Hello".to_string(),
    );
    assert!(other.is_ok());
}

#[test]
fn create_is_a_duplicate_when_only_the_counter_exists() {
    let a = who(1);
    let (intro, _) = intro_of(&a);
    let (counter, _) = counter_of(&intro);
    let mut store = Store::new(program(), CEILING);
    store.create(counter, 17).unwrap();
    let r = add_student_intro(
        &store,
        &AddStudentIntro { student: a },
        "Alice".to_string(),
        "Hi".to_string(),
    );
    assert_eq!(r, Err(IntroError::DuplicateRecord));
}

#[test]
fn create_sizes_the_intro_before_it_looks_at_the_counter() {
    let a = who(1);
    let (intro, _) = intro_of(&a);
    let (counter, _) = counter_of(&intro);
    let ctx = AddStudentIntro { student: a };
    let long = "x".repeat(CEILING);

    let mut closed = Store::new(program(), CEILING);
    closed.create(counter, 17).unwrap();
    assert_eq!(
        add_student_intro(&closed, &ctx, long.clone(), "m".to_string()),
        Err(IntroError::SizeOverflow)
    );
    assert_eq!(
        add_student_intro(&closed, &ctx, "n".to_string(), "m".to_string()),
        Err(IntroError::DuplicateRecord)
    );

    let active = store_with_intro(&a, "Alice", "Hi there");
    assert_eq!(
        add_student_intro(&active, &ctx, long, "m".to_string()),
        Err(IntroError::DuplicateRecord)
    );
}

#[test]
fn plan_intro_sizes_between_the_two_duplicate_checks() {
    let a = who(1);
    let long = "x".repeat(100);
    let mut store = Store::new(program(), 60);
    store.create(who(3), 17).unwrap();
    let found = |n: u8| Some((who(n), 1));
    let r = plan_intro(&store, &a, found(2), found(3), found(4), long.clone(), long.clone());
    assert_eq!(r, Err(IntroError::SizeOverflow));
    let r = plan_intro(&store, &a, found(2), found(3), found(4), "a".to_string(), "b".to_string());
    assert_eq!(r, Err(IntroError::DuplicateRecord));
    let r = plan_intro(&store, &a, found(3), found(5), found(4), long.clone(), long);
    assert_eq!(r, Err(IntroError::DuplicateRecord));
}

#[test]
fn create_refuses_texts_over_the_ceiling() {
    let store = Store::new(program(), 100);
    let ctx = AddStudentIntro { student: who(1) };
    let fits = add_student_intro(&store, &ctx, "a".repeat(20), "b".repeat(31));
    assert_eq!(fits.unwrap().writes.len(), 2);
    let over = add_student_intro(&store, &ctx, "a".repeat(20), "b".repeat(32));
    assert_eq!(over, Err(IntroError::SizeOverflow));
    let tiny = Store::new(program(), 48);
    let none = add_student_intro(&tiny, &ctx, String::new(), String::new());
    assert_eq!(none, Err(IntroError::SizeOverflow));
}

#[test]
fn size_counts_bytes_not_characters() {
    let store = Store::new(program(), 49 + 4);
    let ctx = AddStudentIntro { student: who(1) };
    assert!(add_student_intro(&store, &ctx, "éé".to_string(), String::new()).is_ok());
    assert_eq!(
        add_student_intro(&store, &ctx, "ééé".to_string(), String::new()),
        Err(IntroError::SizeOverflow)
    );
}

#[test]
fn plan_intro_checks_in_order() {
    let store = Store::new(program(), 60);
    let a = who(1);
    let long = "x".repeat(100);
    let missing = plan_intro(&store, &a, None, Some((who(3), 1)), Some((who(4), 1)), long.clone(), long.clone());
    assert_eq!(missing, Err(IntroError::DerivationFailed));
    let missing = plan_intro(&store, &a, Some((who(2), 1)), None, Some((who(4), 1)), "a".to_string(), "b".to_string());
    assert_eq!(missing, Err(IntroError::DerivationFailed));
    let missing = plan_intro(&store, &a, Some((who(2), 1)), Some((who(3), 1)), None, "a".to_string(), "b".to_string());
    assert_eq!(missing, Err(IntroError::DerivationFailed));
    let same = plan_intro(&store, &a, Some((who(2), 1)), Some((who(2), 1)), Some((who(4), 1)), long.clone(), long.clone());
    assert_eq!(same, Err(IntroError::SizeOverflow));
    let big = plan_intro(&store, &a, Some((who(2), 1)), Some((who(3), 1)), Some((who(4), 1)), long.clone(), long);
    assert_eq!(big, Err(IntroError::SizeOverflow));
    let same = plan_intro(&store, &a, Some((who(2), 1)), Some((who(2), 1)), Some((who(4), 1)), "a".to_string(), "b".to_string());
    assert_eq!(same, Err(IntroError::DuplicateRecord));
    let ok = plan_intro(&store, &a, Some((who(2), 7)), Some((who(3), 8)), Some((who(4), 9)), "a".to_string(), "b".to_string()).unwrap();
    assert_eq!(
        ok.writes[0],
        Write::Create {
            address: who(2),
            payer: a,
            data: StudentInfo { student: a, name: "a".to_string(), message: "b".to_string(), bump: 7 }
                .encode()
                .unwrap(),
        }
    );
    assert_eq!(
        ok.writes[1],
        Write::Create { address: who(3), payer: a, data: ReplyCounter { counter: 0, bump: 8 }.encode() }
    );
}

#[test]
fn scenario_create_then_two_replies() {
    let (a, b, c) = (who(1), who(2), who(3));
    let mut store = Store::new(program(), CEILING);
    let mut ledger = Ledger::new();
    let (intro, _) = intro_of(&a);
    let (counter, counter_bump) = counter_of(&intro);

    let created = add_student_intro(
        &store,
        &AddStudentIntro { student: a },
        "Alice".to_string(),
        "Hi there".to_string(),
    )
    .unwrap();
    ledger.run(&mut store, &created).unwrap();
    let info = store.read_intro(&intro).unwrap();
    assert_eq!((info.student, info.name.as_str(), info.message.as_str()), (a, "Alice", "Hi there"));
    assert_eq!(store.read_counter(&counter).unwrap().counter, 0);
    assert_eq!(ledger.balance(&a), 10_000_000);

    let first = add_reply(&store, &reply_ctx(&a, &b), "Welcome!".to_string()).unwrap();
    ledger.run(&mut store, &first).unwrap();
    assert_eq!(
        store.read_reply(&reply_at(&intro, 0)),
        Some(Reply { studentinfo: intro, reply: "Welcome!".to_string() })
    );
    assert_eq!(store.read_counter(&counter), Some(ReplyCounter { counter: 1, bump: counter_bump }));
    assert_eq!(ledger.balance(&b), 5_000_000);

    let second = add_reply(&store, &reply_ctx(&a, &c), "Hi!".to_string()).unwrap();
    ledger.run(&mut store, &second).unwrap();
    assert_eq!(
        store.read_reply(&reply_at(&intro, 1)),
        Some(Reply { studentinfo: intro, reply: "Hi!".to_string() })
    );
    assert_eq!(store.read_counter(&counter), Some(ReplyCounter { counter: 2, bump: counter_bump }));
    assert_eq!(ledger.balance(&c), 5_000_000);
    assert_eq!(ledger.balance(&a), 10_000_000);
    assert_eq!(ledger.balance(&b), 5_000_000);
    assert_eq!(
        store.read_reply(&reply_at(&intro, 0)),
        Some(Reply { studentinfo: intro, reply: "Welcome!".to_string() })
    );
}

#[test]
fn reply_stages_the_reply_then_the_counter() {
    let (a, b) = (who(1), who(2));
    let store = store_with_intro(&a, "Alice", "Hi there");
    let ctx = reply_ctx(&a, &b);
    let (mint, mint_bump) = mint();
    let data = Reply { studentinfo: ctx.student_intro, reply: "Welcome!".to_string() }
        .encode()
        .unwrap();
    assert_eq!(data.len(), 44 + 8);
    let counter_bump = store.read_counter(&ctx.reply_counter).unwrap().bump;
    assert_eq!(
        add_reply(&store, &ctx, "Welcome!".to_string()),
        Ok(Invocation {
            writes: vec![
                Write::Create { address: reply_at(&ctx.student_intro, 0), payer: b, data },
                Write::Resize {
                    address: ctx.reply_counter,
                    payer: b,
                    data: ReplyCounter { counter: 1, bump: counter_bump }.encode(),
                },
            ],
            ledger: Some(LedgerCall::MintTo {
                mint,
                recipient: b,
                amount: 5_000_000,
                signer: Authority { seeds: vec![b"mint".to_vec()], bump: mint_bump },
            }),
        })
    );
}

#[test]
fn n_replies_take_n_distinct_places() {
    let a = who(1);
    let mut store = store_with_intro(&a, "Alice", "Hi there");
    let (intro, _) = intro_of(&a);
    let (counter, _) = counter_of(&intro);
    let n = 12u64;
    for k in 0..n {
        let replier = who(10 + k as u8);
        let invocation = add_reply(&store, &reply_ctx(&a, &replier), format!("reply {}", k)).unwrap();
        store.commit(&invocation, Settlement::Accepted).unwrap();
        assert_eq!(store.read_counter(&counter).unwrap().counter, k + 1);
    }
    let mut places = Vec::new();
    for k in 0..n {
        let place = reply_at(&intro, k);
        assert_eq!(
            store.read_reply(&place),
            Some(Reply { studentinfo: intro, reply: format!("reply {}", k) })
        );
        assert!(!places.contains(&place));
        places.push(place);
    }
    assert_eq!(store.read_reply(&reply_at(&intro, n)), None);
}

#[test]
fn reply_needs_the_intro_and_the_counter() {
    let (a, b) = (who(1), who(2));
    let store = store_with_intro(&a, "Alice", "Hi there");
    let ctx = reply_ctx(&a, &b);
    let no_intro = AddReply { student_intro: who(99), ..ctx };
    assert_eq!(add_reply(&store, &no_intro, "x".to_string()), Err(IntroError::NotFound));
    let no_counter = AddReply { reply_counter: who(99), ..ctx };
    assert_eq!(add_reply(&store, &no_counter, "x".to_string()), Err(IntroError::NotFound));
    let swapped = AddReply { student_intro: ctx.reply_counter, reply_counter: ctx.student_intro, ..ctx };
    assert_eq!(add_reply(&store, &swapped, "x".to_string()), Err(IntroError::NotFound));
    let empty = Store::new(program(), CEILING);
    assert_eq!(add_reply(&empty, &ctx, "x".to_string()), Err(IntroError::NotFound));
}

#[test]
fn reply_refuses_the_counter_of_another_intro() {
    let (a, b) = (who(1), who(2));
    let mut store = store_with_intro(&a, "Alice", "Hi there");
    let other = add_student_intro(
        &store,
        &AddStudentIntro { student: b },
        "Bob".to_string(),
        "Hello".to_string(),
    )
    .unwrap();
    store.commit(&other, Settlement::Accepted).unwrap();
    let ctx = AddReply {
        student_intro: intro_of(&a).0,
        reply_counter: counter_of(&intro_of(&b).0).0,
        student: who(3),
    };
    assert_eq!(add_reply(&store, &ctx, "x".to_string()), Err(IntroError::AddressMismatch));
}

#[test]
fn reply_refuses_a_counter_with_a_forged_bump() {
    let (a, b) = (who(1), who(2));
    let mut store = store_with_intro(&a, "Alice", "Hi there");
    let ctx = reply_ctx(&a, &b);
    let stored = store.read_counter(&ctx.reply_counter).unwrap();
    let forged = ReplyCounter { counter: stored.counter, bump: stored.bump.wrapping_sub(1) };
    store
        .apply(&Write::Resize { address: ctx.reply_counter, payer: b, data: forged.encode() })
        .unwrap();
    assert_eq!(add_reply(&store, &ctx, "x".to_string()), Err(IntroError::AddressMismatch));
}

#[test]
fn reply_refuses_text_over_the_ceiling() {
    let (a, b) = (who(1), who(2));
    let mut store = Store::new(program(), 62);
    let created = add_student_intro(
        &store,
        &AddStudentIntro { student: a },
        "Alice".to_string(),
        "Hi there".to_string(),
    )
    .unwrap();
    store.commit(&created, Settlement::Accepted).unwrap();
    let ctx = reply_ctx(&a, &b);
    assert!(add_reply(&store, &ctx, "r".repeat(18)).is_ok());
    assert_eq!(add_reply(&store, &ctx, "r".repeat(19)), Err(IntroError::SizeOverflow));
}

#[test]
fn reply_refuses_an_exhausted_counter() {
    let (a, b) = (who(1), who(2));
    let mut store = store_with_intro(&a, "Alice", "Hi there");
    let ctx = reply_ctx(&a, &b);
    let bump = store.read_counter(&ctx.reply_counter).unwrap().bump;
    let last = ReplyCounter { counter: u64::MAX - 1, bump };
    store
        .apply(&Write::Resize { address: ctx.reply_counter, payer: b, data: last.encode() })
        .unwrap();
    let invocation = add_reply(&store, &ctx, "x".to_string()).unwrap();
    store.commit(&invocation, Settlement::Accepted).unwrap();
    assert_eq!(store.read_counter(&ctx.reply_counter).unwrap().counter, u64::MAX);
    assert!(store.read_reply(&reply_at(&ctx.student_intro, u64::MAX - 1)).is_some());
    assert_eq!(add_reply(&store, &ctx, "x".to_string()), Err(IntroError::CounterExhausted));
}

#[test]
fn reply_refuses_a_populated_place() {
    let (a, b) = (who(1), who(2));
    let mut store = store_with_intro(&a, "Alice", "Hi there");
    let ctx = reply_ctx(&a, &b);
    store.create(reply_at(&ctx.student_intro, 0), 44).unwrap();
    assert_eq!(add_reply(&store, &ctx, "x".to_string()), Err(IntroError::DuplicateRecord));
}

#[test]
fn plan_reply_checks_in_order() {
    let (a, b) = (who(1), who(2));
    let store = store_with_intro(&a, "Alice", "Hi there");
    let ctx = reply_ctx(&a, &b);
    let good = Some(ctx.reply_counter);
    let long = "x".repeat(CEILING);
    let r = plan_reply(&store, &ctx, None, None, None, long.clone());
    assert_eq!(r, Err(IntroError::AddressMismatch));
    let r = plan_reply(&store, &ctx, Some(who(9)), None, None, long.clone());
    assert_eq!(r, Err(IntroError::AddressMismatch));
    let r = plan_reply(&store, &ctx, good, None, None, long.clone());
    assert_eq!(r, Err(IntroError::DerivationFailed));
    let r = plan_reply(&store, &ctx, good, Some((ctx.student_intro, 1)), Some((who(8), 1)), long.clone());
    assert_eq!(r, Err(IntroError::DuplicateRecord));
    let r = plan_reply(&store, &ctx, good, Some((who(7), 1)), Some((who(8), 1)), long);
    assert_eq!(r, Err(IntroError::SizeOverflow));
    let r = plan_reply(&store, &ctx, good, None, Some((who(8), 1)), "x".to_string());
    assert_eq!(r, Err(IntroError::DerivationFailed));
    let r = plan_reply(&store, &ctx, good, Some((who(7), 1)), None, "x".to_string());
    assert_eq!(r, Err(IntroError::DerivationFailed));
    let r = plan_reply(&store, &ctx, good, Some((ctx.student_intro, 1)), Some((who(8), 1)), "x".to_string());
    assert_eq!(r, Err(IntroError::DuplicateRecord));
    let r = plan_reply(&store, &ctx, good, Some((who(7), 1)), Some((who(8), 1)), "x".to_string()).unwrap();
    assert_eq!(
        r.writes[0],
        Write::Create {
            address: who(7),
            payer: b,
            data: Reply { studentinfo: ctx.student_intro, reply: "x".to_string() }.encode().unwrap(),
        }
    );
}

#[test]
fn concurrent_replies_one_wins_per_position() {
    let (a, b, c) = (who(1), who(2), who(3));
    let mut store = store_with_intro(&a, "Alice", "Hi there");
    let mut ledger = Ledger::new();
    let (intro, _) = intro_of(&a);
    let from_b = add_reply(&store, &reply_ctx(&a, &b), "first".to_string()).unwrap();
    let from_c = add_reply(&store, &reply_ctx(&a, &c), "second".to_string()).unwrap();
    assert_eq!(ledger.run(&mut store, &from_b), Ok(()));
    assert_eq!(ledger.run(&mut store, &from_c), Err(IntroError::DuplicateRecord));
    assert_eq!(store.read_reply(&reply_at(&intro, 0)).unwrap().reply, "first");
    assert_eq!(store.read_counter(&counter_of(&intro).0).unwrap().counter, 1);
    assert_eq!(ledger.balance(&b), 5_000_000);
    assert_eq!(ledger.balance(&c), 0);
    let again = add_reply(&store, &reply_ctx(&a, &c), "second".to_string()).unwrap();
    assert_eq!(ledger.run(&mut store, &again), Ok(()));
    assert_eq!(store.read_reply(&reply_at(&intro, 1)).unwrap().reply, "second");
    assert_eq!(store.read_counter(&counter_of(&intro).0).unwrap().counter, 2);
    assert_eq!(ledger.balance(&c), 5_000_000);
}

#[test]
fn replies_to_different_intros_do_not_contend() {
    let (a, b, c) = (who(1), who(2), who(3));
    let mut store = store_with_intro(&a, "Alice", "Hi there");
    let other = add_student_intro(
        &store,
        &AddStudentIntro { student: b },
        "Bob".to_string(),
        "Hello".to_string(),
    )
    .unwrap();
    store.commit(&other, Settlement::Accepted).unwrap();
    let to_a = add_reply(&store, &reply_ctx(&a, &c), "to a".to_string()).unwrap();
    let to_b = add_reply(&store, &reply_ctx(&b, &c), "to b".to_string()).unwrap();
    assert_eq!(store.commit(&to_a, Settlement::Accepted), Ok(()));
    assert_eq!(store.commit(&to_b, Settlement::Accepted), Ok(()));
    assert_eq!(store.read_reply(&reply_at(&intro_of(&a).0, 0)).unwrap().reply, "to a");
    assert_eq!(store.read_reply(&reply_at(&intro_of(&b).0, 0)).unwrap().reply, "to b");
}

#[test]
fn ledger_failure_rolls_back_the_records() {
    let (a, b) = (who(1), who(2));
    let mut store = Store::new(program(), CEILING);
    let mut ledger = Ledger::new();
    ledger.paused = true;
    let created = add_student_intro(
        &store,
        &AddStudentIntro { student: a },
        "Alice".to_string(),
        "Hi there".to_string(),
    )
    .unwrap();
    assert_eq!(ledger.run(&mut store, &created), Err(IntroError::ExternalLedgerFailure));
    let (intro, _) = intro_of(&a);
    assert_eq!(store.read_intro(&intro), None);
    assert_eq!(store.read_counter(&counter_of(&intro).0), None);
    assert_eq!(ledger.balance(&a), 0);

    ledger.paused = false;
    ledger.run(&mut store, &created).unwrap();
    ledger.paused = true;
    let reply = add_reply(&store, &reply_ctx(&a, &b), "Welcome!".to_string()).unwrap();
    assert_eq!(ledger.run(&mut store, &reply), Err(IntroError::ExternalLedgerFailure));
    assert_eq!(store.read_reply(&reply_at(&intro, 0)), None);
    assert_eq!(store.read_counter(&counter_of(&intro).0).unwrap().counter, 0);
    assert_eq!(ledger.balance(&b), 0);
}

#[test]
fn insufficient_funds_leave_no_record() {
    let a = who(1);
    let mut store = Store::new(program(), CEILING);
    let created = add_student_intro(
        &store,
        &AddStudentIntro { student: a },
        "Alice".to_string(),
        "Hi there".to_string(),
    )
    .unwrap();
    assert_eq!(
        store.commit(&created, Settlement::InsufficientFunds),
        Err(IntroError::InsufficientFunds)
    );
    assert_eq!(store.read_intro(&intro_of(&a).0), None);
    assert!(!store.contains(&counter_of(&intro_of(&a).0).0));
}

#[test]
fn update_resizes_to_the_exact_new_size() {
    let a = who(1);
    let mut store = store_with_intro(&a, "Alice", "A rather long first message");
    let (intro, bump) = intro_of(&a);
    assert_eq!(store.get(&intro).unwrap().len(), 49 + 5 + 27);
    let ctx = UpdateStudentIntro { student_intro: intro, student: a };
    let shorter = update_student_intro(&store, &ctx, "Al".to_string(), "Short".to_string()).unwrap();
    let info = StudentInfo { student: a, name: "Al".to_string(), message: "Short".to_string(), bump };
    assert_eq!(
        shorter,
        Invocation {
            writes: vec![Write::Resize { address: intro, payer: a, data: info.encode().unwrap() }],
            ledger: None,
        }
    );
    store.commit(&shorter, Settlement::Accepted).unwrap();
    assert_eq!(store.get(&intro).unwrap().len(), 49 + 2 + 5);
    assert_eq!(store.get(&intro).unwrap(), &info.encode().unwrap());
    assert_eq!(store.read_intro(&intro), Some(info));

    let longer =
        update_student_intro(&store, &ctx, "Alice".to_string(), "m".repeat(300)).unwrap();
    store.commit(&longer, Settlement::Accepted).unwrap();
    assert_eq!(store.get(&intro).unwrap().len(), 49 + 5 + 300);
    assert_eq!(store.read_intro(&intro).unwrap().message, "m".repeat(300));
    assert_eq!(store.read_counter(&counter_of(&intro).0).unwrap().counter, 0);
}

#[test]
fn update_needs_the_intro() {
    let a = who(1);
    let store = Store::new(program(), CEILING);
    let ctx = UpdateStudentIntro { student_intro: intro_of(&a).0, student: a };
    assert_eq!(
        update_student_intro(&store, &ctx, "a".to_string(), "b".to_string()),
        Err(IntroError::NotFound)
    );
    let store = store_with_intro(&a, "Alice", "Hi there");
    let at_counter = UpdateStudentIntro { student_intro: counter_of(&intro_of(&a).0).0, student: a };
    assert_eq!(
        update_student_intro(&store, &at_counter, "a".to_string(), "b".to_string()),
        Err(IntroError::NotFound)
    );
}

#[test]
fn update_by_another_identity_is_an_owner_mismatch() {
    let (a, b) = (who(1), who(2));
    let store = store_with_intro(&a, "Alice", "Hi there");
    let ctx = UpdateStudentIntro { student_intro: intro_of(&a).0, student: b };
    assert_eq!(
        update_student_intro(&store, &ctx, "Bob".to_string(), "Mine now".to_string()),
        Err(IntroError::OwnerMismatch)
    );
}

#[test]
fn update_and_close_refuse_an_intro_at_another_address() {
    let a = who(1);
    let (_, bump) = intro_of(&a);
    let elsewhere = who(77);
    let mut store = Store::new(program(), CEILING);
    let info = StudentInfo { student: a, name: "Alice".to_string(), message: "x".to_string(), bump };
    store
        .apply(&Write::Create { address: elsewhere, payer: a, data: info.encode().unwrap() })
        .unwrap();
    assert_eq!(
        update_student_intro(
            &store,
            &UpdateStudentIntro { student_intro: elsewhere, student: a },
            "Alice".to_string(),
            "y".to_string()
        ),
        Err(IntroError::AddressMismatch)
    );
    assert_eq!(
        close(&store, &Close { student_intro: elsewhere, student: a }),
        Err(IntroError::AddressMismatch)
    );
}

#[test]
fn update_and_close_refuse_an_intro_with_a_forged_bump() {
    let a = who(1);
    let (intro, bump) = intro_of(&a);
    let mut store = Store::new(program(), CEILING);
    let forged = StudentInfo {
        student: a,
        name: "Alice".to_string(),
        message: "x".to_string(),
        bump: bump.wrapping_sub(1),
    };
    store
        .apply(&Write::Create { address: intro, payer: a, data: forged.encode().unwrap() })
        .unwrap();
    assert_eq!(
        update_student_intro(
            &store,
            &UpdateStudentIntro { student_intro: intro, student: a },
            "Alice".to_string(),
            "y".to_string()
        ),
        Err(IntroError::AddressMismatch)
    );
    assert_eq!(
        close(&store, &Close { student_intro: intro, student: a }),
        Err(IntroError::AddressMismatch)
    );
}

#[test]
fn update_refuses_an_intro_with_another_owner_stored() {
    let (a, b) = (who(1), who(2));
    let (intro, bump) = intro_of(&a);
    let mut store = Store::new(program(), CEILING);
    let foreign = StudentInfo { student: b, name: "Bob".to_string(), message: "x".to_string(), bump };
    store
        .apply(&Write::Create { address: intro, payer: b, data: foreign.encode().unwrap() })
        .unwrap();
    let ctx = UpdateStudentIntro { student_intro: intro, student: a };
    assert_eq!(
        update_student_intro(&store, &ctx, "Alice".to_string(), "y".to_string()),
        Err(IntroError::OwnerMismatch)
    );
    assert_eq!(
        close(&store, &Close { student_intro: intro, student: a }),
        Err(IntroError::OwnerMismatch)
    );
}

#[test]
fn update_refuses_texts_over_the_ceiling() {
    let a = who(1);
    let mut store = Store::new(program(), 100);
    let created = add_student_intro(
        &store,
        &AddStudentIntro { student: a },
        "Alice".to_string(),
        "Hi".to_string(),
    )
    .unwrap();
    store.commit(&created, Settlement::Accepted).unwrap();
    let ctx = UpdateStudentIntro { student_intro: intro_of(&a).0, student: a };
    assert!(update_student_intro(&store, &ctx, "Alice".to_string(), "m".repeat(46)).is_ok());
    assert_eq!(
        update_student_intro(&store, &ctx, "Alice".to_string(), "m".repeat(47)),
        Err(IntroError::SizeOverflow)
    );
    let stranger = UpdateStudentIntro { student_intro: intro_of(&a).0, student: who(2) };
    assert_eq!(
        update_student_intro(&store, &stranger, "Alice".to_string(), "m".repeat(47)),
        Err(IntroError::OwnerMismatch)
    );
}

#[test]
fn plan_update_checks_in_order() {
    let a = who(1);
    let store = store_with_intro(&a, "Alice", "Hi there");
    let (intro, bump) = intro_of(&a);
    assert_eq!(rederive_address(&intro_seeds(&a), bump, &program()), Some(intro));
    let ctx = UpdateStudentIntro { student_intro: intro, student: a };
    let r = plan_update(&store, &ctx, None, "a".to_string(), "b".to_string());
    assert_eq!(r, Err(IntroError::AddressMismatch));
    let stranger = UpdateStudentIntro { student_intro: intro, student: who(2) };
    let long = "x".repeat(CEILING);
    let r = plan_update(&store, &ctx, None, long.clone(), long.clone());
    assert_eq!(r, Err(IntroError::AddressMismatch));
    let r = plan_update(&store, &ctx, Some(intro), long.clone(), long.clone());
    assert_eq!(r, Err(IntroError::SizeOverflow));
    let r = plan_update(&store, &stranger, None, long.clone(), long);
    assert_eq!(r, Err(IntroError::OwnerMismatch));
    let r = plan_update(&store, &stranger, Some(intro), "a".to_string(), "b".to_string());
    assert_eq!(r, Err(IntroError::OwnerMismatch));
    let r = plan_update(&store, &ctx, Some(intro), "a".to_string(), "b".to_string()).unwrap();
    assert_eq!(r.ledger, None);
    assert_eq!(r.writes.len(), 1);
}

#[test]
fn close_frees_the_intro_and_nothing_else() {
    let (a, b) = (who(1), who(2));
    let mut store = store_with_intro(&a, "Alice", "Hi there");
    let (intro, _) = intro_of(&a);
    let (counter, _) = counter_of(&intro);
    let reply = add_reply(&store, &reply_ctx(&a, &b), "Welcome!".to_string()).unwrap();
    store.commit(&reply, Settlement::Accepted).unwrap();

    let ctx = Close { student_intro: intro, student: a };
    let closing = close(&store, &ctx).unwrap();
    assert_eq!(
        closing,
        Invocation {
            writes: vec![Write::Destroy { address: intro, refund_to: a }],
            ledger: None,
        }
    );
    store.commit(&closing, Settlement::Accepted).unwrap();
    assert_eq!(store.read_intro(&intro), None);
    assert!(!store.contains(&intro));
    assert_eq!(store.read_counter(&counter).unwrap().counter, 1);
    assert_eq!(store.read_reply(&reply_at(&intro, 0)).unwrap().reply, "Welcome!");

    assert_eq!(close(&store, &ctx), Err(IntroError::NotFound));
    assert_eq!(
        update_student_intro(
            &store,
            &UpdateStudentIntro { student_intro: intro, student: a },
            "a".to_string(),
            "b".to_string()
        ),
        Err(IntroError::NotFound)
    );
    assert_eq!(
        add_reply(&store, &reply_ctx(&a, &b), "late".to_string()),
        Err(IntroError::NotFound)
    );
}

#[test]
fn close_by_another_identity_is_an_owner_mismatch() {
    let (a, b) = (who(1), who(2));
    let store = store_with_intro(&a, "Alice", "Hi there");
    let ctx = Close { student_intro: intro_of(&a).0, student: b };
    assert_eq!(close(&store, &ctx), Err(IntroError::OwnerMismatch));
    assert_eq!(plan_close(&store, &ctx, None), Err(IntroError::OwnerMismatch));
    assert_eq!(plan_close(&store, &ctx, Some(ctx.student_intro)), Err(IntroError::OwnerMismatch));
    let own = Close { student_intro: intro_of(&a).0, student: a };
    assert_eq!(plan_close(&store, &own, None), Err(IntroError::AddressMismatch));
    assert_eq!(plan_close(&store, &own, Some(who(9))), Err(IntroError::AddressMismatch));
    assert!(store.read_intro(&own.student_intro).is_some());
}

#[test]
fn create_after_close_is_refused_while_the_old_counter_stays() {
    let a = who(1);
    let mut store = store_with_intro(&a, "Alice", "Hi there");
    let (intro, _) = intro_of(&a);
    let closing = close(&store, &Close { student_intro: intro, student: a }).unwrap();
    store.commit(&closing, Settlement::Accepted).unwrap();
    let again = add_student_intro(
        &store,
        &AddStudentIntro { student: a },
        "Alice".to_string(),
        "Back".to_string(),
    );
    assert_eq!(again, Err(IntroError::DuplicateRecord));
    assert!(store.contains(&counter_of(&intro).0));
}

#[test]
fn initialize_mint_asks_the_ledger_and_writes_nothing() {
    let store = Store::new(program(), CEILING);
    let (address, _) = mint();
    assert_eq!(
        initialize_token_mint(&store, &InitializeMint { user: who(5) }),
        Ok(Invocation {
            writes: Vec::new(),
            ledger: Some(LedgerCall::InitializeMint {
                mint: address,
                decimals: 6,
                authority: address,
                payer: who(5),
            }),
        })
    );
    assert_eq!(
        plan_mint(&InitializeMint { user: who(5) }, None),
        Err(IntroError::DerivationFailed)
    );
}

#[test]
fn initialize_mint_settles_without_touching_the_store() {
    let mut store = store_with_intro(&who(1), "Alice", "Hi there");
    let setup = initialize_token_mint(&store, &InitializeMint { user: who(5) }).unwrap();
    assert_eq!(store.commit(&setup, Settlement::Accepted), Ok(()));
    assert!(store.read_intro(&intro_of(&who(1)).0).is_some());
    assert_eq!(
        store.commit(&setup, Settlement::LedgerRejected),
        Err(IntroError::ExternalLedgerFailure)
    );
}
