//! What holds of the operations taken together.
//!
//! The laws speak of the plans of the operations and of the records that
//! settling them leaves, the same mathematical values that the contracts
//! of the operations and of [`Store::commit`] speak of.
use crate::address::{
    confirmed, counter_seeds_view, found_address, intro_seeds_view, mint_seeds_view,
    reply_seeds_view,
};
use crate::error::IntroError;
use crate::layout::{
    intro_space, lemma_counter_round_trip, lemma_intro_round_trip, lemma_kinds_are_apart,
    lemma_reply_round_trip, ReplyCounter, ReplyView, StudentInfoView,
};
use crate::ledger::LedgerCallView;
use crate::program::{
    close_plan, counter_check, intro_check, intro_plan, next_reply, reply_plan, reward_call,
    update_plan,
};
use crate::store::{
    applied, lemma_applied_one, lemma_applied_two, resized, settled, stored_counter,
    stored_intro, stored_reply, write_address, Records, Settlement, WriteView,
};
use vstd::prelude::*;
use vstd::utf8::encode_utf8;

verus! {

/// A planned introduction can be settled, and is then read back exactly:
/// the introduction holds the student, the name, the message and the bump
/// it was planned with, and its counter stands at zero.
pub proof fn law_intro_reads_back(
    records: Records,
    ceiling: nat,
    student: Seq<u8>,
    intro: Option<(Seq<u8>, u8)>,
    counter: Option<(Seq<u8>, u8)>,
    mint: Option<(Seq<u8>, u8)>,
    name: Seq<char>,
    message: Seq<char>,
)
    requires
        student.len() == 32,
        intro_plan(records, ceiling, student, intro, counter, mint, name, message) is Ok,
    ensures
        ({
            let plan = intro_plan(records, ceiling, student, intro, counter, mint, name, message)->Ok_0;
            let after = settled(records, ceiling, plan.writes, Settlement::Accepted);
            &&& after is Ok
            &&& stored_intro(after->Ok_0, (intro->0).0) == Some(
                StudentInfoView { student, name, message, bump: (intro->0).1 },
            )
            &&& stored_counter(after->Ok_0, (counter->0).0) == Some(
                ReplyCounter { counter: 0, bump: (counter->0).1 },
            )
        }),
{
    let info = StudentInfoView { student, name, message, bump: (intro->0).1 };
    let zero = ReplyCounter { counter: 0, bump: (counter->0).1 };
    lemma_intro_round_trip(info);
    lemma_counter_round_trip(zero);
    let first = WriteView::Create { address: (intro->0).0, payer: student, data: info.encoding() };
    let second = WriteView::Create {
        address: (counter->0).0,
        payer: student,
        data: zero.encoding(),
    };
    lemma_applied_two(records, ceiling, first, second);
}

/// An introduction that was planned with confirmed derivations is, once
/// settled, one that its owner may update and close and that anyone may
/// reply to: it is found, its address and its counter's address match
/// their derivations, and the student is its owner.
pub proof fn law_new_intro_is_accepted(
    records: Records,
    ceiling: nat,
    program: Seq<u8>,
    student: Seq<u8>,
    intro: Option<(Seq<u8>, u8)>,
    counter: Option<(Seq<u8>, u8)>,
    mint: Option<(Seq<u8>, u8)>,
    name: Seq<char>,
    message: Seq<char>,
)
    requires
        student.len() == 32,
        intro_plan(records, ceiling, student, intro, counter, mint, name, message) is Ok,
        confirmed(intro_seeds_view(student), program, intro->0),
        confirmed(counter_seeds_view((intro->0).0), program, counter->0),
    ensures
        ({
            let plan = intro_plan(records, ceiling, student, intro, counter, mint, name, message)->Ok_0;
            let after = settled(records, ceiling, plan.writes, Settlement::Accepted)->Ok_0;
            let at = (intro->0).0;
            &&& close_plan(after, at, student, intro_check(after, at, student, program)) is Ok
            &&& counter_check(after, at, (counter->0).0, program) == Some((counter->0).0)
            &&& stored_intro(after, at) is Some
            &&& stored_counter(after, (counter->0).0) is Some
        }),
{
    law_intro_reads_back(records, ceiling, student, intro, counter, mint, name, message);
}

/// The place of the reply that takes the given position under an
/// introduction.
pub open spec fn reply_place(intro: Seq<u8>, position: int, program: Seq<u8>) -> Seq<u8> {
    (found_address(reply_seeds_view(intro, position as u64), program)->0).0
}

/// What the records are once one reply is planned on them and settled,
/// or `None` where it is refused.
pub open spec fn reply_step(
    records: Records,
    ceiling: nat,
    program: Seq<u8>,
    intro: Seq<u8>,
    counter: Seq<u8>,
    student: Seq<u8>,
    reply: Seq<char>,
) -> Option<Records> {
    match reply_plan(
        records,
        ceiling,
        intro,
        counter,
        student,
        counter_check(records, intro, counter, program),
        next_reply(records, intro, counter, program),
        found_address(mint_seeds_view(), program),
        reply,
    ) {
        Ok(plan) => match settled(records, ceiling, plan.writes, Settlement::Accepted) {
            Ok(after) => Some(after),
            Err(_) => None,
        },
        Err(_) => None,
    }
}

/// What the records are once the replies, each with the student who makes
/// it, are planned and settled one after the other, or `None` where one
/// of them is refused.
pub open spec fn replied(
    records: Records,
    ceiling: nat,
    program: Seq<u8>,
    intro: Seq<u8>,
    counter: Seq<u8>,
    replies: Seq<(Seq<u8>, Seq<char>)>,
) -> Option<Records>
    decreases replies.len(),
{
    if replies.len() == 0 {
        Some(records)
    } else {
        match replied(records, ceiling, program, intro, counter, replies.drop_last()) {
            Some(before) => reply_step(
                before,
                ceiling,
                program,
                intro,
                counter,
                replies.last().0,
                replies.last().1,
            ),
            None => None,
        }
    }
}

/// One reply raises the counter by one, stores the reply at the place
/// that derives from the introduction and the counter's old value, and
/// changes nothing else.
pub proof fn law_reply_step(
    records: Records,
    ceiling: nat,
    program: Seq<u8>,
    intro: Seq<u8>,
    counter: Seq<u8>,
    student: Seq<u8>,
    reply: Seq<char>,
)
    requires
        intro.len() == 32,
        reply_step(records, ceiling, program, intro, counter, student, reply) is Some,
    ensures
        ({
            let after = reply_step(records, ceiling, program, intro, counter, student, reply)->0;
            let old_counter = stored_counter(records, counter);
            let place = reply_place(intro, old_counter->0.counter as int, program);
            &&& old_counter is Some
            &&& old_counter->0.counter < u64::MAX
            &&& found_address(reply_seeds_view(intro, old_counter->0.counter), program) is Some
            &&& !records.contains_key(place)
            &&& place != counter
            &&& stored_counter(after, counter) == Some(
                ReplyCounter {
                    counter: (old_counter->0.counter + 1) as u64,
                    bump: old_counter->0.bump,
                },
            )
            &&& stored_reply(after, place) == Some(ReplyView { studentinfo: intro, reply })
            &&& after.dom() == records.dom().insert(place)
            &&& forall|a: Seq<u8>|
                a != place && a != counter && records.contains_key(a) ==> #[trigger] after[a]
                    == records[a]
        }),
{
    let c = stored_counter(records, counter)->0;
    let at = found_address(reply_seeds_view(intro, c.counter), program)->0;
    let record = ReplyView { studentinfo: intro, reply };
    let raised = ReplyCounter { counter: (c.counter + 1) as u64, bump: c.bump };
    lemma_reply_round_trip(record);
    lemma_counter_round_trip(raised);
    let first = WriteView::Create { address: at.0, payer: student, data: record.encoding() };
    let second = WriteView::Resize { address: counter, payer: student, data: raised.encoding() };
    lemma_applied_two(records, ceiling, first, second);
    let after = reply_step(records, ceiling, program, intro, counter, student, reply)->0;
    assert(after == records.insert(at.0, record.encoding()).insert(counter, raised.encoding()));
    assert(after.dom() =~= records.dom().insert(at.0));
}

/// After N replies made one after the other to one introduction, the
/// counter has gone up by N, and each reply is stored at the place that
/// derives from the introduction and the position the reply took. No two
/// of these places are the same.
pub proof fn law_replies_in_sequence(
    records: Records,
    ceiling: nat,
    program: Seq<u8>,
    intro: Seq<u8>,
    counter: Seq<u8>,
    replies: Seq<(Seq<u8>, Seq<char>)>,
)
    requires
        intro.len() == 32,
        stored_counter(records, counter) is Some,
        replied(records, ceiling, program, intro, counter, replies) is Some,
    ensures
        ({
            let after = replied(records, ceiling, program, intro, counter, replies)->0;
            let start = stored_counter(records, counter)->0;
            &&& start.counter + replies.len() <= u64::MAX
            &&& stored_counter(after, counter) == Some(
                ReplyCounter {
                    counter: (start.counter + replies.len()) as u64,
                    bump: start.bump,
                },
            )
            &&& forall|p: int|
                start.counter <= p < start.counter + replies.len() ==> {
                    &&& found_address(reply_seeds_view(intro, p as u64), program) is Some
                    &&& stored_reply(after, #[trigger] reply_place(intro, p, program)) == Some(
                        ReplyView { studentinfo: intro, reply: replies[p - start.counter].1 },
                    )
                }
            &&& forall|p: int, q: int|
                start.counter <= p < q < start.counter + replies.len() ==> #[trigger] reply_place(
                    intro,
                    p,
                    program,
                ) != #[trigger] reply_place(intro, q, program)
        }),
    decreases replies.len(),
{
    if replies.len() > 0 {
        let earlier = replies.drop_last();
        let before = replied(records, ceiling, program, intro, counter, earlier)->0;
        law_replies_in_sequence(records, ceiling, program, intro, counter, earlier);
        let who = replies.last().0;
        let text = replies.last().1;
        law_reply_step(before, ceiling, program, intro, counter, who, text);
        let after = replied(records, ceiling, program, intro, counter, replies)->0;
        let start = stored_counter(records, counter)->0;
        let last = start.counter + earlier.len();
        let place = reply_place(intro, last, program);
        assert forall|p: int| start.counter <= p < start.counter + replies.len() implies {
            &&& found_address(reply_seeds_view(intro, p as u64), program) is Some
            &&& stored_reply(after, #[trigger] reply_place(intro, p, program)) == Some(
                ReplyView { studentinfo: intro, reply: replies[p - start.counter].1 },
            )
        } by {
            if p < last {
                let there = reply_place(intro, p, program);
                assert(earlier[p - start.counter] == replies[p - start.counter]);
                assert(stored_reply(before, there) is Some);
                assert(before.contains_key(there));
                lemma_kinds_are_apart(before[there]);
                assert(there != counter);
                assert(after[there] == before[there]);
            }
        }
        assert forall|p: int, q: int|
            start.counter <= p < q < start.counter + replies.len() implies #[trigger] reply_place(
            intro,
            p,
            program,
        ) != #[trigger] reply_place(intro, q, program) by {
            if q == last {
                let there = reply_place(intro, p, program);
                assert(stored_reply(before, there) is Some);
                assert(before.contains_key(there));
            }
        }
    }
}

/// Two replies planned on the same records for the same introduction aim
/// at the same place: once one of them is settled, the other is refused
/// with `DuplicateRecord`, whoever made it and whatever it says.
pub proof fn law_one_reply_per_position(
    records: Records,
    ceiling: nat,
    intro: Seq<u8>,
    counter: Seq<u8>,
    expected: Option<Seq<u8>>,
    reply_at: Option<(Seq<u8>, u8)>,
    mint: Option<(Seq<u8>, u8)>,
    first_student: Seq<u8>,
    first_reply: Seq<char>,
    second_student: Seq<u8>,
    second_reply: Seq<char>,
)
    requires
        intro.len() == 32,
        reply_plan(
            records,
            ceiling,
            intro,
            counter,
            first_student,
            expected,
            reply_at,
            mint,
            first_reply,
        ) is Ok,
        reply_plan(
            records,
            ceiling,
            intro,
            counter,
            second_student,
            expected,
            reply_at,
            mint,
            second_reply,
        ) is Ok,
    ensures
        ({
            let first = reply_plan(
                records,
                ceiling,
                intro,
                counter,
                first_student,
                expected,
                reply_at,
                mint,
                first_reply,
            )->Ok_0;
            let second = reply_plan(
                records,
                ceiling,
                intro,
                counter,
                second_student,
                expected,
                reply_at,
                mint,
                second_reply,
            )->Ok_0;
            let between = settled(records, ceiling, first.writes, Settlement::Accepted);
            &&& between is Ok
            &&& settled(between->Ok_0, ceiling, second.writes, Settlement::Accepted) == Err::<
                Records,
                IntroError,
            >(IntroError::DuplicateRecord)
        }),
{
    let c = stored_counter(records, counter)->0;
    let raised = ReplyCounter { counter: (c.counter + 1) as u64, bump: c.bump };
    lemma_counter_round_trip(raised);
    let at = (reply_at->0).0;
    let one = ReplyView { studentinfo: intro, reply: first_reply };
    let two = ReplyView { studentinfo: intro, reply: second_reply };
    lemma_reply_round_trip(one);
    lemma_reply_round_trip(two);
    lemma_applied_two(
        records,
        ceiling,
        WriteView::Create { address: at, payer: first_student, data: one.encoding() },
        WriteView::Resize { address: counter, payer: first_student, data: raised.encoding() },
    );
    let between = records.insert(at, one.encoding()).insert(counter, raised.encoding());
    lemma_applied_two(
        between,
        ceiling,
        WriteView::Create { address: at, payer: second_student, data: two.encoding() },
        WriteView::Resize { address: counter, payer: second_student, data: raised.encoding() },
    );
}

/// A planned update can be settled, and then the slot of the introduction
/// holds exactly the bytes of the new introduction, as many as its size:
/// nothing of what the slot held before is left in it. Every other slot is
/// as it was.
pub proof fn law_update_resizes_exactly(
    records: Records,
    ceiling: nat,
    intro: Seq<u8>,
    student: Seq<u8>,
    expected: Option<Seq<u8>>,
    name: Seq<char>,
    message: Seq<char>,
)
    requires
        student.len() == 32,
        update_plan(records, ceiling, intro, student, expected, name, message) is Ok,
    ensures
        ({
            let plan = update_plan(records, ceiling, intro, student, expected, name, message)->Ok_0;
            let after = settled(records, ceiling, plan.writes, Settlement::Accepted);
            let bump = stored_intro(records, intro)->0.bump;
            let info = StudentInfoView { student, name, message, bump };
            &&& after is Ok
            &&& after->Ok_0 == records.insert(intro, info.encoding())
            &&& after->Ok_0[intro].len() == intro_space(
                encode_utf8(name).len(),
                encode_utf8(message).len(),
            )
            &&& stored_intro(after->Ok_0, intro) == Some(info)
        }),
{
    let bump = stored_intro(records, intro)->0.bump;
    let info = StudentInfoView { student, name, message, bump };
    lemma_intro_round_trip(info);
    lemma_applied_one(
        records,
        ceiling,
        WriteView::Resize { address: intro, payer: student, data: info.encoding() },
    );
}

/// A resized slot has exactly the new size. It keeps the bytes it had up
/// to that size, and every byte beyond those it had is zero.
pub proof fn law_resized_is_exact(data: Seq<u8>, size: nat)
    ensures
        resized(data, size).len() == size,
        forall|i: int| 0 <= i < size && i < data.len() ==> resized(data, size)[i] == data[i],
        forall|i: int| data.len() <= i < size ==> resized(data, size)[i] == 0u8,
{
}

/// A planned close can be settled, and then nothing is found at the
/// address of the introduction, while every other address holds what it
/// held: counters and replies stay readable.
pub proof fn law_close_leaves_the_rest(
    records: Records,
    ceiling: nat,
    intro: Seq<u8>,
    student: Seq<u8>,
    expected: Option<Seq<u8>>,
)
    requires
        close_plan(records, intro, student, expected) is Ok,
    ensures
        ({
            let plan = close_plan(records, intro, student, expected)->Ok_0;
            let after = settled(records, ceiling, plan.writes, Settlement::Accepted);
            &&& after is Ok
            &&& after->Ok_0 == records.remove(intro)
            &&& stored_intro(after->Ok_0, intro) is None
            &&& forall|a: Seq<u8>|
                a != intro ==> {
                    &&& #[trigger] stored_counter(after->Ok_0, a) == stored_counter(records, a)
                    &&& #[trigger] stored_reply(after->Ok_0, a) == stored_reply(records, a)
                    &&& #[trigger] stored_intro(after->Ok_0, a) == stored_intro(records, a)
                }
        }),
{
    lemma_applied_one(records, ceiling, WriteView::Destroy { address: intro, refund_to: student });
}

/// The reward goes with the record. A planned introduction asks for
/// exactly 10,000,000 units for the student, a planned reply for exactly
/// 5,000,000, and the same invocation carries the writes: where the
/// ledger refuses, settling fails with `ExternalLedgerFailure` and no
/// write is applied; where a payer cannot pay, with `InsufficientFunds`.
pub proof fn law_reward_goes_with_the_record(
    records: Records,
    ceiling: nat,
    intro: Seq<u8>,
    counter: Seq<u8>,
    student: Seq<u8>,
    found_intro: Option<(Seq<u8>, u8)>,
    found_counter: Option<(Seq<u8>, u8)>,
    expected: Option<Seq<u8>>,
    reply_at: Option<(Seq<u8>, u8)>,
    mint: Option<(Seq<u8>, u8)>,
    name: Seq<char>,
    message: Seq<char>,
    reply: Seq<char>,
)
    ensures
        ({
            let plan = intro_plan(
                records,
                ceiling,
                student,
                found_intro,
                found_counter,
                mint,
                name,
                message,
            );
            plan is Ok ==> {
                &&& plan->Ok_0.ledger == Some(reward_call(mint->0, student, 10_000_000))
                &&& plan->Ok_0.ledger->0 matches LedgerCallView::MintTo { amount, recipient, .. }
                    && amount == 10_000_000 && recipient == student
                &&& settled(records, ceiling, plan->Ok_0.writes, Settlement::LedgerRejected)
                    == Err::<Records, IntroError>(IntroError::ExternalLedgerFailure)
                &&& settled(records, ceiling, plan->Ok_0.writes, Settlement::InsufficientFunds)
                    == Err::<Records, IntroError>(IntroError::InsufficientFunds)
            }
        }),
        ({
            let plan = reply_plan(
                records,
                ceiling,
                intro,
                counter,
                student,
                expected,
                reply_at,
                mint,
                reply,
            );
            plan is Ok ==> {
                &&& plan->Ok_0.ledger == Some(reward_call(mint->0, student, 5_000_000))
                &&& plan->Ok_0.ledger->0 matches LedgerCallView::MintTo { amount, recipient, .. }
                    && amount == 5_000_000 && recipient == student
                &&& settled(records, ceiling, plan->Ok_0.writes, Settlement::LedgerRejected)
                    == Err::<Records, IntroError>(IntroError::ExternalLedgerFailure)
                &&& settled(records, ceiling, plan->Ok_0.writes, Settlement::InsufficientFunds)
                    == Err::<Records, IntroError>(IntroError::InsufficientFunds)
            }
        }),
{
}

/// Writes to different addresses do not contend: whether each can be
/// applied does not depend on the other, and applied in either order they
/// leave the same records.
pub proof fn law_writes_elsewhere_commute(
    records: Records,
    ceiling: nat,
    first: WriteView,
    second: WriteView,
)
    requires
        write_address(first) != write_address(second),
    ensures
        applied(records, ceiling, first) is Ok ==> (applied(
            applied(records, ceiling, first)->Ok_0,
            ceiling,
            second,
        ) is Ok <==> applied(records, ceiling, second) is Ok),
        applied(records, ceiling, first) is Ok && applied(records, ceiling, second) is Ok ==> applied(
            applied(records, ceiling, first)->Ok_0,
            ceiling,
            second,
        ) == applied(applied(records, ceiling, second)->Ok_0, ceiling, first),
{
    if applied(records, ceiling, first) is Ok && applied(records, ceiling, second) is Ok {
        let one = applied(applied(records, ceiling, first)->Ok_0, ceiling, second);
        let other = applied(applied(records, ceiling, second)->Ok_0, ceiling, first);
        assert(one is Ok && other is Ok);
        assert(one->Ok_0 =~= other->Ok_0);
    }
}

/// Replies are never rewritten nor removed: whatever operation is planned
/// and settled, a reply that was stored is stored afterwards, unchanged.
pub proof fn law_replies_are_kept(
    records: Records,
    ceiling: nat,
    place: Seq<u8>,
    intro: Seq<u8>,
    counter: Seq<u8>,
    student: Seq<u8>,
    found_intro: Option<(Seq<u8>, u8)>,
    found_counter: Option<(Seq<u8>, u8)>,
    expected: Option<Seq<u8>>,
    reply_at: Option<(Seq<u8>, u8)>,
    mint: Option<(Seq<u8>, u8)>,
    name: Seq<char>,
    message: Seq<char>,
    reply: Seq<char>,
)
    requires
        stored_reply(records, place) is Some,
    ensures
        ({
            let plan = intro_plan(
                records,
                ceiling,
                student,
                found_intro,
                found_counter,
                mint,
                name,
                message,
            );
            plan is Ok ==> reply_kept(records, ceiling, plan->Ok_0.writes, place)
        }),
        ({
            let plan = reply_plan(
                records,
                ceiling,
                intro,
                counter,
                student,
                expected,
                reply_at,
                mint,
                reply,
            );
            plan is Ok ==> reply_kept(records, ceiling, plan->Ok_0.writes, place)
        }),
        ({
            let plan = update_plan(records, ceiling, intro, student, expected, name, message);
            plan is Ok ==> reply_kept(records, ceiling, plan->Ok_0.writes, place)
        }),
        ({
            let plan = close_plan(records, intro, student, expected);
            plan is Ok ==> reply_kept(records, ceiling, plan->Ok_0.writes, place)
        }),
{
    lemma_kinds_are_apart(records[place]);
    let created = intro_plan(
        records,
        ceiling,
        student,
        found_intro,
        found_counter,
        mint,
        name,
        message,
    );
    if created is Ok {
        let writes = created->Ok_0.writes;
        lemma_applied_two(records, ceiling, writes[0], writes[1]);
        assert(writes =~= seq![writes[0], writes[1]]);
    }
    let replied = reply_plan(
        records,
        ceiling,
        intro,
        counter,
        student,
        expected,
        reply_at,
        mint,
        reply,
    );
    if replied is Ok {
        let writes = replied->Ok_0.writes;
        lemma_applied_two(records, ceiling, writes[0], writes[1]);
        assert(writes =~= seq![writes[0], writes[1]]);
    }
    let updated = update_plan(records, ceiling, intro, student, expected, name, message);
    if updated is Ok {
        let writes = updated->Ok_0.writes;
        lemma_applied_one(records, ceiling, writes[0]);
        assert(writes =~= seq![writes[0]]);
    }
    let closed = close_plan(records, intro, student, expected);
    if closed is Ok {
        let writes = closed->Ok_0.writes;
        lemma_applied_one(records, ceiling, writes[0]);
        assert(writes =~= seq![writes[0]]);
    }
}

/// Whether settling the writes, where it succeeds, leaves the reply at
/// the place as it was.
pub open spec fn reply_kept(
    records: Records,
    ceiling: nat,
    writes: Seq<WriteView>,
    place: Seq<u8>,
) -> bool {
    let after = settled(records, ceiling, writes, Settlement::Accepted);
    after is Ok ==> after->Ok_0.contains_key(place) && after->Ok_0[place] == records[place]
}

} // verus!
