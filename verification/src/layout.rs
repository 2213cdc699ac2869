//! The persisted layout of the three kinds of record, and its size.
//!
//! A record is stored as an 8-byte discriminator that tells its kind,
//! followed by its fields in declared order. An address takes 32 bytes, the
//! counter 8 bytes in little-endian order, a bump one byte, and a text its
//! UTF-8 bytes behind a 4-byte little-endian length.
use crate::address::Address;
use crate::error::IntroError;
use vstd::bytes::{
    lemma_auto_spec_u32_to_from_le_bytes, lemma_auto_spec_u64_to_from_le_bytes,
    spec_u32_from_le_bytes, spec_u32_to_le_bytes, spec_u64_from_le_bytes, spec_u64_to_le_bytes,
    u32_from_le_bytes, u32_to_le_bytes, u64_from_le_bytes, u64_to_le_bytes,
};
use vstd::prelude::*;
use vstd::slice::{slice_subrange, slice_to_vec};
use vstd::utf8::{
    decode_utf8, decode_utf8_encode_utf8, encode_utf8, encode_utf8_decode_utf8,
    encode_utf8_valid_utf8, valid_utf8,
};

verus! {

/// Bytes taken by the discriminator that opens every record.
pub const ANCHOR_DISCRIMINATOR: usize = 8;

/// Bytes taken by an address.
pub const PUBKEY_SIZE: usize = 32;

/// Bytes taken by the length that precedes a text.
pub const STRING_PREFIX_SIZE: usize = 4;

/// Bytes taken by a bump.
pub const BUMP_SIZE: usize = 1;

/// Bytes taken by the reply counter's value.
pub const COUNTER_SIZE: usize = 8;

/// Bytes an introduction takes besides those of its two texts.
pub const STUDENT_INFO_INIT_SPACE: usize = ANCHOR_DISCRIMINATOR + PUBKEY_SIZE + STRING_PREFIX_SIZE
    + STRING_PREFIX_SIZE + BUMP_SIZE;

/// Bytes a reply counter takes.
pub const REPLY_COUNTER_SPACE: usize = ANCHOR_DISCRIMINATOR + COUNTER_SIZE + BUMP_SIZE;

/// Bytes a reply takes besides those of its text.
pub const REPLY_INIT_SPACE: usize = ANCHOR_DISCRIMINATOR + PUBKEY_SIZE + STRING_PREFIX_SIZE;

/// The discriminator of an introduction: the first eight bytes of the SHA-256 hash
/// of `account:StudentInfo`.
pub open spec fn intro_tag() -> Seq<u8> {
    seq![158u8, 222u8, 28u8, 190u8, 46u8, 150u8, 215u8, 1u8]
}

/// The discriminator of a reply counter: the first eight bytes of the SHA-256 hash
/// of `account:ReplyCounter`.
pub open spec fn counter_tag() -> Seq<u8> {
    seq![153u8, 90u8, 242u8, 157u8, 35u8, 47u8, 133u8, 149u8]
}

/// The discriminator of a reply: the first eight bytes of the SHA-256 hash
/// of `account:Reply`.
pub open spec fn reply_tag() -> Seq<u8> {
    seq![94u8, 7u8, 30u8, 141u8, 234u8, 119u8, 194u8, 246u8]
}

/// The discriminator of an introduction, as bytes.
pub fn intro_discriminator() -> (tag: [u8; 8])
    ensures
        tag@ == intro_tag(),
{
    let tag: [u8; 8] = [158, 222, 28, 190, 46, 150, 215, 1];
    assert(tag@ =~= intro_tag());
    tag
}

/// The discriminator of a reply counter, as bytes.
pub fn counter_discriminator() -> (tag: [u8; 8])
    ensures
        tag@ == counter_tag(),
{
    let tag: [u8; 8] = [153, 90, 242, 157, 35, 47, 133, 149];
    assert(tag@ =~= counter_tag());
    tag
}

/// The discriminator of a reply, as bytes.
pub fn reply_discriminator() -> (tag: [u8; 8])
    ensures
        tag@ == reply_tag(),
{
    let tag: [u8; 8] = [94, 7, 30, 141, 234, 119, 194, 246];
    assert(tag@ =~= reply_tag());
    tag
}

/// Whether a text of this many bytes has a length that its prefix can hold.
pub open spec fn text_fits(len: nat) -> bool {
    len <= u32::MAX
}

/// Bytes taken by an introduction whose texts have these many bytes.
pub open spec fn intro_space(name_len: nat, message_len: nat) -> nat {
    49 + name_len + message_len
}

/// Bytes taken by a reply whose text has this many bytes.
pub open spec fn reply_space(reply_len: nat) -> nat {
    44 + reply_len
}

/// Whether an introduction with texts of these many bytes can be stored
/// under the ceiling.
pub open spec fn intro_fits(name_len: nat, message_len: nat, ceiling: nat) -> bool {
    &&& text_fits(name_len)
    &&& text_fits(message_len)
    &&& intro_space(name_len, message_len) <= ceiling
}

/// Whether a reply with a text of this many bytes can be stored under the
/// ceiling.
pub open spec fn reply_fits(reply_len: nat, ceiling: nat) -> bool {
    &&& text_fits(reply_len)
    &&& reply_space(reply_len) <= ceiling
}

/// The exact size of an introduction, or `SizeOverflow` where it cannot be
/// stored.
pub fn intro_size(name_len: usize, message_len: usize, ceiling: usize) -> (r: Result<
    usize,
    IntroError,
>)
    ensures
        match r {
            Ok(size) => intro_fits(name_len as nat, message_len as nat, ceiling as nat) && size
                == intro_space(name_len as nat, message_len as nat),
            Err(e) => e == IntroError::SizeOverflow && !intro_fits(
                name_len as nat,
                message_len as nat,
                ceiling as nat,
            ),
        },
{
    if name_len > 0xffff_ffff || message_len > 0xffff_ffff {
        return Err(IntroError::SizeOverflow);
    }
    if ceiling < STUDENT_INFO_INIT_SPACE || name_len > ceiling - STUDENT_INFO_INIT_SPACE
        || message_len > ceiling - STUDENT_INFO_INIT_SPACE - name_len {
        return Err(IntroError::SizeOverflow);
    }
    Ok(STUDENT_INFO_INIT_SPACE + name_len + message_len)
}

/// The exact size of a reply, or `SizeOverflow` where it cannot be stored.
pub fn reply_size(reply_len: usize, ceiling: usize) -> (r: Result<usize, IntroError>)
    ensures
        match r {
            Ok(size) => reply_fits(reply_len as nat, ceiling as nat) && size == reply_space(
                reply_len as nat,
            ),
            Err(e) => e == IntroError::SizeOverflow && !reply_fits(
                reply_len as nat,
                ceiling as nat,
            ),
        },
{
    if reply_len > 0xffff_ffff {
        return Err(IntroError::SizeOverflow);
    }
    if ceiling < REPLY_INIT_SPACE || reply_len > ceiling - REPLY_INIT_SPACE {
        return Err(IntroError::SizeOverflow);
    }
    Ok(REPLY_INIT_SPACE + reply_len)
}

/// A text as it is stored: its length in bytes, then its UTF-8 bytes.
pub open spec fn text_field(text: Seq<char>) -> Seq<u8> {
    spec_u32_to_le_bytes(encode_utf8(text).len() as u32) + encode_utf8(text)
}

/// Calls `String::from_utf8`, which turns the bytes into a text when they
/// are valid UTF-8 and refuses them when they are not. The text it gives
/// has the very bytes it was given.
#[verifier::external_body]
fn text_from_utf8(bytes: Vec<u8>) -> (text: Option<String>)
    ensures
        match text {
            Some(t) => encode_utf8(t@) == bytes@,
            None => !valid_utf8(bytes@),
        },
{
    String::from_utf8(bytes).ok()
}

/// Appends the bytes to the buffer.
fn append(out: &mut Vec<u8>, bytes: &[u8])
    ensures
        final(out)@ == old(out)@ + bytes@,
{
    let mut i: usize = 0;
    while i < bytes.len()
        invariant
            0 <= i <= bytes.len(),
            out@ == old(out)@ + bytes@.subrange(0, i as int),
        decreases bytes.len() - i,
    {
        out.push(bytes[i]);
        assert(out@ =~= old(out)@ + bytes@.subrange(0, i + 1));
        i += 1;
    }
    assert(bytes@.subrange(0, bytes.len() as int) =~= bytes@);
}

/// Appends the text to the buffer as it is stored.
fn append_text(out: &mut Vec<u8>, text: &String)
    requires
        text_fits(encode_utf8(text@).len()),
    ensures
        final(out)@ == old(out)@ + text_field(text@),
{
    let raw = text.as_str().as_bytes();
    let prefix = u32_to_le_bytes(raw.len() as u32);
    append(out, prefix.as_slice());
    append(out, raw);
    assert(out@ =~= old(out)@ + text_field(text@));
}

/// Whether the bytes open with the discriminator.
fn has_tag(bytes: &[u8], tag: [u8; 8]) -> (r: bool)
    requires
        bytes@.len() >= 8,
    ensures
        r == (bytes@.subrange(0, 8) == tag@),
{
    let mut i: usize = 0;
    while i < 8
        invariant
            0 <= i <= 8,
            bytes@.len() >= 8,
            forall|j: int| 0 <= j < i ==> bytes@[j] == tag@[j],
        decreases 8 - i,
    {
        if bytes[i] != tag[i] {
            assert(bytes@.subrange(0, 8)[i as int] != tag@[i as int]);
            return false;
        }
        i += 1;
    }
    assert(bytes@.subrange(0, 8) =~= tag@);
    true
}

/// The address stored in the 32 bytes that start at `at`.
fn address_at(bytes: &[u8], at: usize) -> (a: Address)
    requires
        at + 32 <= bytes@.len(),
    ensures
        a@ == bytes@.subrange(at as int, at + 32),
{
    let total = bytes.len();
    let mut a: [u8; 32] = [0u8; 32];
    let mut i: usize = 0;
    while i < 32
        invariant
            0 <= i <= 32,
            total == bytes@.len(),
            at + 32 <= total,
            forall|j: int| 0 <= j < i ==> a@[j] == bytes@[at + j],
        decreases 32 - i,
    {
        a[i] = bytes[at + i];
        i += 1;
    }
    assert(a@ =~= bytes@.subrange(at as int, at + 32));
    Address { bytes: a }
}

/// An introduction: who wrote it, under what name, and what it says.
#[derive(Clone, Debug, PartialEq, Eq)]
pub struct StudentInfo {
    /// The identity that owns the introduction.
    pub student: Address,
    pub name: String,
    pub message: String,
    /// The bump with which the introduction's address derives.
    pub bump: u8,
}

/// An introduction as a mathematical value.
pub struct StudentInfoView {
    pub student: Seq<u8>,
    pub name: Seq<char>,
    pub message: Seq<char>,
    pub bump: u8,
}

impl View for StudentInfo {
    type V = StudentInfoView;

    open spec fn view(&self) -> StudentInfoView {
        StudentInfoView {
            student: self.student@,
            name: self.name@,
            message: self.message@,
            bump: self.bump,
        }
    }
}

impl StudentInfoView {
    /// Whether the introduction can be written down: its owner is an
    /// address and the lengths of its texts fit their prefixes.
    pub open spec fn encodable(self) -> bool {
        &&& self.student.len() == 32
        &&& text_fits(encode_utf8(self.name).len())
        &&& text_fits(encode_utf8(self.message).len())
    }

    /// The bytes the introduction is stored as.
    pub open spec fn encoding(self) -> Seq<u8> {
        intro_tag() + self.student + text_field(self.name) + text_field(self.message)
            + seq![self.bump]
    }

    /// The number of bytes the introduction is stored in.
    pub open spec fn space(self) -> nat {
        intro_space(encode_utf8(self.name).len(), encode_utf8(self.message).len())
    }
}

/// The introduction that the bytes store, if they store one: exactly the
/// bytes of its layout, with nothing before or after.
pub open spec fn parse_intro(bytes: Seq<u8>) -> Option<StudentInfoView> {
    if bytes.len() < 49 || bytes.subrange(0, 8) != intro_tag() {
        None
    } else {
        let n = spec_u32_from_le_bytes(bytes.subrange(40, 44)) as int;
        if bytes.len() < 49 + n {
            None
        } else {
            let m = spec_u32_from_le_bytes(bytes.subrange(44 + n, 48 + n)) as int;
            let name = bytes.subrange(44, 44 + n);
            let message = bytes.subrange(48 + n, 48 + n + m);
            if bytes.len() != 49 + n + m || !valid_utf8(name) || !valid_utf8(message) {
                None
            } else {
                Some(
                    StudentInfoView {
                        student: bytes.subrange(8, 40),
                        name: decode_utf8(name),
                        message: decode_utf8(message),
                        bump: bytes[48 + n + m],
                    },
                )
            }
        }
    }
}

/// The view of an introduction that may be missing.
pub open spec fn intro_view(r: Option<StudentInfo>) -> Option<StudentInfoView> {
    match r {
        Some(info) => Some(info@),
        None => None,
    }
}

impl StudentInfo {
    /// The bytes of the introduction as it is stored, or `None` where a
    /// text is too long for its length prefix.
    pub fn encode(&self) -> (r: Option<Vec<u8>>)
        ensures
            match r {
                Some(bytes) => self@.encodable() && bytes@ == self@.encoding(),
                None => !self@.encodable(),
            },
    {
        if self.name.as_str().as_bytes().len() > 0xffff_ffff
            || self.message.as_str().as_bytes().len() > 0xffff_ffff {
            return None;
        }
        let mut out: Vec<u8> = Vec::new();
        let tag = intro_discriminator();
        append(&mut out, tag.as_slice());
        append(&mut out, self.student.bytes.as_slice());
        append_text(&mut out, &self.name);
        append_text(&mut out, &self.message);
        out.push(self.bump);
        assert(out@ =~= self@.encoding());
        Some(out)
    }

    /// Reads an introduction from the bytes of a storage slot.
    pub fn decode(bytes: &[u8]) -> (r: Option<StudentInfo>)
        ensures
            intro_view(r) == parse_intro(bytes@),
    {
        let total = bytes.len();
        if total < 49 {
            return None;
        }
        if !has_tag(bytes, intro_discriminator()) {
            return None;
        }
        let n = u32_from_le_bytes(slice_subrange(bytes, 40, 44)) as usize;
        if total - 49 < n {
            return None;
        }
        let m = u32_from_le_bytes(slice_subrange(bytes, 44 + n, 48 + n)) as usize;
        if total - 49 - n != m {
            return None;
        }
        let name = text_from_utf8(slice_to_vec(slice_subrange(bytes, 44, 44 + n)));
        let message = text_from_utf8(slice_to_vec(slice_subrange(bytes, 48 + n, 48 + n + m)));
        proof {
            broadcast use encode_utf8_valid_utf8, encode_utf8_decode_utf8;

        }
        match (name, message) {
            (Some(name), Some(message)) => Some(
                StudentInfo { student: address_at(bytes, 8), name, message, bump: bytes[48 + n + m] },
            ),
            _ => None,
        }
    }
}

/// Writing an introduction down and reading it back gives the same
/// introduction, and the bytes written are exactly as many as its size.
pub proof fn lemma_intro_round_trip(v: StudentInfoView)
    requires
        v.encodable(),
    ensures
        parse_intro(v.encoding()) == Some(v),
        v.encoding().len() == v.space(),
{
    broadcast use encode_utf8_valid_utf8, encode_utf8_decode_utf8;

    lemma_auto_spec_u32_to_from_le_bytes();
    let bytes = v.encoding();
    let name = encode_utf8(v.name);
    let message = encode_utf8(v.message);
    let n = name.len() as int;
    let m = message.len() as int;
    assert(bytes.len() == 49 + n + m);
    assert(bytes.subrange(0, 8) =~= intro_tag());
    assert(bytes.subrange(8, 40) =~= v.student);
    assert(bytes.subrange(40, 44) =~= spec_u32_to_le_bytes(name.len() as u32));
    assert(bytes.subrange(44, 44 + n) =~= name);
    assert(bytes.subrange(44 + n, 48 + n) =~= spec_u32_to_le_bytes(message.len() as u32));
    assert(bytes.subrange(48 + n, 48 + n + m) =~= message);
    assert(bytes[48 + n + m] == v.bump);
}

/// Bytes that store an introduction are exactly the bytes that
/// introduction is written down as.
pub proof fn lemma_intro_parse_exact(bytes: Seq<u8>)
    requires
        parse_intro(bytes) is Some,
    ensures
        parse_intro(bytes)->0.encodable(),
        parse_intro(bytes)->0.encoding() == bytes,
{
    broadcast use decode_utf8_encode_utf8;

    lemma_auto_spec_u32_to_from_le_bytes();
    let v = parse_intro(bytes)->0;
    let n = spec_u32_from_le_bytes(bytes.subrange(40, 44)) as int;
    let m = spec_u32_from_le_bytes(bytes.subrange(44 + n, 48 + n)) as int;
    let name = bytes.subrange(44, 44 + n);
    let message = bytes.subrange(48 + n, 48 + n + m);
    assert(encode_utf8(v.name) == name);
    assert(encode_utf8(v.message) == message);
    assert(spec_u32_to_le_bytes(n as u32) == bytes.subrange(40, 44));
    assert(spec_u32_to_le_bytes(m as u32) == bytes.subrange(44 + n, 48 + n));
    assert(v.encoding() =~= bytes);
}

/// The counter of an introduction's replies: how many there are, which
/// is also the position the next one takes.
#[derive(Clone, Copy, Debug, PartialEq, Eq, Structural)]
pub struct ReplyCounter {
    pub counter: u64,
    /// The bump with which the counter's address derives.
    pub bump: u8,
}

impl ReplyCounter {
    /// The bytes the counter is stored as.
    pub open spec fn encoding(self) -> Seq<u8> {
        counter_tag() + spec_u64_to_le_bytes(self.counter) + seq![self.bump]
    }

    /// The bytes of the counter as it is stored.
    pub fn encode(&self) -> (bytes: Vec<u8>)
        ensures
            bytes@ == self.encoding(),
            bytes@.len() == 17,
    {
        let mut out: Vec<u8> = Vec::new();
        let tag = counter_discriminator();
        append(&mut out, tag.as_slice());
        let value = u64_to_le_bytes(self.counter);
        append(&mut out, value.as_slice());
        out.push(self.bump);
        assert(out@ =~= self.encoding());
        out
    }

    /// Reads a counter from the bytes of a storage slot.
    pub fn decode(bytes: &[u8]) -> (r: Option<ReplyCounter>)
        ensures
            r == parse_counter(bytes@),
    {
        if bytes.len() != 17 {
            return None;
        }
        if !has_tag(bytes, counter_discriminator()) {
            return None;
        }
        let counter = u64_from_le_bytes(slice_subrange(bytes, 8, 16));
        Some(ReplyCounter { counter, bump: bytes[16] })
    }
}

/// The counter that the bytes store, if they store one.
pub open spec fn parse_counter(bytes: Seq<u8>) -> Option<ReplyCounter> {
    if bytes.len() != 17 || bytes.subrange(0, 8) != counter_tag() {
        None
    } else {
        Some(
            ReplyCounter {
                counter: spec_u64_from_le_bytes(bytes.subrange(8, 16)),
                bump: bytes[16],
            },
        )
    }
}

/// Writing a counter down and reading it back gives the same counter, in
/// 17 bytes.
pub proof fn lemma_counter_round_trip(c: ReplyCounter)
    ensures
        parse_counter(c.encoding()) == Some(c),
        c.encoding().len() == 17,
{
    lemma_auto_spec_u64_to_from_le_bytes();
    let bytes = c.encoding();
    assert(bytes.subrange(0, 8) =~= counter_tag());
    assert(bytes.subrange(8, 16) =~= spec_u64_to_le_bytes(c.counter));
    assert(bytes[16] == c.bump);
}

/// Bytes that store a counter are exactly the bytes that counter is
/// written down as.
pub proof fn lemma_counter_parse_exact(bytes: Seq<u8>)
    requires
        parse_counter(bytes) is Some,
    ensures
        parse_counter(bytes)->0.encoding() == bytes,
{
    lemma_auto_spec_u64_to_from_le_bytes();
    let c = parse_counter(bytes)->0;
    assert(spec_u64_to_le_bytes(c.counter) == bytes.subrange(8, 16));
    assert(c.encoding() =~= bytes);
}

/// A reply to an introduction.
#[derive(Clone, Debug, PartialEq, Eq)]
pub struct Reply {
    /// The address of the introduction replied to.
    pub studentinfo: Address,
    pub reply: String,
}

/// A reply as a mathematical value.
pub struct ReplyView {
    pub studentinfo: Seq<u8>,
    pub reply: Seq<char>,
}

impl View for Reply {
    type V = ReplyView;

    open spec fn view(&self) -> ReplyView {
        ReplyView { studentinfo: self.studentinfo@, reply: self.reply@ }
    }
}

impl ReplyView {
    /// Whether the reply can be written down: it points at an address and
    /// the length of its text fits the prefix.
    pub open spec fn encodable(self) -> bool {
        &&& self.studentinfo.len() == 32
        &&& text_fits(encode_utf8(self.reply).len())
    }

    /// The bytes the reply is stored as.
    pub open spec fn encoding(self) -> Seq<u8> {
        reply_tag() + self.studentinfo + text_field(self.reply)
    }

    /// The number of bytes the reply is stored in.
    pub open spec fn space(self) -> nat {
        reply_space(encode_utf8(self.reply).len())
    }
}

/// The reply that the bytes store, if they store one: exactly the bytes of
/// its layout, with nothing before or after.
pub open spec fn parse_reply(bytes: Seq<u8>) -> Option<ReplyView> {
    if bytes.len() < 44 || bytes.subrange(0, 8) != reply_tag() {
        None
    } else {
        let n = spec_u32_from_le_bytes(bytes.subrange(40, 44)) as int;
        let text = bytes.subrange(44, 44 + n);
        if bytes.len() != 44 + n || !valid_utf8(text) {
            None
        } else {
            Some(ReplyView { studentinfo: bytes.subrange(8, 40), reply: decode_utf8(text) })
        }
    }
}

/// The view of a reply that may be missing.
pub open spec fn reply_view(r: Option<Reply>) -> Option<ReplyView> {
    match r {
        Some(reply) => Some(reply@),
        None => None,
    }
}

impl Reply {
    /// The bytes of the reply as it is stored, or `None` where its text is
    /// too long for the length prefix.
    pub fn encode(&self) -> (r: Option<Vec<u8>>)
        ensures
            match r {
                Some(bytes) => self@.encodable() && bytes@ == self@.encoding(),
                None => !self@.encodable(),
            },
    {
        if self.reply.as_str().as_bytes().len() > 0xffff_ffff {
            return None;
        }
        let mut out: Vec<u8> = Vec::new();
        let tag = reply_discriminator();
        append(&mut out, tag.as_slice());
        append(&mut out, self.studentinfo.bytes.as_slice());
        append_text(&mut out, &self.reply);
        assert(out@ =~= self@.encoding());
        Some(out)
    }

    /// Reads a reply from the bytes of a storage slot.
    pub fn decode(bytes: &[u8]) -> (r: Option<Reply>)
        ensures
            reply_view(r) == parse_reply(bytes@),
    {
        let total = bytes.len();
        if total < 44 {
            return None;
        }
        if !has_tag(bytes, reply_discriminator()) {
            return None;
        }
        let n = u32_from_le_bytes(slice_subrange(bytes, 40, 44)) as usize;
        if total - 44 != n {
            return None;
        }
        let text = text_from_utf8(slice_to_vec(slice_subrange(bytes, 44, 44 + n)));
        proof {
            broadcast use encode_utf8_valid_utf8, encode_utf8_decode_utf8;

        }
        match text {
            Some(reply) => Some(Reply { studentinfo: address_at(bytes, 8), reply }),
            None => None,
        }
    }
}

/// Writing a reply down and reading it back gives the same reply, and the
/// bytes written are exactly as many as its size.
pub proof fn lemma_reply_round_trip(v: ReplyView)
    requires
        v.encodable(),
    ensures
        parse_reply(v.encoding()) == Some(v),
        v.encoding().len() == v.space(),
{
    broadcast use encode_utf8_valid_utf8, encode_utf8_decode_utf8;

    lemma_auto_spec_u32_to_from_le_bytes();
    let bytes = v.encoding();
    let text = encode_utf8(v.reply);
    let n = text.len() as int;
    assert(bytes.len() == 44 + n);
    assert(bytes.subrange(0, 8) =~= reply_tag());
    assert(bytes.subrange(8, 40) =~= v.studentinfo);
    assert(bytes.subrange(40, 44) =~= spec_u32_to_le_bytes(text.len() as u32));
    assert(bytes.subrange(44, 44 + n) =~= text);
}

/// Bytes that store a reply are exactly the bytes that reply is written
/// down as.
pub proof fn lemma_reply_parse_exact(bytes: Seq<u8>)
    requires
        parse_reply(bytes) is Some,
    ensures
        parse_reply(bytes)->0.encodable(),
        parse_reply(bytes)->0.encoding() == bytes,
{
    broadcast use decode_utf8_encode_utf8;

    lemma_auto_spec_u32_to_from_le_bytes();
    let v = parse_reply(bytes)->0;
    let n = spec_u32_from_le_bytes(bytes.subrange(40, 44)) as int;
    assert(encode_utf8(v.reply) == bytes.subrange(44, 44 + n));
    assert(spec_u32_to_le_bytes(n as u32) == bytes.subrange(40, 44));
    assert(v.encoding() =~= bytes);
}

/// No bytes store records of two kinds: the discriminators differ.
pub proof fn lemma_kinds_are_apart(bytes: Seq<u8>)
    ensures
        !(parse_intro(bytes) is Some && parse_counter(bytes) is Some),
        !(parse_intro(bytes) is Some && parse_reply(bytes) is Some),
        !(parse_counter(bytes) is Some && parse_reply(bytes) is Some),
{
    if bytes.len() >= 8 {
        let head = bytes.subrange(0, 8);
        assert(head == intro_tag() ==> head[0] == 158u8);
        assert(head == counter_tag() ==> head[0] == 153u8);
        assert(head == reply_tag() ==> head[0] == 94u8);
    }
}

} // verus!
