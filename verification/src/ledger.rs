//! Calls on the token ledger, and the authority under which they are made.
//!
//! The ledger is not part of the store. An invocation that wants tokens
//! minted names the call; whoever runs the invocation makes it and tells
//! the store how it went.
use crate::address::{seeds_view, Address};
use vstd::prelude::*;

verus! {

/// Units minted to whoever creates an introduction.
pub const INTRO_REWARD: u64 = 10_000_000;

/// Units minted to whoever replies to an introduction.
pub const REPLY_REWARD: u64 = 5_000_000;

/// Decimal places of the reward token.
pub const MINT_DECIMALS: u8 = 6;

/// A derivation proof: the seeds and the bump from which an address
/// derives. The program presents it to act as that address, for which no
/// private key exists.
#[derive(Clone, Debug, PartialEq, Eq)]
pub struct Authority {
    pub seeds: Vec<Vec<u8>>,
    pub bump: u8,
}

/// A derivation proof as a mathematical value.
pub struct AuthorityView {
    pub seeds: Seq<Seq<u8>>,
    pub bump: u8,
}

impl View for Authority {
    type V = AuthorityView;

    open spec fn view(&self) -> AuthorityView {
        AuthorityView { seeds: seeds_view(&self.seeds), bump: self.bump }
    }
}

/// A call to be made on the token ledger.
#[derive(Clone, Debug, PartialEq, Eq)]
pub enum LedgerCall {
    /// Set up the mint at `mint`, paid for by `payer`, with `authority`
    /// as the only address that may mint from it.
    InitializeMint { mint: Address, decimals: u8, authority: Address, payer: Address },
    /// Credit `amount` units of `mint` to the token-holding account of
    /// `recipient`, which is opened first where it is missing. `signer`
    /// proves that the program may act as the mint's authority.
    MintTo { mint: Address, recipient: Address, amount: u64, signer: Authority },
}

/// A ledger call as a mathematical value.
pub enum LedgerCallView {
    InitializeMint { mint: Seq<u8>, decimals: u8, authority: Seq<u8>, payer: Seq<u8> },
    MintTo { mint: Seq<u8>, recipient: Seq<u8>, amount: u64, signer: AuthorityView },
}

impl View for LedgerCall {
    type V = LedgerCallView;

    open spec fn view(&self) -> LedgerCallView {
        match *self {
            LedgerCall::InitializeMint { mint, decimals, authority, payer } => {
                LedgerCallView::InitializeMint {
                    mint: mint@,
                    decimals,
                    authority: authority@,
                    payer: payer@,
                }
            },
            LedgerCall::MintTo { mint, recipient, amount, signer } => LedgerCallView::MintTo {
                mint: mint@,
                recipient: recipient@,
                amount,
                signer: signer@,
            },
        }
    }
}

/// The view of a ledger call that may be missing.
pub open spec fn ledger_view(call: Option<LedgerCall>) -> Option<LedgerCallView> {
    match call {
        Some(c) => Some(c@),
        None => None,
    }
}

} // verus!
