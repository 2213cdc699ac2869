//! A record store for introductions and their threaded replies.
//!
//! Every record lives at an address derived from seeds and the identity of
//! the program that owns the store. An operation never touches the store
//! directly: it plans an [`Invocation`], a log of staged writes together
//! with the call it wants made on the token ledger, and the store commits
//! the whole log or none of it once the calls outside have answered.

pub mod address;
pub mod error;
pub mod laws;
pub mod layout;
pub mod ledger;
pub mod program;
pub mod store;

pub use address::Address;
pub use error::IntroError;
pub use layout::{Reply, ReplyCounter, StudentInfo};
pub use ledger::{Authority, LedgerCall};
pub use program::{
    add_reply, add_student_intro, close, initialize_token_mint, mint_reward, update_student_intro,
    AddReply, AddStudentIntro, Close, InitializeMint, UpdateStudentIntro,
};
pub use store::{Invocation, Settlement, Store, Write};
