pub mod address;
pub mod error;
pub mod mailbox;
pub mod message;
pub mod provider;
pub mod providers;
pub mod text;
pub mod utils;
mod table;

pub use address::Address;
pub use error::MailboxError;
pub use mailbox::Mailbox;
pub use message::{FetchOptions, Identifiable, MailMessage, MailboxStatus, OutgoingMail};
pub use provider::{AckableMessage, MailboxProvider, Subscription};
