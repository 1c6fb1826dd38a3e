//! A forum's relationship core: topics and their tags kept in a reverse
//! index, users' favorite lists kept in step with topic counters, and the
//! paged listings read from those relations.

pub mod comments;
pub mod error;
pub mod forum;
pub mod identity;
pub mod laws;
pub mod ledger;
pub mod listing;
pub mod model;
pub mod password;
pub mod recency;
pub mod summary;
pub mod text;
pub mod users;

pub use error::{AppError, AuthError};
pub use forum::Forum;
pub use identity::{verify_identity, Claims};
pub use ledger::{Tag, TagLedger};
pub use listing::{page_number, PAGE_SIZE};
pub use model::{
    AuthPayload, Comment, FavorPayload, NewComment, NewTopic, NewUser, Topic, TopicPayload, User,
    UserPayload,
};
pub use password::hash;
pub use summary::TopicSummary;
pub use text::canonical_tags;
