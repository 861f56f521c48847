//! Rows as they are read from and written to the store.

use crate::time::Timestamp;
use vstd::prelude::*;

verus! {

/// A row of the sessions table.
#[derive(Debug)]
pub struct SessionEntity {
    pub id: String,
    pub name: String,
    /// Legacy column, kept only so older programs can still read this row.
    /// Sorting and display use `last_used_at`.
    pub expires_at: Timestamp,
    pub current: i32,
    /// When the session was last opened or written to.
    pub last_used_at: Timestamp,
}

impl SessionEntity {
    pub fn new(
        id: String,
        name: String,
        expires_at: Timestamp,
        current: i32,
        last_used_at: Timestamp,
    ) -> (r: Self)
        ensures
            r == (SessionEntity { id, name, expires_at, current, last_used_at }),
    {
        Self { id, name, expires_at, current, last_used_at }
    }
}

impl Clone for SessionEntity {
    fn clone(&self) -> (r: Self)
        ensures
            r == *self,
    {
        SessionEntity::new(
            self.id.clone(),
            self.name.clone(),
            self.expires_at,
            self.current,
            self.last_used_at,
        )
    }
}

/// A row of the messages table.
#[derive(Debug)]
pub struct MessageEntity {
    pub id: String,
    pub session_id: String,
    pub role: String,
    pub content: String,
    pub message_type: String,
    pub compaction_metadata: Option<String>,
}

impl MessageEntity {
    pub fn new_with_type(
        id: String,
        session_id: String,
        role: String,
        content: String,
        message_type: String,
        compaction_metadata: Option<String>,
    ) -> (r: Self)
        ensures
            r == (MessageEntity {
                id,
                session_id,
                role,
                content,
                message_type,
                compaction_metadata,
            }),
    {
        Self { id, session_id, role, content, message_type, compaction_metadata }
    }
}

} // verus!
