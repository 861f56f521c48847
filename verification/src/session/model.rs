//! A conversation as the chat holds it.

use crate::session::entity::{MessageEntity, SessionEntity};
use crate::text::same;
use crate::time::Timestamp;
use vstd::prelude::*;

verus! {

/// The kind of an ordinary message.
pub const STANDARD: &'static str = "standard";

/// Who a message is from.
#[derive(Debug)]
pub enum Role {
    User,
    Assistant,
    /// Any other role, under the name it is stored by.
    Other(String),
}

impl Role {
    /// The name a role is stored by.
    pub open spec fn name(self) -> Seq<char> {
        match self {
            Role::User => "user"@,
            Role::Assistant => "assistant"@,
            Role::Other(name) => name@,
        }
    }

    pub fn to_text(&self) -> (r: String)
        ensures
            r@ == self.name(),
    {
        match self {
            Role::User => "user".to_owned(),
            Role::Assistant => "assistant".to_owned(),
            Role::Other(name) => name.clone(),
        }
    }

    /// The role stored by a name.
    pub fn from_text(name: &str) -> (r: Role)
        ensures
            r.name() == name@,
            r is User <==> name@ == "user"@,
            r is Assistant <==> name@ == "assistant"@,
    {
        proof {
            reveal_strlit("user");
            reveal_strlit("assistant");
        }
        if same(name, "user") {
            Role::User
        } else if same(name, "assistant") {
            assert("user"@.len() != "assistant"@.len());
            Role::Assistant
        } else {
            Role::Other(name.to_owned())
        }
    }

    pub fn is_user(&self) -> (r: bool)
        ensures
            r == (*self is User),
    {
        match self {
            Role::User => true,
            _ => false,
        }
    }

    pub fn is_assistant(&self) -> (r: bool)
        ensures
            r == (*self is Assistant),
    {
        match self {
            Role::Assistant => true,
            _ => false,
        }
    }
}

impl Clone for Role {
    fn clone(&self) -> (r: Role)
        ensures
            r == *self,
    {
        match self {
            Role::User => Role::User,
            Role::Assistant => Role::Assistant,
            Role::Other(name) => Role::Other(name.clone()),
        }
    }
}

/// `o` copied.
pub(crate) fn copy_text(o: &Option<String>) -> (r: Option<String>)
    ensures
        r == *o,
{
    match o {
        Some(s) => Some(s.clone()),
        None => None,
    }
}

/// One message of a conversation. Its id is empty until it has been stored.
#[derive(Debug)]
pub struct Message {
    pub id: String,
    pub role: Role,
    pub content: String,
    pub message_type: String,
    pub compaction_metadata: Option<String>,
}

impl Message {
    /// The message has been written to the store.
    pub open spec fn stored(self) -> bool {
        self.id@.len() > 0
    }

    /// A message that has not been stored.
    pub fn new(content: String, role: Role) -> (r: Message)
        ensures
            r.id@ == Seq::<char>::empty(),
            r.content == content,
            r.role == role,
            r.message_type@ == STANDARD@,
            r.compaction_metadata is None,
    {
        Message {
            id: String::new(),
            role,
            content,
            message_type: STANDARD.to_owned(),
            compaction_metadata: None,
        }
    }

    pub fn copy_with_id(&self, id: String) -> (r: Message)
        ensures
            r == (Message { id, ..*self }),
    {
        Message { id, ..self.clone() }
    }

    /// The row for this message in the given session.
    pub fn to_entity(&self, session_id: &String) -> (r: MessageEntity)
        ensures
            r.id == self.id,
            r.session_id == *session_id,
            r.role@ == self.role.name(),
            r.content == self.content,
            r.message_type == self.message_type,
            r.compaction_metadata == self.compaction_metadata,
    {
        MessageEntity::new_with_type(
            self.id.clone(),
            session_id.clone(),
            self.role.to_text(),
            self.content.clone(),
            self.message_type.clone(),
            copy_text(&self.compaction_metadata),
        )
    }

    /// The message a row holds.
    pub fn from_entity(row: &MessageEntity) -> (r: Message)
        ensures
            r.id == row.id,
            r.role.name() == row.role@,
            r.role is User <==> row.role@ == "user"@,
            r.role is Assistant <==> row.role@ == "assistant"@,
            r.content == row.content,
            r.message_type == row.message_type,
            r.compaction_metadata == row.compaction_metadata,
    {
        Message {
            id: row.id.clone(),
            role: Role::from_text(row.role.as_str()),
            content: row.content.clone(),
            message_type: row.message_type.clone(),
            compaction_metadata: copy_text(&row.compaction_metadata),
        }
    }
}

impl Clone for Message {
    fn clone(&self) -> (r: Message)
        ensures
            r == *self,
    {
        Message {
            id: self.id.clone(),
            role: self.role.clone(),
            content: self.content.clone(),
            message_type: self.message_type.clone(),
            compaction_metadata: copy_text(&self.compaction_metadata),
        }
    }
}

/// A conversation.
#[derive(Debug)]
pub struct Session {
    pub id: String,
    pub name: String,
    pub messages: Vec<Message>,
    pub current: bool,
    /// Nothing of a temporary conversation is stored.
    pub temporary: bool,
    pub last_used_at: Timestamp,
}

impl Session {
    /// A conversation that is not kept.
    pub fn new_temporary(id: String, now: Timestamp) -> (r: Session)
        ensures
            r.id == id,
            r.name@ == "temporary"@,
            r.messages@.len() == 0,
            r.current,
            r.temporary,
            r.last_used_at == now,
    {
        Session {
            id,
            name: "temporary".to_owned(),
            messages: Vec::new(),
            current: true,
            temporary: true,
            last_used_at: now,
        }
    }

    /// The session a row holds, without its messages.
    pub fn from_entity(row: &SessionEntity) -> (r: Session)
        ensures
            r.id == row.id,
            r.name == row.name,
            r.messages@.len() == 0,
            r.current == (row.current != 0),
            !r.temporary,
            r.last_used_at == row.last_used_at,
    {
        Session {
            id: row.id.clone(),
            name: row.name.clone(),
            messages: Vec::new(),
            current: row.current != 0,
            temporary: false,
            last_used_at: row.last_used_at,
        }
    }

    /// Add a message that has not been stored.
    pub fn add_raw_message(&mut self, content: String, role: Role)
        ensures
            final(self).messages@.len() == old(self).messages@.len() + 1,
            final(self).messages@.drop_last() == old(self).messages@,
            !final(self).messages@.last().stored(),
            final(self).messages@.last().content == content,
            final(self).messages@.last().role == role,
            final(self).messages@.last().message_type@ == STANDARD@,
            final(self).messages@.last().compaction_metadata is None,
            *final(self) == (Session { messages: final(self).messages, ..*old(self) }),
    {
        self.messages.push(Message::new(content, role));
        assert(self.messages@.drop_last() =~= old(self).messages@);
    }

    /// The same session holding the given messages.
    pub fn copy_with_messages(&self, messages: Vec<Message>) -> (r: Session)
        ensures
            r == (Session { messages, ..*self }),
    {
        Session {
            id: self.id.clone(),
            name: self.name.clone(),
            messages,
            current: self.current,
            temporary: self.temporary,
            last_used_at: self.last_used_at,
        }
    }
}

} // verus!
