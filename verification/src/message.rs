//! Messages and who wrote them.
use vstd::prelude::*;

use crate::session::SessionId;
use crate::text::{blank, same_text};

verus! {

/// Who wrote a message.
#[derive(Debug, Clone, Copy, PartialEq, Eq, Structural)]
pub enum MessageAuthor {
    User,
    Agent,
}

/// The model of a [`Message`].
#[verifier::ext_equal]
pub struct MessageView {
    pub id: Seq<char>,
    pub session_id: Option<Seq<char>>,
    pub author: MessageAuthor,
    pub text: Seq<char>,
    pub created_at_unix: u64,
}

/// The id of a message.
#[derive(Debug, PartialEq, Eq)]
pub struct MessageId {
    pub text: String,
}

impl View for MessageId {
    type V = Seq<char>;

    open spec fn view(&self) -> Seq<char> {
        self.text@
    }
}

impl Clone for MessageId {
    fn clone(&self) -> (r: Self)
        ensures
            r@ == self@,
    {
        MessageId { text: self.text.clone() }
    }
}

impl MessageId {
    /// A message id; it may not be blank.
    pub fn new(text: &str) -> (r: Result<MessageId, String>)
        ensures
            match r {
                Ok(id) => !crate::text::is_blank(text@) && id@ == text@,
                Err(e) => crate::text::is_blank(text@) && e@ == "message id is empty"@,
            },
    {
        if blank(text) {
            return Err("message id is empty".to_owned());
        }
        Ok(MessageId { text: text.to_owned() })
    }

    pub fn as_str(&self) -> (r: &str)
        ensures
            r@ == self@,
    {
        self.text.as_str()
    }
}

/// What a message says.
#[derive(Debug, PartialEq, Eq)]
pub enum MessageContent {
    Text(String),
}

impl View for MessageContent {
    type V = Seq<char>;

    open spec fn view(&self) -> Seq<char> {
        match self {
            MessageContent::Text(text) => text@,
        }
    }
}

impl Clone for MessageContent {
    fn clone(&self) -> (r: Self)
        ensures
            r@ == self@,
    {
        match self {
            MessageContent::Text(text) => MessageContent::Text(text.clone()),
        }
    }
}

impl MessageContent {
    /// Text content; it may not be blank.
    pub fn text(text: &str) -> (r: Result<MessageContent, String>)
        ensures
            match r {
                Ok(content) => !crate::text::is_blank(text@) && content@ == text@,
                Err(e) => crate::text::is_blank(text@) && e@ == "message text is empty"@,
            },
    {
        if blank(text) {
            return Err("message text is empty".to_owned());
        }
        Ok(MessageContent::Text(text.to_owned()))
    }

    /// The text of text content.
    pub fn as_text(&self) -> (r: Option<&str>)
        ensures
            r is Some,
            r->Some_0@ == self@,
    {
        match self {
            MessageContent::Text(text) => Some(text.as_str()),
        }
    }
}

/// The model of an optional session id.
pub open spec fn session_ref(id: Option<SessionId>) -> Option<Seq<char>> {
    match id {
        Some(id) => Some(id@),
        None => None,
    }
}

/// Whether two optional session ids are the same.
pub(crate) fn same_session_ref(a: &Option<SessionId>, b: &Option<SessionId>) -> (r: bool)
    ensures
        r == (session_ref(*a) == session_ref(*b)),
{
    match (a, b) {
        (Some(a), Some(b)) => a.same(b),
        (None, None) => true,
        _ => false,
    }
}

/// A message, with the session that it belongs to once that is known.
#[derive(Debug, PartialEq, Eq)]
pub struct Message {
    pub id: MessageId,
    pub session_id: Option<SessionId>,
    pub author: MessageAuthor,
    pub content: MessageContent,
    pub created_at_unix: u64,
}

impl View for Message {
    type V = MessageView;

    open spec fn view(&self) -> MessageView {
        MessageView {
            id: self.id@,
            session_id: session_ref(self.session_id),
            author: self.author,
            text: self.content@,
            created_at_unix: self.created_at_unix,
        }
    }
}

impl Clone for Message {
    fn clone(&self) -> (r: Self)
        ensures
            r@ == self@,
    {
        Message {
            id: self.id.clone(),
            session_id: match &self.session_id {
                Some(id) => Some(id.clone()),
                None => None,
            },
            author: self.author,
            content: self.content.clone(),
            created_at_unix: self.created_at_unix,
        }
    }
}

impl Message {
    pub fn new(
        id: MessageId,
        session_id: Option<SessionId>,
        author: MessageAuthor,
        content: MessageContent,
        created_at_unix: u64,
    ) -> (r: Message)
        ensures
            r@ == (MessageView {
                id: id@,
                session_id: session_ref(session_id),
                author,
                text: content@,
                created_at_unix,
            }),
    {
        Message { id, session_id, author, content, created_at_unix }
    }

    /// A text message by the user.
    pub fn user_text(
        id: &str,
        session_id: Option<SessionId>,
        text: &str,
        created_at_unix: u64,
    ) -> (r: Result<Message, String>)
        ensures
            match r {
                Ok(message) => {
                    &&& !crate::text::is_blank(id@)
                    &&& !crate::text::is_blank(text@)
                    &&& message@ == (MessageView {
                        id: id@,
                        session_id: session_ref(session_id),
                        author: MessageAuthor::User,
                        text: text@,
                        created_at_unix,
                    })
                },
                Err(e) => if crate::text::is_blank(id@) {
                    e@ == "message id is empty"@
                } else {
                    crate::text::is_blank(text@) && e@ == "message text is empty"@
                },
            },
    {
        let id = match MessageId::new(id) {
            Ok(id) => id,
            Err(e) => return Err(e),
        };
        let content = match MessageContent::text(text) {
            Ok(content) => content,
            Err(e) => return Err(e),
        };
        Ok(Message::new(id, session_id, MessageAuthor::User, content, created_at_unix))
    }

    /// Whether two messages are the same in every field.
    pub fn same(&self, other: &Message) -> (r: bool)
        ensures
            r == (self@ == other@),
    {
        let same_content = match (&self.content, &other.content) {
            (MessageContent::Text(a), MessageContent::Text(b)) => same_text(a, b),
        };
        same_text(&self.id.text, &other.id.text) && same_session_ref(
            &self.session_id,
            &other.session_id,
        ) && self.author == other.author && same_content && self.created_at_unix
            == other.created_at_unix
    }
}

} // verus!
