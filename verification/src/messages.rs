//! Chat messages as the model sees them.
use crate::clock;
use crate::text;
use vstd::prelude::*;

verus! {

/// One message of a conversation.
#[derive(Debug)]
pub struct ChatMessage {
    pub id: String,
    pub role: String,
    pub content: String,
}

/// What a message holds.
pub ghost struct MessageView {
    pub id: Seq<char>,
    pub role: Seq<char>,
    pub content: Seq<char>,
}

impl DeepView for ChatMessage {
    type V = MessageView;

    open spec fn deep_view(&self) -> MessageView {
        MessageView { id: self.id@, role: self.role@, content: self.content@ }
    }
}

impl Clone for ChatMessage {
    fn clone(&self) -> (r: ChatMessage)
        ensures
            r == *self,
    {
        ChatMessage {
            id: self.id.clone(),
            role: self.role.clone(),
            content: self.content.clone(),
        }
    }
}

impl ChatMessage {
    /// A message of the assistant under a given identifier.
    pub fn assistant_with(id: String, content: String) -> (r: ChatMessage)
        ensures
            r.id@ == id@,
            r.role@ == "assistant"@,
            r.content@ == content@,
    {
        ChatMessage { id, role: "assistant".to_owned(), content }
    }

    /// A message of the assistant under a new identifier.
    pub fn assistant(content: String) -> (r: ChatMessage)
        ensures
            clock::is_identifier(r.id@),
            r.role@ == "assistant"@,
            r.content@ == content@,
    {
        ChatMessage::assistant_with(clock::new_id(), content)
    }

    /// Whether the message has a role.
    pub fn has_role(&self, role: &str) -> (r: bool)
        ensures
            r == (self.deep_view().role == role@),
    {
        text::same(self.role.as_str(), role)
    }
}

} // verus!
