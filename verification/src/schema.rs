//! Shared data shapes: documents, chat messages and generation
//! results.

use vstd::prelude::*;

use crate::state::Entries;
use crate::state::distinct_keys;
use crate::state::has_key;
use crate::state::lookup;
use crate::state::set_entry;
use crate::value::StructuredValue;

verus! {

/// Relies on uuid's version-4 generator (`Uuid::new_v4`) and its
/// `Display` rendering through `to_string`: a freshly drawn random
/// identifier in hyphenated form, which is always 36 characters long.
/// Nothing else is promised: the result is random.
#[verifier::external_body]
pub(crate) fn fresh_uuid_string() -> (r: String)
    ensures
        r@.len() == 36,
{
    uuid::Uuid::new_v4().to_string()
}

/// A piece of text with associated metadata.
#[derive(Debug, Clone)]
pub struct Document {
    /// The document's content.
    pub page_content: String,
    /// Metadata associated with the document; keys pairwise distinct.
    pub metadata: Entries,
}

impl Document {
    /// The metadata bag has pairwise-distinct keys.
    pub open spec fn wf(&self) -> bool {
        distinct_keys(self.metadata@)
    }

    /// Creates a document with the given content and no metadata.
    pub fn new(page_content: String) -> (r: Self)
        ensures
            r.page_content == page_content,
            r.metadata@.len() == 0,
            r.wf(),
    {
        Document { page_content, metadata: Vec::new() }
    }

    /// Creates a document with content and metadata.
    pub fn with_metadata(page_content: String, metadata: Entries) -> (r: Self)
        ensures
            r.page_content == page_content,
            r.metadata == metadata,
    {
        Document { page_content, metadata }
    }
}

/// The role a chat message was written in.
#[derive(Debug, Clone, PartialEq, Eq, Structural)]
pub enum MessageRole {
    /// A system instruction.
    System,
    /// A user utterance.
    User,
    /// An assistant reply.
    Assistant,
    /// A function result.
    Function,
}

/// A chat message: role, content, an optional identifier, metadata and
/// a priority.
#[derive(Debug, Clone)]
pub struct Message {
    /// The message role.
    pub role: MessageRole,
    /// The message content.
    pub content: String,
    /// An optional identifier.
    pub id: Option<String>,
    /// Additional metadata; keys pairwise distinct.
    pub metadata: Entries,
    /// The message priority; higher means more important.
    pub priority: u32,
}

impl Message {
    /// The metadata bag has pairwise-distinct keys.
    pub open spec fn wf(&self) -> bool {
        distinct_keys(self.metadata@)
    }

    /// Creates a message with a freshly drawn identifier, empty
    /// metadata and priority zero.
    pub fn new(role: MessageRole, content: String) -> (r: Self)
        ensures
            r.role == role,
            r.content == content,
            r.id is Some,
            r.metadata@.len() == 0,
            r.priority == 0,
            r.wf(),
    {
        Message {
            role,
            content,
            id: Some(fresh_uuid_string()),
            metadata: Vec::new(),
            priority: 0,
        }
    }

    /// Creates a system message.
    pub fn system(content: String) -> (r: Self)
        ensures
            r.role == MessageRole::System,
            r.content == content,
            r.id is Some,
            r.metadata@.len() == 0,
            r.priority == 0,
            r.wf(),
    {
        Self::new(MessageRole::System, content)
    }

    /// Creates a user message.
    pub fn user(content: String) -> (r: Self)
        ensures
            r.role == MessageRole::User,
            r.content == content,
            r.id is Some,
            r.metadata@.len() == 0,
            r.priority == 0,
            r.wf(),
    {
        Self::new(MessageRole::User, content)
    }

    /// Creates an assistant message.
    pub fn assistant(content: String) -> (r: Self)
        ensures
            r.role == MessageRole::Assistant,
            r.content == content,
            r.id is Some,
            r.metadata@.len() == 0,
            r.priority == 0,
            r.wf(),
    {
        Self::new(MessageRole::Assistant, content)
    }

    /// Creates a function message.
    pub fn function(content: String) -> (r: Self)
        ensures
            r.role == MessageRole::Function,
            r.content == content,
            r.id is Some,
            r.metadata@.len() == 0,
            r.priority == 0,
            r.wf(),
    {
        Self::new(MessageRole::Function, content)
    }

    /// Adds one metadata entry, replacing any previous binding.
    pub fn with_metadata(self, key: String, value: StructuredValue) -> (r: Self)
        requires
            self.wf(),
        ensures
            r.wf(),
            r.role == self.role,
            r.content == self.content,
            r.id == self.id,
            r.priority == self.priority,
            has_key(r.metadata@, key@),
            lookup(r.metadata@, key@) == value,
            forall|k: Seq<char>|
                k != key@ ==> has_key(r.metadata@, k) == has_key(self.metadata@, k),
            forall|k: Seq<char>|
                k != key@ && has_key(self.metadata@, k) ==> lookup(r.metadata@, k) == lookup(
                    self.metadata@,
                    k,
                ),
    {
        let mut m = self;
        set_entry(&mut m.metadata, key, value);
        m
    }

    /// Replaces the message priority.
    pub fn with_priority(self, priority: u32) -> (r: Self)
        ensures
            r.role == self.role,
            r.content == self.content,
            r.id == self.id,
            r.metadata == self.metadata,
            r.priority == priority,
    {
        Message { priority, ..self }
    }
}

/// One generated output.
#[derive(Debug)]
pub struct Generation {
    /// The generated text.
    pub text: String,
    /// Model-specific generation details.
    pub generation_info: Option<Entries>,
}

/// The result of a language-model call: the generated outputs for each
/// prompt, plus call-level details.
#[derive(Debug)]
pub struct LLMResult {
    /// The generated outputs, one list per prompt.
    pub generations: Vec<Vec<Generation>>,
    /// Details about the call.
    pub llm_output: Option<Entries>,
}

} // verus!
