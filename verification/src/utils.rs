//! Helpers for states that carry a chat-message history.

use vstd::prelude::*;

use crate::schema::Message;
use crate::state::StateValue;

verus! {

/// States that contain a message history. Implementors fix what the
/// abstract history `msgs` is; the three methods must read and write
/// exactly it.
pub trait MessagesState {
    /// The abstract message history.
    spec fn msgs(&self) -> Seq<Message>;

    /// Reads the messages.
    fn get_messages(&self) -> (r: &Vec<Message>)
        ensures
            r@ == self.msgs(),
    ;

    /// Replaces the messages.
    fn set_messages(&mut self, messages: Vec<Message>)
        ensures
            final(self).msgs() == messages@,
    ;

    /// Appends one message.
    fn add_message(&mut self, message: Message)
        ensures
            final(self).msgs() == old(self).msgs().push(message),
    ;
}

/// Appends every given message, in order, to the state's history.
pub fn add_messages<S: MessagesState>(state: &mut S, messages: Vec<Message>)
    ensures
        final(state).msgs() == old(state).msgs() + messages@,
{
    let ghost all = messages@;
    let ghost base = old(state).msgs();
    let mut rest = messages;
    let ghost mut k: int = 0;
    while rest.len() > 0
        invariant
            0 <= k <= all.len(),
            rest@ == all.skip(k),
            state.msgs() == base + all.take(k),
        decreases rest@.len(),
    {
        let m = rest.remove(0);
        proof {
            assert(all.skip(k)[0] == all[k]);
            assert(rest@ =~= all.skip(k + 1));
        }
        state.add_message(m);
        proof {
            assert(all.take(k + 1) =~= all.take(k).push(all[k]));
            assert(state.msgs() =~= base + all.take(k + 1));
            k = k + 1;
        }
    }
    proof {
        assert(all.take(k) =~= all);
        assert(final(state).msgs() =~= base + all);
    }
}

/// A simple state payload holding just a message history.
#[derive(Debug)]
pub struct SimpleMessagesState {
    /// The messages in the state.
    pub messages: Vec<Message>,
}

impl MessagesState for SimpleMessagesState {
    open spec fn msgs(&self) -> Seq<Message> {
        self.messages@
    }

    fn get_messages(&self) -> (r: &Vec<Message>)
        ensures
            r@ == self.msgs(),
    {
        &self.messages
    }

    fn set_messages(&mut self, messages: Vec<Message>)
        ensures
            final(self).msgs() == messages@,
    {
        self.messages = messages;
    }

    fn add_message(&mut self, message: Message)
        ensures
            final(self).msgs() == old(self).msgs().push(message),
    {
        self.messages.push(message);
    }
}

impl StateValue for SimpleMessagesState {
    fn dup(&self) -> (r: SimpleMessagesState)
        ensures
            r.messages@.len() == self.messages@.len(),
    {
        let mut out: Vec<Message> = Vec::new();
        let mut i: usize = 0;
        while i < self.messages.len()
            invariant
                i <= self.messages@.len(),
                out@.len() == i,
            decreases self.messages@.len() - i,
        {
            let m = &self.messages[i];
            let id = match &m.id {
                Some(s) => Some(s.clone()),
                None => None,
            };
            out.push(
                Message {
                    role: m.role.clone(),
                    content: m.content.clone(),
                    id,
                    metadata: crate::state::duplicate_entries(&m.metadata),
                    priority: m.priority,
                },
            );
            i += 1;
        }
        SimpleMessagesState { messages: out }
    }
}

} // verus!
