//! A conversation session and its turns.
use vstd::prelude::*;

use crate::configuration::Configuration;
use crate::serving::ModelServeWrapper;
use crate::tool::{NoMcpProvider, ToolRegistry};
use crate::types::{Message, MessageView};

verus! {

/// One user interaction and the messages produced during that interaction.
#[derive(Debug, Clone, PartialEq, Eq)]
pub struct Turn {
    pub messages: Vec<Message>,
}

impl Turn {
    /// A turn that holds the user's input.
    pub fn new(user_input: &str) -> (r: Self)
        ensures
            r.messages.deep_view() == seq![MessageView::User { content: user_input@ }],
    {
        let mut messages: Vec<Message> = Vec::new();
        messages.push(Message::User { content: user_input.to_owned() });
        proof {
            assert(messages.deep_view() =~= seq![MessageView::User { content: user_input@ }]);
        }
        Turn { messages }
    }
}

/// Owns the state shared by all runs in one conversation session: the
/// model serve callback `C` and the MCP provider `P` of the embedding
/// application.
pub struct Session<C, P = NoMcpProvider> {
    pub configuration: Configuration,
    pub system_prompt: String,
    pub model_serve: ModelServeWrapper<C>,
    pub tool_registry: ToolRegistry<P>,
    pub turns: Vec<Turn>,
}

impl<C, P> Session<C, P> {
    pub fn add_turn(&mut self, turn: Turn)
        ensures
            final(self).turns@ == old(self).turns@.push(turn),
            final(self).configuration == old(self).configuration,
            final(self).system_prompt == old(self).system_prompt,
            final(self).tool_registry == old(self).tool_registry,
            final(self).model_serve == old(self).model_serve,
    {
        self.turns.push(turn);
    }
}

} // verus!
