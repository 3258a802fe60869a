//! Rendering the end of a conversation as the daemon's next prompt.
//!
//! The daemon's session holds the history, so only the last message is read.
use vstd::prelude::*;
use vstd::string::*;
use crate::lm;
use crate::lm::{Conversation, LmError, LmErrorModel, Message, MessageModel};
use crate::text;

verus! {

/// What the end of a conversation renders to.
#[derive(Debug, PartialEq, Eq)]
pub enum Rendered {
    /// The prompt of the next turn.
    Prompt(String),
    /// Nothing worth a turn: the daemon refuses blank prompts.
    Empty,
}

/// What a [`Rendered`] says.
pub enum RenderedModel {
    Prompt(Seq<char>),
    Empty,
}

impl View for Rendered {
    type V = RenderedModel;

    open spec fn view(&self) -> RenderedModel {
        match self {
            Rendered::Prompt(prompt) => RenderedModel::Prompt(prompt@),
            Rendered::Empty => RenderedModel::Empty,
        }
    }
}

/// The prompt that a last message stands for: a user's text as it is, an event or a
/// tool's result with its label. What the system or the model said is none.
pub open spec fn prompt_of(message: MessageModel) -> Option<Seq<char>> {
    match message {
        MessageModel::User { content } => Some(content),
        MessageModel::Event { source, kind, content } => Some(
            lm::labelled(source, kind, content),
        ),
        MessageModel::ToolResult { tool_call_id, name, content } => Some(
            "["@ + name + "] "@ + content,
        ),
        MessageModel::System { content } => None,
        MessageModel::Assistant { content, tool_calls } => None,
    }
}

/// What a conversation renders to.
pub open spec fn rendered_last(conversation: Seq<MessageModel>) -> Result<
    RenderedModel,
    LmErrorModel,
> {
    if conversation.len() == 0 {
        Err(LmErrorModel::Engine("generate called on an empty conversation"@))
    } else {
        match prompt_of(conversation.last()) {
            None => Err(
                LmErrorModel::Engine(
                    "conversation tail is not a user message, event, or tool result; the ZeroClaw adapter only renders re-entrant inputs"@,
                ),
            ),
            Some(prompt) => if text::trimmed(prompt).len() == 0 {
                Ok(RenderedModel::Empty)
            } else {
                Ok(RenderedModel::Prompt(prompt))
            },
        }
    }
}

/// Renders the last message of a conversation.
pub fn render_last(conversation: &Conversation) -> (rendered: Result<Rendered, LmError>)
    ensures
        rendered_last(conversation@) == (match rendered {
            Ok(rendered) => Ok::<RenderedModel, LmErrorModel>(rendered@),
            Err(error) => Err::<RenderedModel, LmErrorModel>(error@),
        }),
{
    if conversation.messages.len() == 0 {
        return Err(LmError::Engine("generate called on an empty conversation".to_owned()));
    }
    let last = &conversation.messages[conversation.messages.len() - 1];
    assert(conversation@.last() == last@);
    let prompt = match last {
        Message::User { content } => content.clone(),
        Message::Event { source, kind, content } => lm::label(
            source.as_str(),
            kind.as_str(),
            content.as_str(),
        ),
        Message::ToolResult { tool_call_id, name, content } => {
            let mut prompt = "[".to_owned();
            prompt.append(name.as_str());
            prompt.append("] ");
            prompt.append(content.as_str());
            prompt
        },
        Message::System { content: _ } | Message::Assistant { content: _, tool_calls: _ } => {
            return Err(
                LmError::Engine(
                    "conversation tail is not a user message, event, or tool result; the ZeroClaw adapter only renders re-entrant inputs".to_owned(),
                ),
            );
        },
    };
    if text::is_blank(prompt.as_str()) {
        return Ok(Rendered::Empty);
    }
    Ok(Rendered::Prompt(prompt))
}

/// The next turn is prompted with the last message alone, in its own words: what came
/// before it is the daemon's to remember. A user's text goes as it is, and what is no
/// user's carries a label that says where it is from.
pub proof fn the_last_message_is_the_prompt(
    before: Seq<MessageModel>,
    last: MessageModel,
    content: Seq<char>,
    source: Seq<char>,
    kind: Seq<char>,
    tool_call_id: Seq<char>,
)
    ensures
        rendered_last(before.push(last)) == rendered_last(seq![last]),
        text::trimmed(content).len() > 0 ==> rendered_last(
            before.push(MessageModel::User { content }),
        ) == Ok::<RenderedModel, LmErrorModel>(RenderedModel::Prompt(content)),
        text::trimmed(content).len() == 0 ==> rendered_last(
            before.push(MessageModel::User { content }),
        ) == Ok::<RenderedModel, LmErrorModel>(RenderedModel::Empty),
        text::trimmed("["@ + source + "/"@ + kind + "] "@ + content).len() > 0 ==> rendered_last(
            before.push(MessageModel::Event { source, kind, content }),
        ) == Ok::<RenderedModel, LmErrorModel>(
            RenderedModel::Prompt("["@ + source + "/"@ + kind + "] "@ + content),
        ),
        text::trimmed("["@ + source + "] "@ + content).len() > 0 ==> rendered_last(
            before.push(MessageModel::ToolResult { tool_call_id, name: source, content }),
        ) == Ok::<RenderedModel, LmErrorModel>(
            RenderedModel::Prompt("["@ + source + "] "@ + content),
        ),
        last is System || last is Assistant ==> rendered_last(before.push(last)) == Err::<
            RenderedModel,
            LmErrorModel,
        >(
            LmErrorModel::Engine(
                "conversation tail is not a user message, event, or tool result; the ZeroClaw adapter only renders re-entrant inputs"@,
            ),
        ),
        rendered_last(Seq::empty()) == Err::<RenderedModel, LmErrorModel>(
            LmErrorModel::Engine("generate called on an empty conversation"@),
        ),
{
    assert(before.push(last).last() == last);
    assert(seq![last].last() == last);
    assert(before.push(MessageModel::User { content }).last() == (MessageModel::User { content }));
}

} // verus!
