//! The conversation data model: messages exchanged between a user and an
//! assistant, whose content items may carry tool requests and tool responses
//! linked by opaque string ids.

use vstd::prelude::*;

verus! {

/// The speaker of a message.
#[derive(Clone, Copy, PartialEq, Eq, Structural, Debug)]
pub enum Role {
    User,
    Assistant,
}

/// A request to run a named tool, with its arguments carried as a string.
#[derive(PartialEq, Debug)]
pub struct ToolCall {
    pub name: String,
    pub arguments: String,
}

impl ToolCall {
    pub fn new(name: &str, arguments: &str) -> (c: ToolCall)
        ensures
            c.name@ == name@,
            c.arguments@ == arguments@,
    {
        ToolCall { name: name.to_owned(), arguments: arguments.to_owned() }
    }
}

/// One item of a message's content.
#[derive(PartialEq, Debug)]
pub enum Content {
    Text(String),
    Image { data: String, mime_type: String },
    /// Only appears on assistant messages; `call` is an error when the
    /// assistant's request could not be parsed into a tool call.
    ToolRequest { id: String, call: Result<ToolCall, String> },
    /// Only appears on user messages; `result` is an error when the tool
    /// dispatch failed.
    ToolResponse { id: String, result: Result<Vec<Content>, String> },
}

impl Content {
    /// Build a plain text content item.
    pub fn text(text: &str) -> (c: Content)
        ensures
            c matches Content::Text(t) && t@ == text@,
    {
        Content::Text(text.to_owned())
    }

    /// The tool id carried by this item, if it is a tool request or response.
    pub open spec fn spec_tool_id(self) -> Option<Seq<char>> {
        match self {
            Content::ToolRequest { id, .. } => Some(id@),
            Content::ToolResponse { id, .. } => Some(id@),
            _ => None,
        }
    }

    pub open spec fn is_text(self) -> bool {
        self is Text
    }
}

/// The tool id of the first tool request or tool response in a content
/// sequence, if any.
pub open spec fn first_tool_id(s: Seq<Content>) -> Option<Seq<char>>
    decreases s.len(),
{
    if s.len() == 0 {
        None
    } else if s[0].spec_tool_id() is Some {
        s[0].spec_tool_id()
    } else {
        first_tool_id(s.drop_first())
    }
}

/// The concatenation of the text items of a content sequence, in order:
/// the message's text projection.
pub open spec fn concat_text(s: Seq<Content>) -> Seq<char>
    decreases s.len(),
{
    if s.len() == 0 {
        Seq::empty()
    } else {
        (match s[0] {
            Content::Text(t) => t@,
            _ => Seq::empty(),
        }) + concat_text(s.drop_first())
    }
}

/// An ordered pair of a role and a non-empty list of content items.
/// (Emptiness is not enforced by the type; constructors start empty and
/// builders add items.)
#[derive(PartialEq, Debug)]
pub struct Message {
    pub role: Role,
    pub content: Vec<Content>,
}

impl Message {
    /// Every content item is plain text.
    pub open spec fn text_only(self) -> bool {
        forall|i: int| 0 <= i < self.content@.len() ==> (#[trigger] self.content@[i]) is Text
    }

    /// A user message whose content is only text: the only shape allowed at
    /// the head and tail of a truncated conversation.
    pub open spec fn is_user_text_only(self) -> bool {
        self.role == Role::User && self.text_only()
    }

    /// The message contains at least one tool request.
    pub open spec fn spec_is_tool_call(self) -> bool {
        exists|i: int| 0 <= i < self.content@.len() && (#[trigger] self.content@[i]) is ToolRequest
    }

    /// The message contains at least one tool response.
    pub open spec fn spec_is_tool_response(self) -> bool {
        exists|i: int| 0 <= i < self.content@.len() && (#[trigger] self.content@[i]) is ToolResponse
    }

    /// The id of the message's first tool request or tool response, if any.
    pub open spec fn spec_tool_id(self) -> Option<Seq<char>> {
        first_tool_id(self.content@)
    }

    /// An empty user message, to be filled by the builders.
    pub fn user() -> (m: Message)
        ensures
            m.role == Role::User,
            m.content@ == Seq::<Content>::empty(),
    {
        Message { role: Role::User, content: Vec::new() }
    }

    /// An empty assistant message, to be filled by the builders.
    pub fn assistant() -> (m: Message)
        ensures
            m.role == Role::Assistant,
            m.content@ == Seq::<Content>::empty(),
    {
        Message { role: Role::Assistant, content: Vec::new() }
    }

    /// Append a text content item.
    pub fn with_text(self, text: &str) -> (m: Message)
        ensures
            m.role == self.role,
            m.content@.len() == self.content@.len() + 1,
            m.content@.subrange(0, self.content@.len() as int) == self.content@,
            m.content@.last() matches Content::Text(t) && t@ == text@,
    {
        let mut m = self;
        m.content.push(Content::Text(text.to_owned()));
        proof {
            assert(m.content@.subrange(0, m.content@.len() - 1) =~= self.content@);
        }
        m
    }

    /// Append a tool request content item.
    pub fn with_tool_request(self, id: &str, call: Result<ToolCall, String>) -> (m: Message)
        ensures
            m.role == self.role,
            m.content@.len() == self.content@.len() + 1,
            m.content@.subrange(0, self.content@.len() as int) == self.content@,
            m.content@.last() matches Content::ToolRequest { id: i, call: c } && i@ == id@ && c
                == call,
    {
        let mut m = self;
        m.content.push(Content::ToolRequest { id: id.to_owned(), call });
        proof {
            assert(m.content@.subrange(0, m.content@.len() - 1) =~= self.content@);
        }
        m
    }

    /// Append a tool response content item.
    pub fn with_tool_response(self, id: &str, result: Result<Vec<Content>, String>) -> (m: Message)
        ensures
            m.role == self.role,
            m.content@.len() == self.content@.len() + 1,
            m.content@.subrange(0, self.content@.len() as int) == self.content@,
            m.content@.last() matches Content::ToolResponse { id: i, result: r } && i@ == id@ && r
                == result,
    {
        let mut m = self;
        m.content.push(Content::ToolResponse { id: id.to_owned(), result });
        proof {
            assert(m.content@.subrange(0, m.content@.len() - 1) =~= self.content@);
        }
        m
    }

    /// Whether the message contains a tool request.
    pub fn is_tool_call(&self) -> (r: bool)
        ensures
            r == self.spec_is_tool_call(),
    {
        let mut i: usize = 0;
        while i < self.content.len()
            invariant
                0 <= i <= self.content@.len(),
                forall|j: int| 0 <= j < i ==> !((#[trigger] self.content@[j]) is ToolRequest),
            decreases self.content@.len() - i,
        {
            if let Content::ToolRequest { .. } = &self.content[i] {
                return true;
            }
            i = i + 1;
        }
        false
    }

    /// Whether the message contains a tool response.
    pub fn is_tool_response(&self) -> (r: bool)
        ensures
            r == self.spec_is_tool_response(),
    {
        let mut i: usize = 0;
        while i < self.content.len()
            invariant
                0 <= i <= self.content@.len(),
                forall|j: int| 0 <= j < i ==> !((#[trigger] self.content@[j]) is ToolResponse),
            decreases self.content@.len() - i,
        {
            if let Content::ToolResponse { .. } = &self.content[i] {
                return true;
            }
            i = i + 1;
        }
        false
    }

    /// Whether every content item is plain text.
    pub fn has_only_text_content(&self) -> (r: bool)
        ensures
            r == self.text_only(),
    {
        let mut i: usize = 0;
        while i < self.content.len()
            invariant
                0 <= i <= self.content@.len(),
                forall|j: int| 0 <= j < i ==> (#[trigger] self.content@[j]) is Text,
            decreases self.content@.len() - i,
        {
            match &self.content[i] {
                Content::Text(_) => {},
                _ => {
                    return false;
                },
            }
            i = i + 1;
        }
        true
    }

    /// The id of the message's first tool request or tool response, if any.
    pub fn get_tool_id(&self) -> (r: Option<String>)
        ensures
            match r {
                Some(id) => self.spec_tool_id() == Some(id@),
                None => self.spec_tool_id() is None,
            },
    {
        proof {
            assert(self.content@.subrange(0, self.content@.len() as int) =~= self.content@);
        }
        let mut i: usize = 0;
        while i < self.content.len()
            invariant
                0 <= i <= self.content@.len(),
                first_tool_id(self.content@) == first_tool_id(
                    self.content@.subrange(i as int, self.content@.len() as int),
                ),
            decreases self.content@.len() - i,
        {
            proof {
                assert(self.content@.subrange(i as int, self.content@.len() as int).drop_first()
                    =~= self.content@.subrange(i + 1, self.content@.len() as int));
            }
            match &self.content[i] {
                Content::ToolRequest { id, .. } => {
                    return Some(id.clone());
                },
                Content::ToolResponse { id, .. } => {
                    return Some(id.clone());
                },
                _ => {},
            }
            i = i + 1;
        }
        None
    }

    /// The concatenation of the message's text items: its text projection,
    /// whose token count stands for the whole message's.
    pub fn as_concat_text(&self) -> (r: String)
        ensures
            r@ == concat_text(self.content@),
    {
        proof {
            assert(self.content@.subrange(0, self.content@.len() as int) =~= self.content@);
        }
        let mut out = String::new();
        let mut i: usize = 0;
        while i < self.content.len()
            invariant
                0 <= i <= self.content@.len(),
                out@ + concat_text(
                    self.content@.subrange(i as int, self.content@.len() as int),
                ) == concat_text(self.content@),
            decreases self.content@.len() - i,
        {
            proof {
                assert(self.content@.subrange(i as int, self.content@.len() as int).drop_first()
                    =~= self.content@.subrange(i + 1, self.content@.len() as int));
            }
            match &self.content[i] {
                Content::Text(t) => {
                    out.append(t.as_str());
                },
                _ => {},
            }
            i = i + 1;
        }
        proof {
            assert(self.content@.subrange(
                self.content@.len() as int,
                self.content@.len() as int,
            ) =~= Seq::<Content>::empty());
            assert(out@ + Seq::<char>::empty() =~= out@);
        }
        out
    }
}

} // verus!
