//! The conversation data model: roles, tool invocations, and the messages
//! that make up a conversation history.
use vstd::prelude::*;

verus! {

/// Who a conversation message speaks for.
#[derive(Debug, Clone, Copy, PartialEq, Eq, Structural)]
pub enum Role {
    User,
    Assistant,
    Tool,
}

/// A structured request, emitted by the assistant, to run a named tool
/// with the given argument text.
#[derive(Debug)]
pub struct ToolInvocation {
    pub id: String,
    pub name: String,
    pub arguments: String,
}

/// Mathematical model of a tool invocation.
#[verifier::ext_equal]
pub ghost struct InvocationModel {
    pub id: Seq<char>,
    pub name: Seq<char>,
    pub arguments: Seq<char>,
}

impl View for ToolInvocation {
    type V = InvocationModel;

    open spec fn view(&self) -> InvocationModel {
        InvocationModel { id: self.id@, name: self.name@, arguments: self.arguments@ }
    }
}

/// One message of a conversation. Assistant messages may carry tool
/// invocations; tool messages carry the id of the invocation they answer.
#[derive(Debug)]
pub struct Message {
    pub role: Role,
    pub content: Option<String>,
    pub refusal: Option<String>,
    pub tool_calls: Vec<ToolInvocation>,
    pub tool_call_id: Option<String>,
}

/// Mathematical model of a message.
#[verifier::ext_equal]
pub ghost struct MessageModel {
    pub role: Role,
    pub content: Option<Seq<char>>,
    pub refusal: Option<Seq<char>>,
    pub tool_calls: Seq<InvocationModel>,
    pub tool_call_id: Option<Seq<char>>,
}

pub open spec fn opt_text_model(o: Option<String>) -> Option<Seq<char>> {
    match o {
        Some(s) => Some(s@),
        None => None,
    }
}

pub open spec fn invocations_model(s: Seq<ToolInvocation>) -> Seq<InvocationModel> {
    s.map_values(|t: ToolInvocation| t@)
}

impl View for Message {
    type V = MessageModel;

    open spec fn view(&self) -> MessageModel {
        MessageModel {
            role: self.role,
            content: opt_text_model(self.content),
            refusal: opt_text_model(self.refusal),
            tool_calls: invocations_model(self.tool_calls@),
            tool_call_id: opt_text_model(self.tool_call_id),
        }
    }
}

/// An exact copy of an optional text.
pub fn dup_opt_text(o: &Option<String>) -> (r: Option<String>)
    ensures
        opt_text_model(r) == opt_text_model(*o),
{
    match o {
        Some(s) => Some(s.clone()),
        None => None,
    }
}

impl ToolInvocation {
    /// An exact copy.
    pub fn duplicate(&self) -> (r: ToolInvocation)
        ensures
            r@ == self@,
    {
        ToolInvocation {
            id: self.id.clone(),
            name: self.name.clone(),
            arguments: self.arguments.clone(),
        }
    }
}

/// An exact copy of a list of invocations.
pub fn dup_invocations(v: &Vec<ToolInvocation>) -> (r: Vec<ToolInvocation>)
    ensures
        invocations_model(r@) == invocations_model(v@),
{
    let mut r: Vec<ToolInvocation> = Vec::new();
    let mut i: usize = 0;
    while i < v.len()
        invariant
            i <= v.len(),
            r@.len() == i,
            forall|j: int| 0 <= j < i ==> r@[j]@ == v@[j]@,
        decreases v.len() - i,
    {
        r.push(v[i].duplicate());
        i = i + 1;
    }
    proof {
        assert(invocations_model(r@) =~= invocations_model(v@));
    }
    r
}

impl Message {
    /// A plain user message carrying the given text.
    pub fn user(text: String) -> (m: Message)
        ensures
            m@ == (MessageModel {
                role: Role::User,
                content: Some(text@),
                refusal: None,
                tool_calls: Seq::empty(),
                tool_call_id: None,
            }),
    {
        let m = Message {
            role: Role::User,
            content: Some(text),
            refusal: None,
            tool_calls: Vec::new(),
            tool_call_id: None,
        };
        proof {
            assert(invocations_model(m.tool_calls@) =~= Seq::<InvocationModel>::empty());
            assert(m@ =~= (MessageModel {
                role: Role::User,
                content: m@.content,
                refusal: None,
                tool_calls: Seq::empty(),
                tool_call_id: None,
            }));
        }
        m
    }

    /// A tool-role message answering the invocation `id` with `content`.
    pub fn tool(id: String, content: String) -> (m: Message)
        ensures
            m@ == (MessageModel {
                role: Role::Tool,
                content: Some(content@),
                refusal: None,
                tool_calls: Seq::empty(),
                tool_call_id: Some(id@),
            }),
    {
        let m = Message {
            role: Role::Tool,
            content: Some(content),
            refusal: None,
            tool_calls: Vec::new(),
            tool_call_id: Some(id),
        };
        proof {
            assert(invocations_model(m.tool_calls@) =~= Seq::<InvocationModel>::empty());
            assert(m@ =~= (MessageModel {
                role: Role::Tool,
                content: m@.content,
                refusal: None,
                tool_calls: Seq::empty(),
                tool_call_id: m@.tool_call_id,
            }));
        }
        m
    }

    /// An exact copy.
    pub fn duplicate(&self) -> (r: Message)
        ensures
            r@ == self@,
    {
        let r = Message {
            role: self.role,
            content: dup_opt_text(&self.content),
            refusal: dup_opt_text(&self.refusal),
            tool_calls: dup_invocations(&self.tool_calls),
            tool_call_id: dup_opt_text(&self.tool_call_id),
        };
        proof {
            assert(r@ =~= self@);
        }
        r
    }
}

/// An exact copy of a list of messages.
pub fn dup_messages(v: &Vec<Message>) -> (r: Vec<Message>)
    ensures
        r@.map_values(|m: Message| m@) == v@.map_values(|m: Message| m@),
{
    let mut r: Vec<Message> = Vec::new();
    let mut i: usize = 0;
    while i < v.len()
        invariant
            i <= v.len(),
            r@.len() == i,
            forall|j: int| 0 <= j < i ==> r@[j]@ == v@[j]@,
        decreases v.len() - i,
    {
        r.push(v[i].duplicate());
        i = i + 1;
    }
    proof {
        assert(r@.map_values(|m: Message| m@) =~= v@.map_values(|m: Message| m@));
    }
    r
}

/// Model of a message list.
pub open spec fn messages_model(s: Seq<Message>) -> Seq<MessageModel> {
    s.map_values(|m: Message| m@)
}

} // verus!
