//! Messages of a conversation and the tool calls that a model makes in them.

use vstd::prelude::*;

verus! {

/// Who speaks in a message.
#[derive(Clone, Copy, Debug, PartialEq, Eq, Structural)]
pub enum MessageRole {
    System,
    User,
    Assistant,
    Tool,
}

/// One named argument of a tool call. The value is text as the model gave
/// it: a plain string, or a structured value written out.
#[derive(Clone, Debug, PartialEq, Eq)]
pub struct Argument {
    pub name: String,
    pub value: String,
}

/// A model's request to invoke a tool.
#[derive(Clone, Debug, PartialEq, Eq)]
pub struct ToolCall {
    pub function_name: String,
    pub arguments: Vec<Argument>,
}

/// One message of a conversation. `complete` is false only for an assistant
/// message whose stream was cut short.
#[derive(Clone, Debug, PartialEq, Eq)]
pub struct ChatMessage {
    pub role: MessageRole,
    pub content: String,
    pub tool_calls: Option<Vec<ToolCall>>,
    pub complete: bool,
}

/// Mathematical model of an argument.
pub ghost struct ArgumentModel {
    pub name: Seq<char>,
    pub value: Seq<char>,
}

/// Mathematical model of a tool call.
pub ghost struct CallModel {
    pub function_name: Seq<char>,
    pub arguments: Seq<ArgumentModel>,
}

/// Mathematical model of a message.
pub ghost struct MessageModel {
    pub role: MessageRole,
    pub content: Seq<char>,
    pub tool_calls: Option<Seq<CallModel>>,
    pub complete: bool,
}

impl View for Argument {
    type V = ArgumentModel;

    open spec fn view(&self) -> ArgumentModel {
        ArgumentModel { name: self.name@, value: self.value@ }
    }
}

/// The models of `arguments`, in order.
pub open spec fn argument_views(arguments: Seq<Argument>) -> Seq<ArgumentModel> {
    Seq::new(arguments.len(), |i: int| arguments[i]@)
}

impl View for ToolCall {
    type V = CallModel;

    open spec fn view(&self) -> CallModel {
        CallModel {
            function_name: self.function_name@,
            arguments: argument_views(self.arguments@),
        }
    }
}

/// The models of `calls`, in order.
pub open spec fn call_views(calls: Seq<ToolCall>) -> Seq<CallModel> {
    Seq::new(calls.len(), |i: int| calls[i]@)
}

/// The model of an optional list of calls.
pub open spec fn optional_call_views(calls: Option<Vec<ToolCall>>) -> Option<Seq<CallModel>> {
    match calls {
        Some(calls) => Some(call_views(calls@)),
        None => None,
    }
}

impl View for ChatMessage {
    type V = MessageModel;

    open spec fn view(&self) -> MessageModel {
        MessageModel {
            role: self.role,
            content: self.content@,
            tool_calls: optional_call_views(self.tool_calls),
            complete: self.complete,
        }
    }
}

/// The models of `messages`, in order.
pub open spec fn message_views(messages: Seq<ChatMessage>) -> Seq<MessageModel> {
    Seq::new(messages.len(), |i: int| messages[i]@)
}

impl CallModel {
    /// The call gives an argument called `name`.
    pub open spec fn has_argument(self, name: Seq<char>) -> bool {
        exists|k: int| 0 <= k < self.arguments.len() && (#[trigger] self.arguments[k]).name == name
    }

    /// `k` is the place of the first argument called `name`.
    pub open spec fn first_argument_at(self, name: Seq<char>, k: int) -> bool {
        &&& 0 <= k < self.arguments.len()
        &&& self.arguments[k].name == name
        &&& forall|j: int| 0 <= j < k ==> (#[trigger] self.arguments[j]).name != name
    }
}

impl MessageModel {
    /// The number of tool calls that the message carries.
    pub open spec fn call_count(self) -> nat {
        match self.tool_calls {
            Some(calls) => calls.len(),
            None => 0,
        }
    }

    /// The tool calls that the message carries, none where it names none.
    pub open spec fn calls(self) -> Seq<CallModel> {
        match self.tool_calls {
            Some(calls) => calls,
            None => Seq::empty(),
        }
    }
}

impl ToolCall {
    /// A call of the tool `function_name` with `arguments`.
    pub fn new(function_name: String, arguments: Vec<Argument>) -> (r: ToolCall)
        ensures
            r@ == (CallModel {
                function_name: function_name@,
                arguments: argument_views(arguments@),
            }),
    {
        ToolCall { function_name, arguments }
    }

    /// The value of the first argument called `name`, if the call gives one.
    pub fn argument<'a>(&'a self, name: &str) -> (r: Option<&'a String>)
        ensures
            match r {
                Some(value) => exists|k: int|
                    self@.first_argument_at(name@, k) && self@.arguments[k].value == value@,
                None => !self@.has_argument(name@),
            },
    {
        let wanted = String::from_str(name);
        let mut i: usize = 0;
        while i < self.arguments.len()
            invariant
                i <= self.arguments.len(),
                wanted@ == name@,
                forall|j: int| 0 <= j < i ==> (#[trigger] self@.arguments[j]).name != name@,
            decreases self.arguments.len() - i,
        {
            if self.arguments[i].name == wanted {
                assert(self@.first_argument_at(name@, i as int));
                return Some(&self.arguments[i].value);
            }
            i += 1;
        }
        None
    }

    /// Says whether the call gives an argument called `name`.
    pub fn has_argument(&self, name: &String) -> (r: bool)
        ensures
            r == self@.has_argument(name@),
    {
        let mut i: usize = 0;
        while i < self.arguments.len()
            invariant
                i <= self.arguments.len(),
                forall|j: int| 0 <= j < i ==> (#[trigger] self@.arguments[j]).name != name@,
            decreases self.arguments.len() - i,
        {
            if self.arguments[i].name == *name {
                assert(self@.arguments[i as int].name == name@);
                return true;
            }
            i += 1;
        }
        false
    }
}

impl ChatMessage {
    /// A complete message of `role` that says `content` and calls no tool.
    pub fn new(role: MessageRole, content: String) -> (r: ChatMessage)
        ensures
            r@ == (MessageModel { role, content: content@, tool_calls: None, complete: true }),
    {
        ChatMessage { role, content, tool_calls: None, complete: true }
    }

    /// An assistant's message with the tool calls that it makes, if any.
    pub fn assistant(content: String, tool_calls: Option<Vec<ToolCall>>, complete: bool) -> (r:
        ChatMessage)
        ensures
            r@ == (MessageModel {
                role: MessageRole::Assistant,
                content: content@,
                tool_calls: optional_call_views(tool_calls),
                complete,
            }),
    {
        ChatMessage { role: MessageRole::Assistant, content, tool_calls, complete }
    }

    /// The number of tool calls that the message carries.
    pub fn call_count(&self) -> (r: usize)
        ensures
            r == self@.call_count(),
    {
        match &self.tool_calls {
            Some(calls) => calls.len(),
            None => 0,
        }
    }

    /// Says whether the message asks for at least one tool to be invoked.
    pub fn requests_tools(&self) -> (r: bool)
        ensures
            r == (self@.call_count() > 0),
    {
        self.call_count() > 0
    }
}

} // verus!
