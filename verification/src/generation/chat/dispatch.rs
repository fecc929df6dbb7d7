//! The tool dispatcher: a registry from tool names to handlers, and the
//! resolution of the calls that a model makes.

use crate::generation::chat::message::{
    CallModel, ChatMessage, MessageModel, MessageRole, ToolCall,
};
use crate::generation::chat::tools::{
    property_names, DescriptorModel, Function, FunctionParameter, ParameterModel, RawTool,
    SchemaError, ToolModel,
};
use crate::generation::chat::value::WireValue;
use crate::generation::chat::wire::{encode_function, function_wire};
use vstd::prelude::*;

verus! {

/// Why a call was not answered with a payload. None of these ends a
/// conversation: each is reported back to the model as a tool message.
#[derive(Clone, Debug, PartialEq, Eq)]
pub enum DispatchError {
    /// The call names a tool that is not registered.
    UnknownTool(String),
    /// The call lacks an argument that the tool's schema requires.
    MissingArgument(String),
    /// The handler ran and reported a failure.
    HandlerFailed(String),
}

/// Mathematical model of a dispatch error.
pub ghost enum DispatchFault {
    UnknownTool(Seq<char>),
    MissingArgument(Seq<char>),
    HandlerFailed(Seq<char>),
}

impl View for DispatchError {
    type V = DispatchFault;

    open spec fn view(&self) -> DispatchFault {
        match self {
            DispatchError::UnknownTool(name) => DispatchFault::UnknownTool(name@),
            DispatchError::MissingArgument(name) => DispatchFault::MissingArgument(name@),
            DispatchError::HandlerFailed(reason) => DispatchFault::HandlerFailed(reason@),
        }
    }
}

/// The model of a dispatch outcome.
pub open spec fn outcome_view(outcome: Result<String, DispatchError>) -> Result<
    Seq<char>,
    DispatchFault,
> {
    match outcome {
        Ok(payload) => Ok(payload@),
        Err(error) => Err(error@),
    }
}

/// What a handler's result becomes as a dispatch outcome: its payload, or
/// its failure reason as `HandlerFailed`.
pub open spec fn settled(result: Result<String, String>) -> Result<Seq<char>, DispatchFault> {
    match result {
        Ok(payload) => Ok(payload@),
        Err(reason) => Err(DispatchFault::HandlerFailed(reason@)),
    }
}

/// The place of the first of the leading `count` tools that is called
/// `name`.
pub open spec fn position_upto(tools: Seq<ToolModel>, name: Seq<char>, count: nat) -> Option<int>
    decreases count,
{
    if count == 0 {
        None
    } else {
        match position_upto(tools, name, (count - 1) as nat) {
            Some(i) => Some(i),
            None => if tools[count - 1].name == name {
                Some(count - 1)
            } else {
                None
            },
        }
    }
}

/// The place of the first tool that is called `name`.
pub open spec fn position(tools: Seq<ToolModel>, name: Seq<char>) -> Option<int> {
    position_upto(tools, name, tools.len())
}

/// The first of the leading `count` names of `required` for which `call`
/// gives no argument.
pub open spec fn missing_upto(required: Seq<Seq<char>>, call: CallModel, count: nat) -> Option<
    Seq<char>,
>
    decreases count,
{
    if count == 0 {
        None
    } else {
        match missing_upto(required, call, (count - 1) as nat) {
            Some(name) => Some(name),
            None => if call.has_argument(required[count - 1]) {
                None
            } else {
                Some(required[count - 1])
            },
        }
    }
}

/// The first property that `parameters` requires and for which `call`
/// gives no argument. Only an object requires anything.
pub open spec fn first_missing(parameters: ParameterModel, call: CallModel) -> Option<Seq<char>> {
    match parameters {
        ParameterModel::Object { required, .. } => missing_upto(required, call, required.len()),
        _ => None,
    }
}

/// Where `call` leads among `tools`: to the place of the tool that it
/// names, or to the reason for which no handler is run.
pub open spec fn resolution(tools: Seq<ToolModel>, call: CallModel) -> Result<int, DispatchFault> {
    match position(tools, call.function_name) {
        None => Err(DispatchFault::UnknownTool(call.function_name)),
        Some(i) => match first_missing(tools[i].parameters, call) {
            Some(name) => Err(DispatchFault::MissingArgument(name)),
            None => Ok(i),
        },
    }
}

/// Whether a tool may join `tools`: it must be of a known kind, its
/// parameters a well-formed schema, and its name new.
pub open spec fn registration_verdict(tools: Seq<ToolModel>, tool: DescriptorModel) -> Result<
    (),
    SchemaError,
> {
    match tool {
        DescriptorModel::Unknown { .. } => Err(SchemaError::UnknownKind),
        DescriptorModel::Function { tool } => match tool.parameters.defect() {
            Some(e) => Err(e),
            None => if position(tools, tool.name) is Some {
                Err(SchemaError::DuplicateTool)
            } else {
                Ok(())
            },
        },
    }
}

/// A tool whose parameters are an object that requires a name which is
/// none of its properties is refused, whatever is registered already.
pub proof fn lemma_unknown_required_is_refused(tools: Seq<ToolModel>, tool: ToolModel)
    requires
        tool.parameters is Object,
        exists|j: int|
            0 <= j < tool.parameters->required.len() && !property_names(
                tool.parameters->properties,
            ).contains(#[trigger] tool.parameters->required[j]),
    ensures
        registration_verdict(tools, DescriptorModel::Function { tool }) is Err,
{
    assert(!tool.parameters.required_known());
}

/// Once a tool is found among the leading tools, looking further finds the
/// same one.
proof fn lemma_position_stable(tools: Seq<ToolModel>, name: Seq<char>, count: nat, more: nat)
    requires
        count <= more,
        position_upto(tools, name, count) is Some,
    ensures
        position_upto(tools, name, more) == position_upto(tools, name, count),
    decreases more,
{
    if more > count {
        lemma_position_stable(tools, name, count, (more - 1) as nat);
    }
}

/// Once a required name is found missing, looking further finds the same
/// one.
proof fn lemma_missing_stable(required: Seq<Seq<char>>, call: CallModel, count: nat, more: nat)
    requires
        count <= more,
        missing_upto(required, call, count) is Some,
    ensures
        missing_upto(required, call, more) == missing_upto(required, call, count),
    decreases more,
{
    if more > count {
        lemma_missing_stable(required, call, count, (more - 1) as nat);
    }
}

/// A found tool has the name that was looked for, and stands among the
/// tools looked at.
pub proof fn lemma_position_found(tools: Seq<ToolModel>, name: Seq<char>, count: nat)
    requires
        count <= tools.len(),
    ensures
        match position_upto(tools, name, count) {
            Some(i) => 0 <= i < count && tools[i].name == name,
            None => forall|j: int| 0 <= j < count ==> (#[trigger] tools[j]).name != name,
        },
    decreases count,
{
    if count > 0 {
        lemma_position_found(tools, name, (count - 1) as nat);
    }
}

/// The first required property for which `call` gives no argument.
pub fn missing_argument(parameters: &FunctionParameter, call: &ToolCall) -> (r: Option<String>)
    ensures
        match r {
            Some(name) => first_missing(parameters@, call@) == Some(name@),
            None => first_missing(parameters@, call@) is None,
        },
{
    match parameters {
        FunctionParameter::String(_) => None,
        FunctionParameter::Unknown(_) => None,
        FunctionParameter::Object(object) => {
            let ghost required = parameters@->required;
            let mut j: usize = 0;
            while j < object.required.len()
                invariant
                    j <= object.required.len(),
                    required == parameters@->required,
                    *parameters == FunctionParameter::Object(*object),
                    missing_upto(required, call@, j as nat) is None,
                decreases object.required.len() - j,
            {
                assert(required[j as int] == object.required@[j as int]@);
                if !call.has_argument(&object.required[j]) {
                    proof {
                        assert(missing_upto(required, call@, (j + 1) as nat) == Some(
                            required[j as int],
                        ));
                        lemma_missing_stable(required, call@, (j + 1) as nat, required.len());
                    }
                    return Some(object.required[j].clone());
                }
                j += 1;
            }
            None
        },
    }
}

/// Turns a handler's result into a dispatch outcome.
pub fn settle(result: Result<String, String>) -> (r: Result<String, DispatchError>)
    ensures
        outcome_view(r) == settled(result),
{
    match result {
        Ok(payload) => Ok(payload),
        Err(reason) => Err(DispatchError::HandlerFailed(reason)),
    }
}

/// The text that reports `outcome` back to the model: the payload itself,
/// or a line that names the fault.
pub open spec fn outcome_text(outcome: Result<Seq<char>, DispatchFault>) -> Seq<char> {
    match outcome {
        Ok(payload) => payload,
        Err(DispatchFault::UnknownTool(name)) => "unknown tool: "@ + name,
        Err(DispatchFault::MissingArgument(name)) => "missing required argument: "@ + name,
        Err(DispatchFault::HandlerFailed(reason)) => "tool failed: "@ + reason,
    }
}

/// The tool message that reports `outcome`.
pub open spec fn outcome_report(outcome: Result<Seq<char>, DispatchFault>) -> MessageModel {
    MessageModel {
        role: MessageRole::Tool,
        content: outcome_text(outcome),
        tool_calls: None,
        complete: true,
    }
}

/// Wraps a dispatch outcome, payload or fault, in a tool message.
pub fn outcome_message(outcome: Result<String, DispatchError>) -> (r: ChatMessage)
    ensures
        r@ == outcome_report(outcome_view(outcome)),
{
    let content = match outcome {
        Ok(payload) => payload,
        Err(DispatchError::UnknownTool(name)) => {
            let mut text = String::from_str("unknown tool: ");
            text.append(name.as_str());
            text
        },
        Err(DispatchError::MissingArgument(name)) => {
            let mut text = String::from_str("missing required argument: ");
            text.append(name.as_str());
            text
        },
        Err(DispatchError::HandlerFailed(reason)) => {
            let mut text = String::from_str("tool failed: ");
            text.append(reason.as_str());
            text
        },
    };
    ChatMessage::new(MessageRole::Tool, content)
}

/// A tool together with the handler that answers its calls.
pub struct Registration<H> {
    tool: Function,
    handler: H,
}

/// The tools that a conversation offers, in the order of their
/// registration, each with its handler.
pub struct ToolRegistry<H> {
    entries: Vec<Registration<H>>,
}

impl<H> ToolRegistry<H> {
    /// The registered tools, in the order of their registration.
    pub closed spec fn tools(&self) -> Seq<ToolModel> {
        Seq::new(self.entries@.len(), |i: int| self.entries@[i].tool@)
    }

    /// The handlers, each at the place of its tool.
    pub closed spec fn handlers(&self) -> Seq<H> {
        Seq::new(self.entries@.len(), |i: int| self.entries@[i].handler)
    }
}

impl<H: Fn(&ToolCall) -> Result<String, String>> ToolRegistry<H> {
    /// The registry is well formed: every tool is a valid schema, no two
    /// tools share a name, and every handler accepts every call.
    pub open spec fn wf(&self) -> bool {
        &&& self.handlers().len() == self.tools().len()
        &&& forall|i: int| 0 <= i < self.tools().len() ==> (#[trigger] self.tools()[i]).valid()
        &&& forall|i: int, j: int|
            0 <= i < j < self.tools().len() ==> (#[trigger] self.tools()[i]).name != (
            #[trigger] self.tools()[j]).name
        &&& forall|i: int, call: &ToolCall|
            0 <= i < self.handlers().len() ==> #[trigger] call_requires(
                self.handlers()[i],
                (call,),
            )
    }

    /// `outcome` is a possible answer to `call`: the fault, where the call
    /// leads to no handler; otherwise what the handler of the tool may
    /// return, as a dispatch outcome.
    pub open spec fn admits(
        &self,
        call: &ToolCall,
        outcome: Result<Seq<char>, DispatchFault>,
    ) -> bool {
        match resolution(self.tools(), call@) {
            Err(fault) => outcome == Err::<Seq<char>, DispatchFault>(fault),
            Ok(i) => exists|result: Result<String, String>|
                call_ensures(self.handlers()[i], (call,), result) && outcome
                    == #[trigger] settled(result),
        }
    }

    /// A registry without tools.
    pub fn new() -> (r: Self)
        ensures
            r.wf(),
            r.tools() == Seq::<ToolModel>::empty(),
            r.handlers() == Seq::<H>::empty(),
    {
        let r = ToolRegistry { entries: Vec::new() };
        assert(r.tools() =~= Seq::<ToolModel>::empty());
        assert(r.handlers() =~= Seq::<H>::empty());
        r
    }

    /// The number of registered tools.
    pub fn len(&self) -> (r: usize)
        ensures
            r == self.tools().len(),
    {
        self.entries.len()
    }

    /// The tool at place `index`, if there is one.
    pub fn tool(&self, index: usize) -> (r: Option<&Function>)
        ensures
            match r {
                Some(tool) => index < self.tools().len() && tool@ == self.tools()[index as int],
                None => index >= self.tools().len(),
            },
    {
        if index < self.entries.len() {
            Some(&self.entries[index].tool)
        } else {
            None
        }
    }

    /// The place of the tool called `name`, if one is registered.
    pub fn position_of(&self, name: &String) -> (r: Option<usize>)
        ensures
            match r {
                Some(i) => position(self.tools(), name@) == Some(i as int) && i
                    < self.tools().len(),
                None => position(self.tools(), name@) is None,
            },
    {
        let ghost tools = self.tools();
        let mut i: usize = 0;
        while i < self.entries.len()
            invariant
                i <= self.entries.len(),
                tools == self.tools(),
                position_upto(tools, name@, i as nat) is None,
            decreases self.entries.len() - i,
        {
            assert(tools[i as int] == self.entries@[i as int].tool@);
            if self.entries[i].tool.function.name == *name {
                proof {
                    assert(position_upto(tools, name@, (i + 1) as nat) == Some(i as int));
                    lemma_position_stable(tools, name@, (i + 1) as nat, tools.len());
                }
                return Some(i);
            }
            i += 1;
        }
        None
    }

    /// The wire forms of the registered tools, in the order of their
    /// registration: what every request to the backend carries.
    pub fn descriptors(&self) -> (r: Vec<WireValue>)
        ensures
            r@.len() == self.tools().len(),
            forall|i: int|
                0 <= i < r@.len() ==> (#[trigger] r@[i])@ == function_wire(self.tools()[i]),
    {
        let ghost tools = self.tools();
        let mut out: Vec<WireValue> = Vec::new();
        let mut i: usize = 0;
        while i < self.entries.len()
            invariant
                i <= self.entries.len(),
                tools == self.tools(),
                out@.len() == i,
                forall|k: int| 0 <= k < i ==> (#[trigger] out@[k])@ == function_wire(tools[k]),
            decreases self.entries.len() - i,
        {
            assert(tools[i as int] == self.entries@[i as int].tool@);
            out.push(encode_function(&self.entries[i].tool));
            i += 1;
        }
        out
    }

    /// Registers `tool` with its handler. A tool of unknown kind, one whose
    /// schema is malformed and one whose name is taken are refused, and the
    /// registry stays as it was.
    pub fn register(&mut self, tool: RawTool, handler: H) -> (r: Result<(), SchemaError>)
        requires
            old(self).wf(),
            forall|call: &ToolCall| #[trigger] call_requires(handler, (call,)),
        ensures
            final(self).wf(),
            r == registration_verdict(old(self).tools(), tool@),
            r is Ok ==> final(self).tools() == old(self).tools().push(tool@->tool)
                && final(self).handlers() == old(self).handlers().push(handler),
            r is Err ==> final(self).tools() == old(self).tools() && final(self).handlers()
                == old(self).handlers(),
    {
        let tool = match tool {
            RawTool::Unknown(_) => {
                return Err(SchemaError::UnknownKind);
            },
            RawTool::Function(function) => function,
        };
        match tool.function.parameters.validate() {
            Err(e) => {
                return Err(e);
            },
            Ok(()) => {},
        }
        if self.position_of(&tool.function.name).is_some() {
            return Err(SchemaError::DuplicateTool);
        }
        proof {
            lemma_position_found(self.tools(), tool@.name, self.tools().len());
        }
        let ghost before_tools = self.tools();
        let ghost before_handlers = self.handlers();
        let ghost model = tool@;
        self.entries.push(Registration { tool, handler });
        proof {
            assert(self.tools() =~= before_tools.push(model));
            assert(self.handlers() =~= before_handlers.push(handler));
        }
        Ok(())
    }

    /// Finds the handler that `call` is for and checks the call's
    /// arguments against the tool's schema, without running anything.
    pub fn resolve(&self, call: &ToolCall) -> (r: Result<usize, DispatchError>)
        ensures
            match r {
                Ok(i) => resolution(self.tools(), call@) == Ok::<int, DispatchFault>(i as int)
                    && i < self.tools().len(),
                Err(e) => resolution(self.tools(), call@) == Err::<int, DispatchFault>(e@),
            },
    {
        match self.position_of(&call.function_name) {
            None => Err(DispatchError::UnknownTool(call.function_name.clone())),
            Some(i) => {
                assert(self.tools()[i as int] == self.entries@[i as int].tool@);
                match missing_argument(&self.entries[i].tool.function.parameters, call) {
                    Some(name) => Err(DispatchError::MissingArgument(name)),
                    None => Ok(i),
                }
            },
        }
    }

    /// Answers `call`: an unknown tool and a missing required argument are
    /// reported as errors; otherwise the tool's handler runs, and its
    /// payload or failure reason is the outcome.
    pub fn dispatch(&self, call: &ToolCall) -> (r: Result<String, DispatchError>)
        requires
            self.wf(),
        ensures
            self.admits(call, outcome_view(r)),
    {
        match self.resolve(call) {
            Err(e) => Err(e),
            Ok(i) => {
                assert(self.handlers()[i as int] == self.entries@[i as int].handler);
                let handler = &self.entries[i].handler;
                let result = handler(call);
                settle(result)
            },
        }
    }
}

} // verus!
