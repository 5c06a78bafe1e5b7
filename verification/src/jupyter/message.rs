//! The messages of a kernel.
//! <https://jupyter-client.readthedocs.io/en/latest/messaging.html>
use crate::json::{get_entry, Json, JsonView, ParseError};
use crate::output::{MimeData, StreamOutputTarget};
use vstd::prelude::*;
use vstd::string::*;

verus! {

/// A message of a kernel, or to it.
#[derive(Debug)]
pub struct Message {
    pub header: MessageHeader,
    pub msg_id: String,
    pub msg_type: MessageType,
    pub parent_header: MessageHeader,
    pub metadata: Vec<(String, Json)>,
    pub content: Vec<(String, Json)>,
    pub buffers: Vec<Vec<u8>>,
}

/// What is said of a message apart from its content.
#[derive(Debug)]
pub struct MessageHeader {
    pub msg_id: String,
    pub session: String,
    pub username: String,
    pub date: Option<String>,
    pub msg_type: MessageType,
    pub version: String,
}

/// The type of a message, by the channel that it is sent on.
#[derive(Clone, Copy, Debug, PartialEq, Eq, Structural)]
pub enum MessageType {
    Shell(ShellMessageType),
    IoPubSub(IoPubSubMessageType),
}

/// The types of the messages on the shell channel.
#[derive(Clone, Copy, Debug, PartialEq, Eq, Structural)]
pub enum ShellMessageType {
    ExecuteRequest,
    ExecuteReply,
    InspectRequest,
    InspecyReply,
    CompletedProquest,
    CompleteReply,
    HistoryRequest,
    HistoryReply,
    IsCompleteRequest,
    IsCompleteReply,
    ConnectRequest,
    ConnectReply,
    CommInfoRequest,
    CommInfoReply,
    KernelInfoRequest,
    KernelInfoReply,
}

/// The types of the messages that a kernel publishes.
#[derive(Clone, Copy, Debug, PartialEq, Eq, Structural)]
pub enum IoPubSubMessageType {
    Stream,
    DisplayData,
    UpdateDisplayData,
    ExecuteInput,
    ExecuteResult,
    ExecutionError,
    KernelStatus,
    ClearOutput,
    DebugEvent,
}

/// The content of a message that a kernel publishes. The keys of `data` and `metadata` are MIME
/// types.
#[derive(Debug)]
pub enum IoPubSubMessageContent {
    Stream { name: StreamOutputTarget, text: String },
    DisplayData {
        data: Vec<(String, MimeData)>,
        metadata: Vec<(String, Json)>,
        transient: Vec<(String, Json)>,
    },
    ExecutionInput { code: String, execution_count: usize },
    ExecutionResult {
        execution_count: usize,
        data: Vec<(String, MimeData)>,
        metadata: Vec<(String, Json)>,
    },
}

impl From<ShellMessageType> for MessageType {
    fn from(msg_type: ShellMessageType) -> (message_type: MessageType) {
        MessageType::Shell(msg_type)
    }
}

impl vstd::std_specs::convert::FromSpecImpl<ShellMessageType> for MessageType {
    open spec fn obeys_from_spec() -> bool {
        true
    }

    open spec fn from_spec(msg_type: ShellMessageType) -> MessageType {
        MessageType::Shell(msg_type)
    }
}

impl From<IoPubSubMessageType> for MessageType {
    fn from(msg_type: IoPubSubMessageType) -> (message_type: MessageType) {
        MessageType::IoPubSub(msg_type)
    }
}

impl vstd::std_specs::convert::FromSpecImpl<IoPubSubMessageType> for MessageType {
    open spec fn obeys_from_spec() -> bool {
        true
    }

    open spec fn from_spec(msg_type: IoPubSubMessageType) -> MessageType {
        MessageType::IoPubSub(msg_type)
    }
}

impl ShellMessageType {
    /// The message type of that name, if there is one.
    pub open spec fn named(name: Seq<char>) -> Option<ShellMessageType> {
        if name == "execute_request"@ {
            Some(ShellMessageType::ExecuteRequest)
        } else if name == "execute_reply"@ {
            Some(ShellMessageType::ExecuteReply)
        } else if name == "inspect_request"@ {
            Some(ShellMessageType::InspectRequest)
        } else if name == "inspect_reply"@ {
            Some(ShellMessageType::InspecyReply)
        } else if name == "complete_request"@ {
            Some(ShellMessageType::CompletedProquest)
        } else if name == "complete_reply"@ {
            Some(ShellMessageType::CompleteReply)
        } else if name == "history_request"@ {
            Some(ShellMessageType::HistoryRequest)
        } else if name == "history_reply"@ {
            Some(ShellMessageType::HistoryReply)
        } else if name == "is_complete_request"@ {
            Some(ShellMessageType::IsCompleteRequest)
        } else if name == "is_complete_reply"@ {
            Some(ShellMessageType::IsCompleteReply)
        } else if name == "connect_request"@ {
            Some(ShellMessageType::ConnectRequest)
        } else if name == "connect_reply"@ {
            Some(ShellMessageType::ConnectReply)
        } else if name == "comm_info_request"@ {
            Some(ShellMessageType::CommInfoRequest)
        } else if name == "comm_info_reply"@ {
            Some(ShellMessageType::CommInfoReply)
        } else if name == "kernel_info_request"@ {
            Some(ShellMessageType::KernelInfoRequest)
        } else if name == "kernel_info_reply"@ {
            Some(ShellMessageType::KernelInfoReply)
        } else {
            None
        }
    }

    /// The name of the message type on the wire.
    pub open spec fn wire_name(self) -> Seq<char> {
        match self {
            ShellMessageType::ExecuteRequest => "execute_request"@,
            ShellMessageType::ExecuteReply => "execute_reply"@,
            ShellMessageType::InspectRequest => "inspect_request"@,
            ShellMessageType::InspecyReply => "inspect_reply"@,
            ShellMessageType::CompletedProquest => "complete_request"@,
            ShellMessageType::CompleteReply => "complete_reply"@,
            ShellMessageType::HistoryRequest => "history_request"@,
            ShellMessageType::HistoryReply => "history_reply"@,
            ShellMessageType::IsCompleteRequest => "is_complete_request"@,
            ShellMessageType::IsCompleteReply => "is_complete_reply"@,
            ShellMessageType::ConnectRequest => "connect_request"@,
            ShellMessageType::ConnectReply => "connect_reply"@,
            ShellMessageType::CommInfoRequest => "comm_info_request"@,
            ShellMessageType::CommInfoReply => "comm_info_reply"@,
            ShellMessageType::KernelInfoRequest => "kernel_info_request"@,
            ShellMessageType::KernelInfoReply => "kernel_info_reply"@,
        }
    }

    /// The message type of that name, if there is one.
    pub fn from_name(name: &str) -> (msg_type: Option<ShellMessageType>)
        ensures
            msg_type == ShellMessageType::named(name@),
    {
        if crate::text::same_text(name, "execute_request") {
            Some(ShellMessageType::ExecuteRequest)
        } else if crate::text::same_text(name, "execute_reply") {
            Some(ShellMessageType::ExecuteReply)
        } else if crate::text::same_text(name, "inspect_request") {
            Some(ShellMessageType::InspectRequest)
        } else if crate::text::same_text(name, "inspect_reply") {
            Some(ShellMessageType::InspecyReply)
        } else if crate::text::same_text(name, "complete_request") {
            Some(ShellMessageType::CompletedProquest)
        } else if crate::text::same_text(name, "complete_reply") {
            Some(ShellMessageType::CompleteReply)
        } else if crate::text::same_text(name, "history_request") {
            Some(ShellMessageType::HistoryRequest)
        } else if crate::text::same_text(name, "history_reply") {
            Some(ShellMessageType::HistoryReply)
        } else if crate::text::same_text(name, "is_complete_request") {
            Some(ShellMessageType::IsCompleteRequest)
        } else if crate::text::same_text(name, "is_complete_reply") {
            Some(ShellMessageType::IsCompleteReply)
        } else if crate::text::same_text(name, "connect_request") {
            Some(ShellMessageType::ConnectRequest)
        } else if crate::text::same_text(name, "connect_reply") {
            Some(ShellMessageType::ConnectReply)
        } else if crate::text::same_text(name, "comm_info_request") {
            Some(ShellMessageType::CommInfoRequest)
        } else if crate::text::same_text(name, "comm_info_reply") {
            Some(ShellMessageType::CommInfoReply)
        } else if crate::text::same_text(name, "kernel_info_request") {
            Some(ShellMessageType::KernelInfoRequest)
        } else if crate::text::same_text(name, "kernel_info_reply") {
            Some(ShellMessageType::KernelInfoReply)
        } else {
            None
        }
    }
}

impl IoPubSubMessageType {
    /// The message type of that name, if there is one.
    pub open spec fn named(name: Seq<char>) -> Option<IoPubSubMessageType> {
        if name == "stream"@ {
            Some(IoPubSubMessageType::Stream)
        } else if name == "display_data"@ {
            Some(IoPubSubMessageType::DisplayData)
        } else if name == "update_display_data"@ {
            Some(IoPubSubMessageType::UpdateDisplayData)
        } else if name == "execute_input"@ {
            Some(IoPubSubMessageType::ExecuteInput)
        } else if name == "execute_result"@ {
            Some(IoPubSubMessageType::ExecuteResult)
        } else if name == "error"@ {
            Some(IoPubSubMessageType::ExecutionError)
        } else if name == "status"@ {
            Some(IoPubSubMessageType::KernelStatus)
        } else if name == "clear_output"@ {
            Some(IoPubSubMessageType::ClearOutput)
        } else if name == "debug_event"@ {
            Some(IoPubSubMessageType::DebugEvent)
        } else {
            None
        }
    }

    /// The name of the message type on the wire.
    pub open spec fn wire_name(self) -> Seq<char> {
        match self {
            IoPubSubMessageType::Stream => "stream"@,
            IoPubSubMessageType::DisplayData => "display_data"@,
            IoPubSubMessageType::UpdateDisplayData => "update_display_data"@,
            IoPubSubMessageType::ExecuteInput => "execute_input"@,
            IoPubSubMessageType::ExecuteResult => "execute_result"@,
            IoPubSubMessageType::ExecutionError => "error"@,
            IoPubSubMessageType::KernelStatus => "status"@,
            IoPubSubMessageType::ClearOutput => "clear_output"@,
            IoPubSubMessageType::DebugEvent => "debug_event"@,
        }
    }

    /// The message type of that name, if there is one.
    pub fn from_name(name: &str) -> (msg_type: Option<IoPubSubMessageType>)
        ensures
            msg_type == IoPubSubMessageType::named(name@),
    {
        if crate::text::same_text(name, "stream") {
            Some(IoPubSubMessageType::Stream)
        } else if crate::text::same_text(name, "display_data") {
            Some(IoPubSubMessageType::DisplayData)
        } else if crate::text::same_text(name, "update_display_data") {
            Some(IoPubSubMessageType::UpdateDisplayData)
        } else if crate::text::same_text(name, "execute_input") {
            Some(IoPubSubMessageType::ExecuteInput)
        } else if crate::text::same_text(name, "execute_result") {
            Some(IoPubSubMessageType::ExecuteResult)
        } else if crate::text::same_text(name, "error") {
            Some(IoPubSubMessageType::ExecutionError)
        } else if crate::text::same_text(name, "status") {
            Some(IoPubSubMessageType::KernelStatus)
        } else if crate::text::same_text(name, "clear_output") {
            Some(IoPubSubMessageType::ClearOutput)
        } else if crate::text::same_text(name, "debug_event") {
            Some(IoPubSubMessageType::DebugEvent)
        } else {
            None
        }
    }
}

impl MessageType {
    /// The message type of that name, if there is one: the types of the shell channel come first.
    pub open spec fn named(name: Seq<char>) -> Option<MessageType> {
        match ShellMessageType::named(name) {
            Some(msg_type) => Some(MessageType::Shell(msg_type)),
            None => match IoPubSubMessageType::named(name) {
                Some(msg_type) => Some(MessageType::IoPubSub(msg_type)),
                None => None,
            },
        }
    }

    /// The name of the message type on the wire.
    pub open spec fn wire_name(self) -> Seq<char> {
        match self {
            MessageType::Shell(msg_type) => msg_type.wire_name(),
            MessageType::IoPubSub(msg_type) => msg_type.wire_name(),
        }
    }

    /// Reads the name of a message type.
    pub fn visit_str(name: &str) -> (result: Result<MessageType, ParseError>)
        ensures
            result == match MessageType::named(name@) {
                Some(msg_type) => Ok(msg_type),
                None => Err(ParseError),
            },
    {
        if let Some(msg_type) = ShellMessageType::from_name(name) {
            return Ok(MessageType::from(msg_type));
        }
        if let Some(msg_type) = IoPubSubMessageType::from_name(name) {
            return Ok(MessageType::from(msg_type));
        }
        Err(ParseError)
    }
}

/// Every message type is read back from its name, on either channel.
#[verifier::rlimit(40)]
pub proof fn lemma_message_type_round_trip(msg_type: MessageType)
    ensures
        MessageType::named(msg_type.wire_name()) == Some(msg_type),
{
    // Any two names differ in length or in one of these characters.
    reveal_strlit("execute_request");
    assert("execute_request"@.len() == 15);
    assert("execute_request"@[3] == 'c');
    assert("execute_request"@[8] == 'r');
    reveal_strlit("execute_reply");
    assert("execute_reply"@.len() == 13);
    assert("execute_reply"@[3] == 'c');
    assert("execute_reply"@[8] == 'r');
    reveal_strlit("inspect_request");
    assert("inspect_request"@.len() == 15);
    assert("inspect_request"@[3] == 'p');
    assert("inspect_request"@[8] == 'r');
    reveal_strlit("inspect_reply");
    assert("inspect_reply"@.len() == 13);
    assert("inspect_reply"@[3] == 'p');
    assert("inspect_reply"@[8] == 'r');
    reveal_strlit("complete_request");
    assert("complete_request"@.len() == 16);
    assert("complete_request"@[3] == 'p');
    assert("complete_request"@[8] == '_');
    reveal_strlit("complete_reply");
    assert("complete_reply"@.len() == 14);
    assert("complete_reply"@[3] == 'p');
    assert("complete_reply"@[8] == '_');
    reveal_strlit("history_request");
    assert("history_request"@.len() == 15);
    assert("history_request"@[3] == 't');
    assert("history_request"@[8] == 'r');
    reveal_strlit("history_reply");
    assert("history_reply"@.len() == 13);
    assert("history_reply"@[3] == 't');
    assert("history_reply"@[8] == 'r');
    reveal_strlit("is_complete_request");
    assert("is_complete_request"@.len() == 19);
    assert("is_complete_request"@[3] == 'c');
    assert("is_complete_request"@[8] == 'e');
    reveal_strlit("is_complete_reply");
    assert("is_complete_reply"@.len() == 17);
    assert("is_complete_reply"@[3] == 'c');
    assert("is_complete_reply"@[8] == 'e');
    reveal_strlit("connect_request");
    assert("connect_request"@.len() == 15);
    assert("connect_request"@[3] == 'n');
    assert("connect_request"@[8] == 'r');
    reveal_strlit("connect_reply");
    assert("connect_reply"@.len() == 13);
    assert("connect_reply"@[3] == 'n');
    assert("connect_reply"@[8] == 'r');
    reveal_strlit("comm_info_request");
    assert("comm_info_request"@.len() == 17);
    assert("comm_info_request"@[3] == 'm');
    assert("comm_info_request"@[8] == 'o');
    reveal_strlit("comm_info_reply");
    assert("comm_info_reply"@.len() == 15);
    assert("comm_info_reply"@[3] == 'm');
    assert("comm_info_reply"@[8] == 'o');
    reveal_strlit("kernel_info_request");
    assert("kernel_info_request"@.len() == 19);
    assert("kernel_info_request"@[3] == 'n');
    assert("kernel_info_request"@[8] == 'n');
    reveal_strlit("kernel_info_reply");
    assert("kernel_info_reply"@.len() == 17);
    assert("kernel_info_reply"@[3] == 'n');
    assert("kernel_info_reply"@[8] == 'n');
    reveal_strlit("stream");
    assert("stream"@.len() == 6);
    assert("stream"@[3] == 'e');
    reveal_strlit("display_data");
    assert("display_data"@.len() == 12);
    assert("display_data"@[3] == 'p');
    assert("display_data"@[8] == 'd');
    reveal_strlit("update_display_data");
    assert("update_display_data"@.len() == 19);
    assert("update_display_data"@[3] == 'a');
    assert("update_display_data"@[8] == 'i');
    reveal_strlit("execute_input");
    assert("execute_input"@.len() == 13);
    assert("execute_input"@[3] == 'c');
    assert("execute_input"@[8] == 'i');
    reveal_strlit("execute_result");
    assert("execute_result"@.len() == 14);
    assert("execute_result"@[3] == 'c');
    assert("execute_result"@[8] == 'r');
    reveal_strlit("error");
    assert("error"@.len() == 5);
    assert("error"@[3] == 'o');
    reveal_strlit("status");
    assert("status"@.len() == 6);
    assert("status"@[3] == 't');
    reveal_strlit("clear_output");
    assert("clear_output"@.len() == 12);
    assert("clear_output"@[3] == 'a');
    assert("clear_output"@[8] == 't');
    reveal_strlit("debug_event");
    assert("debug_event"@.len() == 11);
    assert("debug_event"@[3] == 'u');
    assert("debug_event"@[8] == 'e');
}

/// The string under `key`, if there is one.
pub open spec fn content_text(
    content: Seq<(Seq<char>, JsonView)>,
    key: Seq<char>,
) -> Option<Seq<char>> {
    match crate::json::lookup(content, key) {
        Some(value) => match value.as_text() {
            Ok(text) => Some(text),
            Err(_) => None,
        },
        None => None,
    }
}

/// The list of strings under `key`, if there is one.
pub open spec fn content_texts(
    content: Seq<(Seq<char>, JsonView)>,
    key: Seq<char>,
) -> Option<Seq<Seq<char>>> {
    match crate::json::lookup(content, key) {
        Some(value) => match value.as_texts() {
            Ok(texts) => Some(texts),
            Err(_) => None,
        },
        None => None,
    }
}

/// What a message with this content prints in the output of the cell that it belongs to: the text
/// of a stream, or the name, the value and the traceback of an error. `None` if it prints nothing.
pub open spec fn output_text(
    msg_type: MessageType,
    content: Seq<(Seq<char>, JsonView)>,
) -> Option<Seq<char>> {
    match msg_type {
        MessageType::IoPubSub(IoPubSubMessageType::Stream) => content_text(content, "text"@),
        MessageType::IoPubSub(IoPubSubMessageType::ExecutionError) => match (
            content_text(content, "ename"@),
            content_text(content, "evalue"@),
            content_texts(content, "traceback"@),
        ) {
            (Some(name), Some(value), Some(traceback)) => Some(
                name + ": "@ + value + "\n"@ + crate::text::joined(traceback, "\n"@),
            ),
            _ => None,
        },
        _ => None,
    }
}

/// The string under `key` of `content`, if there is one.
fn read_text(content: &Vec<(String, Json)>, key: &str) -> (text: Option<String>)
    ensures
        crate::text::optional_text(text) == content_text(
            crate::json::entries_view(content@),
            key@,
        ),
{
    get_entry(content, key)?.clone().parse_string().ok()
}

/// The list of strings under `key` of `content`, if there is one.
fn read_texts(content: &Vec<(String, Json)>, key: &str) -> (lines: Option<Vec<String>>)
    ensures
        match lines {
            Some(lines) => content_texts(crate::json::entries_view(content@), key@) == Some(
                crate::text::texts(lines@),
            ),
            None => content_texts(crate::json::entries_view(content@), key@) is None,
        },
{
    get_entry(content, key)?.clone().parse_strings().ok()
}

impl Message {
    /// What the message prints in the output of the cell that it belongs to, if anything.
    pub fn output_text(&self) -> (text: Option<String>)
        ensures
            crate::text::optional_text(text) == output_text(
                self.msg_type,
                crate::json::entries_view(self.content@),
            ),
    {
        let content = &self.content;
        match self.msg_type {
            MessageType::IoPubSub(IoPubSubMessageType::Stream) => read_text(content, "text"),
            MessageType::IoPubSub(IoPubSubMessageType::ExecutionError) => {
                let name = read_text(content, "ename")?;
                let value = read_text(content, "evalue")?;
                let traceback = read_texts(content, "traceback")?;
                let mut text = name;
                text.append(": ");
                text.append(value.as_str());
                text.append("\n");
                text.append(crate::text::join(&traceback, "\n").as_str());
                Some(text)
            },
            _ => None,
        }
    }
}

} // verus!
