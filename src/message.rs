use vstd::prelude::*;
use vstd::string::StrSliceExecFns;
use crate::text::{TextBuf, int_chars};

verus! {

/// Longest command text, in characters, that a `Command` may carry.
pub const MAX_COMMAND_CHARS: usize = 1024;

/// A message exchanged over the secured channel after the handshake.
#[derive(Debug, Clone, PartialEq)]
pub enum AppMessage {
    /// A request to run a command on the peer.
    Command { command: String },
    /// The outcome of a command.
    Response { success: bool, stdout: String, stderr: String, exit_code: Option<i32> },
    /// A report of a protocol or execution error.
    Error { message: String },
}

/// The mathematical value of an `AppMessage`: texts as character sequences.
pub enum MessageView {
    Command { command: Seq<char> },
    Response { success: bool, stdout: Seq<char>, stderr: Seq<char>, exit_code: Option<i32> },
    Error { message: Seq<char> },
}

impl View for AppMessage {
    type V = MessageView;

    open spec fn view(&self) -> MessageView {
        match self {
            AppMessage::Command { command } => MessageView::Command { command: command@ },
            AppMessage::Response { success, stdout, stderr, exit_code } => MessageView::Response {
                success: *success,
                stdout: stdout@,
                stderr: stderr@,
                exit_code: *exit_code,
            },
            AppMessage::Error { message } => MessageView::Error { message: message@ },
        }
    }
}

/// Why a message is refused by `validate`, if it is.
pub enum Invalidity {
    EmptyCommand,
    CommandTooLong,
    EmptyError,
}

/// What `validate` finds wrong with a message, or `None` when it is valid.
pub open spec fn invalidity(m: MessageView) -> Option<Invalidity> {
    match m {
        MessageView::Command { command } => if command.len() == 0 {
            Some(Invalidity::EmptyCommand)
        } else if command.len() > MAX_COMMAND_CHARS {
            Some(Invalidity::CommandTooLong)
        } else {
            None
        },
        MessageView::Response { .. } => None,
        MessageView::Error { message } => if message.len() == 0 {
            Some(Invalidity::EmptyError)
        } else {
            None
        },
    }
}

/// A message is valid when a command is non-empty and at most 1024 characters
/// long, and an error report is non-empty.
pub open spec fn valid_message(m: MessageView) -> bool {
    invalidity(m) is None
}

impl AppMessage {
    /// Checks the content rules of the message; the error text says which rule failed.
    pub fn validate(&self) -> (r: Result<(), String>)
        ensures
            r is Ok <==> valid_message(self@),
            invalidity(self@) == Some(Invalidity::EmptyCommand) ==> (r matches Err(m) && m@
                == "Command cannot be empty"@),
            invalidity(self@) == Some(Invalidity::CommandTooLong) ==> (r matches Err(m) && m@
                == "Command too long (max 1024 characters)"@),
            invalidity(self@) == Some(Invalidity::EmptyError) ==> (r matches Err(m) && m@
                == "Error message cannot be empty"@),
    {
        match self {
            AppMessage::Command { command } => {
                if command.as_str().is_empty() {
                    return Err("Command cannot be empty".to_string());
                }
                if command.as_str().unicode_len() > MAX_COMMAND_CHARS {
                    return Err("Command too long (max 1024 characters)".to_string());
                }
                Ok(())
            },
            AppMessage::Response { .. } => Ok(()),
            AppMessage::Error { message } => {
                if message.as_str().is_empty() {
                    return Err("Error message cannot be empty".to_string());
                }
                Ok(())
            },
        }
    }
}

/// The handler-facing outcome of a command, derived from a received
/// `Response` or `Error` message.
#[derive(Debug, Clone, PartialEq)]
pub struct CommandResponse {
    pub success: bool,
    pub stdout: String,
    pub stderr: String,
    pub exit_code: Option<i32>,
}

/// The note on the exit code in a response's description, if it has one.
pub open spec fn exit_code_note(c: Option<i32>) -> Seq<char> {
    match c {
        Some(n) => " (exit code: "@ + int_chars(n as int) + ")"@,
        None => Seq::empty(),
    }
}

/// A titled section of a description, left out when its body is empty.
pub open spec fn section(title: Seq<char>, body: Seq<char>) -> Seq<char> {
    if body.len() == 0 {
        Seq::empty()
    } else {
        title + body
    }
}

/// The human-readable description of a command's outcome.
pub open spec fn response_text(r: CommandResponse) -> Seq<char> {
    if r.success {
        "Command executed successfully"@ + exit_code_note(r.exit_code) + section(
            "\nStdout:\n"@,
            r.stdout@,
        ) + section("\nStderr:\n"@, r.stderr@)
    } else {
        "Command execution failed"@ + exit_code_note(r.exit_code) + section(
            "\nError:\n"@,
            r.stderr@,
        )
    }
}

impl CommandResponse {
    /// A successful outcome.
    pub fn success(stdout: String, stderr: String, exit_code: Option<i32>) -> (r: Self)
        ensures
            r.success,
            r.stdout@ == stdout@,
            r.stderr@ == stderr@,
            r.exit_code == exit_code,
    {
        CommandResponse { success: true, stdout, stderr, exit_code }
    }

    /// A failed outcome, with nothing on standard output.
    pub fn failure(stderr: String, exit_code: Option<i32>) -> (r: Self)
        ensures
            !r.success,
            r.stdout@ == Seq::<char>::empty(),
            r.stderr@ == stderr@,
            r.exit_code == exit_code,
    {
        CommandResponse { success: false, stdout: String::new(), stderr, exit_code }
    }

    /// The failed outcome that stands for an `Error` message: its text goes to
    /// standard error and there is no exit code.
    pub fn error(message: String) -> (r: Self)
        ensures
            !r.success,
            r.stdout@ == Seq::<char>::empty(),
            r.stderr@ == message@,
            r.exit_code is None,
    {
        CommandResponse { success: false, stdout: String::new(), stderr: message, exit_code: None }
    }

    /// Describes the outcome for a person: success or failure, the exit code
    /// when known, then the non-empty outputs under their titles (a failure
    /// shows standard error only).
    pub fn to_string(&self) -> (r: String)
        ensures
            r@ == response_text(*self),
    {
        let mut t = TextBuf::new();
        if self.success {
            t.push_str("Command executed successfully");
        } else {
            t.push_str("Command execution failed");
        }
        let ghost head = t.text();
        if let Some(code) = self.exit_code {
            t.push_str(" (exit code: ");
            t.push_int(code);
            t.push_str(")");
        }
        proof {
            assert(t.text() =~= head + exit_code_note(self.exit_code));
        }
        let ghost mid = t.text();
        if self.success && !self.stdout.as_str().is_empty() {
            t.push_str("\nStdout:\n");
            t.push_str(self.stdout.as_str());
        }
        proof {
            if self.success {
                assert(t.text() =~= mid + section("\nStdout:\n"@, self.stdout@));
            }
        }
        let ghost mid2 = t.text();
        if !self.stderr.as_str().is_empty() {
            if self.success {
                t.push_str("\nStderr:\n");
            } else {
                t.push_str("\nError:\n");
            }
            t.push_str(self.stderr.as_str());
        }
        proof {
            if self.success {
                assert(t.text() =~= mid2 + section("\nStderr:\n"@, self.stderr@));
            } else {
                assert(t.text() =~= mid2 + section("\nError:\n"@, self.stderr@));
            }
        }
        t.finish()
    }
}

} // verus!
