//! Event descriptions: the names and payloads under which happenings are
//! reported. The engine only builds these values; shipping them anywhere is
//! someone else's job.

use vstd::prelude::*;

verus! {

/// What snake casing an arbitrary string yields.
///
/// Relied upon below: the conversion is a function of the input alone.
pub uninterp spec fn snake_of(s: Seq<char>) -> Seq<char>;

/// Relies on convert_case's `Casing::to_case` with the snake-case target:
/// splits the input on its word boundaries and joins the lowercased words
/// with underscores.
#[verifier::external_body]
fn to_snake(s: &str) -> (r: String)
    ensures
        r@ == snake_of(s@),
{
    convert_case::Casing::to_case(&s, convert_case::Case::Snake)
}

/// An event name, always in snake case.
#[derive(Clone, Debug)]
pub struct Name(pub String);

impl Name {
    /// The snake-cased form of the given name.
    pub fn new(name: String) -> (r: Self)
        ensures
            r.0@ == snake_of(name@),
    {
        Name(to_snake(name.as_str()))
    }

    /// The name as text.
    pub fn as_str(&self) -> (r: &str)
        ensures
            r@ == self.0@,
    {
        self.0.as_str()
    }
}

/// Who is logged in.
#[derive(Clone, Debug)]
pub struct Identity {
    pub login: String,
}

/// What a tool call reports: the tool's name and, optionally, what caused
/// the call to fail.
#[derive(Clone, Debug)]
pub struct ToolCallPayload {
    pub tool_name: String,
    pub cause: Option<String>,
}

impl ToolCallPayload {
    /// A payload for a named tool, with no cause.
    pub fn new(tool_name: String) -> (r: Self)
        ensures
            r.tool_name@ == tool_name@,
            r.cause is None,
    {
        ToolCallPayload { tool_name, cause: None }
    }

    /// The same payload with a cause attached.
    pub fn with_cause(self, cause: String) -> (r: Self)
        ensures
            r.tool_name@ == self.tool_name@,
            match r.cause {
                Some(c) => c@ == cause@,
                None => false,
            },
    {
        ToolCallPayload { tool_name: self.tool_name, cause: Some(cause) }
    }
}

/// The kinds of events the engine can describe.
#[derive(Clone, Debug)]
pub enum EventKind {
    Start,
    ToolCall(ToolCallPayload),
    Prompt(String),
    Error(String),
    Trace(Vec<u8>),
    Login(Identity),
}

/// The tag an event kind is reported under.
pub open spec fn kind_tag(k: EventKind) -> Seq<char> {
    match k {
        EventKind::Start => "start"@,
        EventKind::Prompt(_) => "prompt"@,
        EventKind::Error(_) => "error"@,
        EventKind::ToolCall(_) => "tool_call"@,
        EventKind::Trace(_) => "trace"@,
        EventKind::Login(_) => "login"@,
    }
}

impl EventKind {
    /// The event's name: its tag, snake-cased.
    pub fn name(&self) -> (r: Name)
        ensures
            r.0@ == snake_of(kind_tag(*self)),
    {
        match self {
            EventKind::Start => Name::new(owned("start")),
            EventKind::Prompt(_) => Name::new(owned("prompt")),
            EventKind::Error(_) => Name::new(owned("error")),
            EventKind::ToolCall(_) => Name::new(owned("tool_call")),
            EventKind::Trace(_) => Name::new(owned("trace")),
            EventKind::Login(_) => Name::new(owned("login")),
        }
    }
}

/// An owned string from a literal.
fn owned(s: &str) -> (r: String)
    ensures
        r@ == s@,
{
    s.to_owned()
}

} // verus!
