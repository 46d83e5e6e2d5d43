//! The tool executor: runs validated tool calls and captures their results for
//! auditing. The executor is only called after policy approval.

use std::time::{Duration, Instant};
use vstd::prelude::*;
use crate::clock::Timestamp;
use crate::json::JsonValue;

verus! {

#[verifier::external_type_specification]
#[verifier::external_body]
pub struct ExInstant(Instant);

/// How a tool call ended.
#[derive(Debug, Clone, Copy, PartialEq, Eq, Structural)]
pub enum ExecutionStatus {
    Success,
    Failed,
    Denied,
    Timeout,
}

/// A request to run a tool.
#[derive(Debug, Clone)]
pub struct ToolCall {
    pub call_id: String,
    pub tool_id: String,
    pub input: JsonValue,
    pub timestamp: Timestamp,
}

/// What a tool call produced.
#[derive(Debug, Clone)]
pub struct ToolResult {
    pub call_id: String,
    pub tool_id: String,
    pub output: JsonValue,
    pub status: ExecutionStatus,
    pub duration_ms: u64,
    pub timestamp: Timestamp,
}

/// A lowercase hexadecimal digit.
pub open spec fn is_lower_hex_digit(c: char) -> bool {
    ('0' <= c && c <= '9') || ('a' <= c && c <= 'f')
}

/// The hyphenated text of a random (version 4, RFC 4122 variant) UUID, such
/// as `67e55044-10b1-426f-9247-bb680e5fe0c8`.
pub open spec fn is_uuid_v4_text(s: Seq<char>) -> bool {
    &&& s.len() == 36
    &&& forall|i: int|
        0 <= i < 36 ==> if i == 8 || i == 13 || i == 18 || i == 23 {
            s[i] == '-'
        } else {
            is_lower_hex_digit(#[trigger] s[i])
        }
    &&& s[14] == '4'
    &&& (s[19] == '8' || s[19] == '9' || s[19] == 'a' || s[19] == 'b')
}

/// Calls `uuid::Uuid::new_v4` and turns the UUID into text with `to_string`.
/// uuid draws 122 random bits, sets the version nibble to 4 and the variant
/// bits to `10`, and its `Display` writes the lowercase hyphenated form; which
/// UUID comes back is random and not stated.
#[verifier::external_body]
fn new_v4_text() -> (s: String)
    ensures
        is_uuid_v4_text(s@),
{
    uuid::Uuid::new_v4().to_string()
}

/// Calls `std::time::Instant::now`; what it returns depends on the clock.
#[verifier::external_body]
fn instant_now() -> (t: Instant) {
    Instant::now()
}

/// Calls `std::time::Instant::elapsed`; what it returns depends on the clock.
#[verifier::external_body]
fn instant_elapsed(start: &Instant) -> (d: Duration) {
    start.elapsed()
}

/// Calls `std::time::Duration::as_millis`; nothing is stated of the value.
#[verifier::external_body]
fn duration_as_millis(d: &Duration) -> (ms: u128) {
    d.as_millis()
}

impl ToolCall {
    /// A new call of `tool_id` with `input`, under a fresh random call
    /// identifier and stamped with the current time.
    pub fn new(tool_id: String, input: JsonValue) -> (call: Self)
        ensures
            call.tool_id == tool_id,
            call.input == input,
            is_uuid_v4_text(call.call_id@),
            call.timestamp.is_clock_reading(),
    {
        ToolCall { call_id: new_v4_text(), tool_id, input, timestamp: Timestamp::now() }
    }
}

/// The output of a tool that has no implementation yet: the object
/// `{"message": "Tool <id> is not yet implemented", "status": "not_implemented"}`,
/// members in key order.
pub open spec fn is_not_implemented_output(v: JsonValue, tool_id: Seq<char>) -> bool {
    &&& v matches JsonValue::Object(m)
    &&& m@.len() == 2
    &&& m@[0].0@ == "message"@
    &&& m@[0].1 matches JsonValue::Str(text)
    &&& text@ == "Tool "@ + tool_id + " is not yet implemented"@
    &&& m@[1].0@ == "status"@
    &&& m@[1].1 matches JsonValue::Str(status)
    &&& status@ == "not_implemented"@
}

/// Executes tool calls.
pub struct ToolExecutor;

impl ToolExecutor {
    pub fn new() -> (executor: Self) {
        ToolExecutor
    }

    /// Execute a tool call, timing it. This is only called after policy
    /// approval. No tool has an implementation yet: every call succeeds with
    /// an output that says so.
    pub fn execute(&self, call: &ToolCall) -> (result: ToolResult)
        ensures
            result.call_id@ == call.call_id@,
            result.tool_id@ == call.tool_id@,
            is_not_implemented_output(result.output, call.tool_id@),
            result.status == ExecutionStatus::Success,
            result.timestamp.is_clock_reading(),
    {
        let start = instant_now();
        let elapsed = instant_elapsed(&start);
        let millis = duration_as_millis(&elapsed);
        self.finish(call, millis as u64, Timestamp::now())
    }

    /// The result of `call`, which took `duration_ms` milliseconds and ended
    /// at `finished_at`.
    pub fn finish(&self, call: &ToolCall, duration_ms: u64, finished_at: Timestamp) -> (result:
        ToolResult)
        ensures
            result.call_id@ == call.call_id@,
            result.tool_id@ == call.tool_id@,
            is_not_implemented_output(result.output, call.tool_id@),
            result.status == ExecutionStatus::Success,
            result.duration_ms == duration_ms,
            result.timestamp == finished_at,
    {
        ToolResult {
            call_id: call.call_id.clone(),
            tool_id: call.tool_id.clone(),
            output: not_implemented_output(&call.tool_id),
            status: ExecutionStatus::Success,
            duration_ms,
            timestamp: finished_at,
        }
    }
}

/// The output of a tool that has no implementation yet.
fn not_implemented_output(tool_id: &String) -> (v: JsonValue)
    ensures
        is_not_implemented_output(v, tool_id@),
{
    let mut text = String::from_str("Tool ");
    text.append(tool_id.as_str());
    text.append(" is not yet implemented");
    let mut members: Vec<(String, JsonValue)> = Vec::new();
    members.push((String::from_str("message"), JsonValue::Str(text)));
    members.push((String::from_str("status"), JsonValue::Str(String::from_str("not_implemented"))));
    JsonValue::Object(members)
}

} // verus!
