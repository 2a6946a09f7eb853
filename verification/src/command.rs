//! Commands handed to a backend and the results it gives back.
use crate::json::{Json, JsonValue};
use vstd::prelude::*;

verus! {

/// A command for a backend. `id` is the 128-bit value of a UUID.
#[derive(Debug)]
pub struct CommandEnvelope {
    pub id: u128,
    pub issued_at_ms: u64,
    pub domain: String,
    pub action: String,
    pub args: JsonValue,
}

/// What a backend answers to a command.
#[derive(Debug)]
pub struct CommandResult {
    pub id: u128,
    pub success: bool,
    pub message: String,
    pub data: JsonValue,
    pub handled_at_ms: u64,
}

/// Milliseconds since the Unix epoch (`SystemTime::now`), or 0 when the clock
/// stands before the epoch. Nothing is promised of the value: it is the time.
#[verifier::external_body]
pub fn now_ms() -> u64 {
    std::time::SystemTime::now().duration_since(std::time::UNIX_EPOCH).map(
        |d| d.as_millis() as u64,
    ).unwrap_or(0)
}

/// A fresh random (version 4) UUID, as its 128-bit value (`Uuid::new_v4`).
/// Nothing is promised of the value: it is random.
#[verifier::external_body]
fn new_uuid() -> u128 {
    uuid::Uuid::new_v4().as_u128()
}

impl CommandEnvelope {
    /// A command with a fresh id, stamped with the current time.
    pub fn new(domain: &str, action: &str, args: JsonValue) -> (c: CommandEnvelope)
        ensures
            c.domain@ == domain@,
            c.action@ == action@,
            c.args == args,
    {
        CommandEnvelope {
            id: new_uuid(),
            issued_at_ms: now_ms(),
            domain: String::from_str(domain),
            action: String::from_str(action),
            args,
        }
    }

    /// A copy of this command.
    pub fn duplicate(&self) -> (c: CommandEnvelope)
        ensures
            c.id == self.id,
            c.issued_at_ms == self.issued_at_ms,
            c.domain@ == self.domain@,
            c.action@ == self.action@,
            c.args@ == self.args@,
    {
        CommandEnvelope {
            id: self.id,
            issued_at_ms: self.issued_at_ms,
            domain: self.domain.clone(),
            action: self.action.clone(),
            args: self.args.deep_clone(),
        }
    }
}

impl CommandResult {
    /// A successful result without data.
    pub fn ok(id: u128, message: &str) -> (r: CommandResult)
        ensures
            r.id == id,
            r.success,
            r.message@ == message@,
            r.data@ == Json::Null,
    {
        CommandResult {
            id,
            success: true,
            message: String::from_str(message),
            data: JsonValue::Null,
            handled_at_ms: now_ms(),
        }
    }

    /// A successful result carrying data.
    pub fn ok_with_data(id: u128, message: &str, data: JsonValue) -> (r: CommandResult)
        ensures
            r.id == id,
            r.success,
            r.message@ == message@,
            r.data == data,
    {
        CommandResult {
            id,
            success: true,
            message: String::from_str(message),
            data,
            handled_at_ms: now_ms(),
        }
    }
}

} // verus!
