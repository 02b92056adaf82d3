//! The normalized event vocabulary of a runtime: exactly eight events.
//! Tool names stay opaque text, and a tool failure is a completion with
//! status `Failed`, not an event of its own.

use vstd::prelude::*;
use crate::runtime::types::{RuntimeHandle, Status, TaskId};
use crate::text::copy_opt_string;

verus! {

#[derive(Debug, Clone, Copy, PartialEq, Eq, Structural)]
pub enum OutputKind {
    Text,
    Reasoning,
    ToolCall,
    ToolResult,
}

#[derive(Debug, Clone, Copy, PartialEq, Eq, Structural)]
pub enum ToolStatus {
    /// The tool call finished successfully.
    Succeeded,
    Failed,
}

#[derive(Debug, Clone, PartialEq, Eq)]
pub enum Event {
    RuntimeStarted { handle: RuntimeHandle, pid: Option<u32>, cwd: Option<String> },
    RuntimeStopped { handle: RuntimeHandle, exit_code: Option<i32>, reason: Option<String> },
    TaskBound { handle: RuntimeHandle, task_id: TaskId, origin: Option<String> },
    OutputChunk {
        handle: RuntimeHandle,
        task_id: Option<TaskId>,
        output_kind: OutputKind,
        content: String,
    },
    ToolStarted { handle: RuntimeHandle, task_id: Option<TaskId>, tool_name: String },
    ToolCompleted {
        handle: RuntimeHandle,
        task_id: Option<TaskId>,
        tool_name: String,
        status: ToolStatus,
        result_ref: Option<String>,
    },
    StatusChanged { handle: RuntimeHandle, status: Status },
    Error { handle: RuntimeHandle, message: String, retryable: Option<bool> },
}

/// The value of an event: every text by its characters.
pub enum EventV {
    RuntimeStarted { handle: Seq<char>, pid: Option<u32>, cwd: Option<Seq<char>> },
    RuntimeStopped { handle: Seq<char>, exit_code: Option<i32>, reason: Option<Seq<char>> },
    TaskBound { handle: Seq<char>, task_id: Seq<char>, origin: Option<Seq<char>> },
    OutputChunk {
        handle: Seq<char>,
        task_id: Option<Seq<char>>,
        output_kind: OutputKind,
        content: Seq<char>,
    },
    ToolStarted { handle: Seq<char>, task_id: Option<Seq<char>>, tool_name: Seq<char> },
    ToolCompleted {
        handle: Seq<char>,
        task_id: Option<Seq<char>>,
        tool_name: Seq<char>,
        status: ToolStatus,
        result_ref: Option<Seq<char>>,
    },
    StatusChanged { handle: Seq<char>, status: Status },
    Error { handle: Seq<char>, message: Seq<char>, retryable: Option<bool> },
}

pub open spec fn ostr(s: Option<String>) -> Option<Seq<char>> {
    match s {
        Some(t) => Some(t@),
        None => None,
    }
}

pub open spec fn otask(t: Option<TaskId>) -> Option<Seq<char>> {
    match t {
        Some(x) => Some(x@),
        None => None,
    }
}

impl View for Event {
    type V = EventV;

    open spec fn view(&self) -> EventV {
        match self {
            Event::RuntimeStarted { handle, pid, cwd } => EventV::RuntimeStarted {
                handle: handle@,
                pid: *pid,
                cwd: ostr(*cwd),
            },
            Event::RuntimeStopped { handle, exit_code, reason } => EventV::RuntimeStopped {
                handle: handle@,
                exit_code: *exit_code,
                reason: ostr(*reason),
            },
            Event::TaskBound { handle, task_id, origin } => EventV::TaskBound {
                handle: handle@,
                task_id: task_id@,
                origin: ostr(*origin),
            },
            Event::OutputChunk { handle, task_id, output_kind, content } => EventV::OutputChunk {
                handle: handle@,
                task_id: otask(*task_id),
                output_kind: *output_kind,
                content: content@,
            },
            Event::ToolStarted { handle, task_id, tool_name } => EventV::ToolStarted {
                handle: handle@,
                task_id: otask(*task_id),
                tool_name: tool_name@,
            },
            Event::ToolCompleted { handle, task_id, tool_name, status, result_ref } =>
                EventV::ToolCompleted {
                handle: handle@,
                task_id: otask(*task_id),
                tool_name: tool_name@,
                status: *status,
                result_ref: ostr(*result_ref),
            },
            Event::StatusChanged { handle, status } => EventV::StatusChanged {
                handle: handle@,
                status: *status,
            },
            Event::Error { handle, message, retryable } => EventV::Error {
                handle: handle@,
                message: message@,
                retryable: *retryable,
            },
        }
    }
}

pub open spec fn events_view(v: Seq<Event>) -> Seq<EventV> {
    v.map_values(|e: Event| e@)
}

fn copy_task(t: &Option<TaskId>) -> (r: Option<TaskId>)
    ensures
        otask(r) == otask(*t),
{
    match t {
        Some(x) => Some(x.duplicate()),
        None => None,
    }
}

impl Event {
    /// An event with the same content.
    pub fn duplicate(&self) -> (r: Event)
        ensures
            r@ == self@,
    {
        match self {
            Event::RuntimeStarted { handle, pid, cwd } => Event::RuntimeStarted {
                handle: handle.duplicate(),
                pid: *pid,
                cwd: copy_opt_string(cwd),
            },
            Event::RuntimeStopped { handle, exit_code, reason } => Event::RuntimeStopped {
                handle: handle.duplicate(),
                exit_code: *exit_code,
                reason: copy_opt_string(reason),
            },
            Event::TaskBound { handle, task_id, origin } => Event::TaskBound {
                handle: handle.duplicate(),
                task_id: task_id.duplicate(),
                origin: copy_opt_string(origin),
            },
            Event::OutputChunk { handle, task_id, output_kind, content } => Event::OutputChunk {
                handle: handle.duplicate(),
                task_id: copy_task(task_id),
                output_kind: *output_kind,
                content: content.clone(),
            },
            Event::ToolStarted { handle, task_id, tool_name } => Event::ToolStarted {
                handle: handle.duplicate(),
                task_id: copy_task(task_id),
                tool_name: tool_name.clone(),
            },
            Event::ToolCompleted { handle, task_id, tool_name, status, result_ref } =>
                Event::ToolCompleted {
                handle: handle.duplicate(),
                task_id: copy_task(task_id),
                tool_name: tool_name.clone(),
                status: *status,
                result_ref: copy_opt_string(result_ref),
            },
            Event::StatusChanged { handle, status } => Event::StatusChanged {
                handle: handle.duplicate(),
                status: *status,
            },
            Event::Error { handle, message, retryable } => Event::Error {
                handle: handle.duplicate(),
                message: message.clone(),
                retryable: *retryable,
            },
        }
    }
}

/// A list of events with the same content, in the same order.
pub fn copy_events(v: &Vec<Event>) -> (r: Vec<Event>)
    ensures
        events_view(r@) == events_view(v@),
{
    let mut r: Vec<Event> = Vec::new();
    for i in 0..v.len()
        invariant
            r@.len() == i,
            forall|j: int| 0 <= j < i ==> (#[trigger] r@[j])@ == v@[j]@,
    {
        r.push(v[i].duplicate());
    }
    assert(events_view(r@) =~= events_view(v@));
    r
}

} // verus!
