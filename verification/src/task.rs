use vstd::prelude::*;
use crate::body::BodyOutput;
use crate::buf::hyper_buf;
use crate::error::hyper_error;
use crate::http_types::hyper_response;

verus! {

/// The kind of value that a finished task holds.
#[derive(Clone, Copy, Debug, PartialEq, Eq, Structural)]
pub enum hyper_task_return_type {
    /// The task finished with nothing to hand over.
    HYPER_TASK_EMPTY,
    /// The task failed; it holds an error.
    HYPER_TASK_ERROR,
    /// The task holds a buffer of body data.
    HYPER_TASK_BUF,
    /// The task holds a response.
    HYPER_TASK_RESPONSE,
}

/// What a finished task holds: one of a closed set of values, told apart
/// by a tag.
pub enum TaskOutput {
    /// Nothing.
    Empty,
    /// The failure that ended the task.
    Error(hyper_error),
    /// A buffer of body data.
    Buf(hyper_buf),
    /// A response.
    Response(hyper_response),
}

impl TaskOutput {
    /// The tag that goes with the value.
    pub open spec fn tag(&self) -> hyper_task_return_type {
        match self {
            TaskOutput::Empty => hyper_task_return_type::HYPER_TASK_EMPTY,
            TaskOutput::Error(_) => hyper_task_return_type::HYPER_TASK_ERROR,
            TaskOutput::Buf(_) => hyper_task_return_type::HYPER_TASK_BUF,
            TaskOutput::Response(_) => hyper_task_return_type::HYPER_TASK_RESPONSE,
        }
    }

    /// The tag to look at before the value is taken out.
    pub fn as_task_type(&self) -> (r: hyper_task_return_type)
        ensures
            r == self.tag(),
    {
        match self {
            TaskOutput::Empty => hyper_task_return_type::HYPER_TASK_EMPTY,
            TaskOutput::Error(_) => hyper_task_return_type::HYPER_TASK_ERROR,
            TaskOutput::Buf(_) => hyper_task_return_type::HYPER_TASK_BUF,
            TaskOutput::Response(_) => hyper_task_return_type::HYPER_TASK_RESPONSE,
        }
    }

    /// The output of a task that read a body.
    pub fn from_body(output: BodyOutput) -> (r: TaskOutput)
        ensures
            r == match output {
                BodyOutput::Buf(buf) => TaskOutput::Buf(buf),
                BodyOutput::Empty => TaskOutput::Empty,
                BodyOutput::Error(error) => TaskOutput::Error(error),
            },
    {
        match output {
            BodyOutput::Buf(buf) => TaskOutput::Buf(buf),
            BodyOutput::Empty => TaskOutput::Empty,
            BodyOutput::Error(error) => TaskOutput::Error(error),
        }
    }

    /// The buffer, exactly where the tag is `HYPER_TASK_BUF`.
    pub fn into_buf(self) -> (r: Option<hyper_buf>)
        ensures
            r.is_some() == (self.tag() == hyper_task_return_type::HYPER_TASK_BUF),
            r matches Some(buf) ==> self == TaskOutput::Buf(buf),
    {
        match self {
            TaskOutput::Buf(buf) => Some(buf),
            _ => None,
        }
    }

    /// The error, exactly where the tag is `HYPER_TASK_ERROR`.
    pub fn into_error(self) -> (r: Option<hyper_error>)
        ensures
            r.is_some() == (self.tag() == hyper_task_return_type::HYPER_TASK_ERROR),
            r matches Some(error) ==> self == TaskOutput::Error(error),
    {
        match self {
            TaskOutput::Error(error) => Some(error),
            _ => None,
        }
    }

    /// The response, exactly where the tag is `HYPER_TASK_RESPONSE`.
    pub fn into_response(self) -> (r: Option<hyper_response>)
        ensures
            r.is_some() == (self.tag() == hyper_task_return_type::HYPER_TASK_RESPONSE),
            r matches Some(response) ==> self == TaskOutput::Response(response),
    {
        match self {
            TaskOutput::Response(response) => Some(response),
            _ => None,
        }
    }
}

/// The result side of a task: nothing while the work runs, then the output
/// of the work until the caller takes it out.
pub struct TaskResult {
    output: Option<TaskOutput>,
}

impl TaskResult {
    /// The output that waits to be taken, if any.
    pub closed spec fn output(&self) -> Option<TaskOutput> {
        self.output
    }

    /// The tag that a caller sees: that of the output, and
    /// `HYPER_TASK_EMPTY` where there is none.
    pub open spec fn tag(&self) -> hyper_task_return_type {
        match self.output() {
            Some(output) => output.tag(),
            None => hyper_task_return_type::HYPER_TASK_EMPTY,
        }
    }

    /// The result of a task whose work still runs.
    pub fn pending() -> (r: TaskResult)
        ensures
            r.output() is None,
    {
        TaskResult { output: None }
    }

    /// Keeps the output of the finished work for the caller.
    pub fn complete(&mut self, output: TaskOutput)
        ensures
            final(self).output() == Some(output),
    {
        self.output = Some(output);
    }

    /// The tag to look at before the value is taken out.
    pub fn task_type(&self) -> (r: hyper_task_return_type)
        ensures
            r == self.tag(),
    {
        match &self.output {
            Some(output) => output.as_task_type(),
            None => hyper_task_return_type::HYPER_TASK_EMPTY,
        }
    }

    /// Hands the output to the caller; nothing is left behind.
    pub fn take(&mut self) -> (r: Option<TaskOutput>)
        ensures
            r == old(self).output(),
            final(self).output() is None,
    {
        self.output.take()
    }
}

} // verus!
