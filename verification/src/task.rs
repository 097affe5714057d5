//! The task record: a user-submitted shell command plus the metadata the
//! scheduler tracks to completion.

use vstd::prelude::*;

verus! {

/// Lifecycle position of a task.
#[derive(Clone, Copy, Debug, PartialEq, Eq, Structural)]
pub enum TaskStatus {
    Queued,
    Stashed,
    Running,
    Paused,
    Done,
}

/// Why a task ended; present exactly when the task is `Done`.
#[derive(Clone, Debug, PartialEq, Eq)]
pub enum TaskResult {
    Success,
    Failed(i32),
    FailedToSpawn(String),
    Killed,
    DependencyFailed,
}

/// A persistent task record. Timestamps are wall-clock milliseconds.
#[derive(Debug)]
pub struct Task {
    pub id: usize,
    pub command: String,
    pub path: String,
    pub group: Option<String>,
    pub dependencies: Vec<usize>,
    pub enqueue_at: Option<i64>,
    pub status: TaskStatus,
    pub result: Option<TaskResult>,
    pub start: Option<i64>,
    pub end: Option<i64>,
}

/// A result that counts as a failure for dependency gating and
/// pause-on-failure purposes.
pub open spec fn result_failed(r: TaskResult) -> bool {
    match r {
        TaskResult::Success => false,
        _ => true,
    }
}

/// A well-formed task record: its result is present exactly when it is done,
/// and its timestamps follow its status.
pub open spec fn task_wf(t: Task) -> bool {
    &&& t.result is Some <==> t.status is Done
    &&& t.start is Some ==> t.status is Running || t.status is Paused || t.status is Done
    &&& t.end is Some ==> t.status is Done
}

impl Task {
    /// A fresh record in `Queued` or `Stashed`, as the request path creates it.
    pub fn new(
        id: usize,
        command: String,
        path: String,
        group: Option<String>,
        dependencies: Vec<usize>,
        enqueue_at: Option<i64>,
        stashed: bool,
    ) -> (t: Task)
        ensures
            t.id == id,
            t.command == command,
            t.path == path,
            t.group == group,
            t.dependencies == dependencies,
            t.enqueue_at == enqueue_at,
            t.status == if stashed { TaskStatus::Stashed } else { TaskStatus::Queued },
            t.result is None,
            t.start is None,
            t.end is None,
            task_wf(t),
    {
        Task {
            id,
            command,
            path,
            group,
            dependencies,
            enqueue_at,
            status: if stashed { TaskStatus::Stashed } else { TaskStatus::Queued },
            result: None,
            start: None,
            end: None,
        }
    }

    /// Whether the task has reached a terminal status.
    pub fn is_done(&self) -> (r: bool)
        ensures
            r == (self.status is Done),
    {
        self.status == TaskStatus::Done
    }

    /// Whether the task ended in one of the failure results.
    pub fn failed(&self) -> (r: bool)
        ensures
            r == (self.result matches Some(res) && result_failed(res)),
    {
        match &self.result {
            Some(TaskResult::Success) => false,
            Some(_) => true,
            None => false,
        }
    }
}

/// The canonical rendering of a task result, as handed to callback templates.
pub open spec fn result_str_spec(r: TaskResult) -> Seq<char> {
    match r {
        TaskResult::Success => "Success"@,
        TaskResult::Failed(code) => "Failed("@ + crate::dec_int(code as int) + ")"@,
        TaskResult::FailedToSpawn(msg) => "FailedToSpawn("@ + msg@ + ")"@,
        TaskResult::Killed => "Killed"@,
        TaskResult::DependencyFailed => "DependencyFailed"@,
    }
}

/// Append the decimal rendering of `code` to `out`.
fn push_dec_i32(code: i32, out: &mut Vec<char>)
    ensures
        final(out)@ == old(out)@ + crate::dec_int(code as int),
{
    if code < 0 {
        out.push('-');
        let magnitude: i64 = -(code as i64);
        crate::push_dec_u64(magnitude as u64, out);
        proof {
            assert(out@ =~= old(out)@ + crate::dec_int(code as int));
        }
    } else {
        crate::push_dec_u64(code as u64, out);
    }
}

/// Append every character of `s` to `out`.
fn push_str_chars(s: &str, out: &mut Vec<char>)
    ensures
        final(out)@ == old(out)@ + s@,
{
    let ghost orig = out@;
    let n: usize = s.unicode_len();
    let mut i: usize = 0;
    while i < n
        invariant
            n == s@.len(),
            i <= n,
            out@ == orig + s@.take(i as int),
        decreases n - i,
    {
        let c: char = s.get_char(i);
        out.push(c);
        proof {
            assert(orig + s@.take(i as int + 1) =~= (orig + s@.take(i as int)).push(s@[i as int]));
        }
        i = i + 1;
    }
    proof {
        assert(s@.take(n as int) =~= s@);
    }
}

/// The canonical string form of a result.
pub fn result_str(r: &TaskResult) -> (out: Vec<char>)
    ensures
        out@ == result_str_spec(*r),
{
    let mut v: Vec<char> = Vec::new();
    match r {
        TaskResult::Success => {
            push_str_chars("Success", &mut v);
        },
        TaskResult::Failed(code) => {
            push_str_chars("Failed(", &mut v);
            push_dec_i32(*code, &mut v);
            push_str_chars(")", &mut v);
            proof {
                assert(v@ =~= result_str_spec(*r));
            }
        },
        TaskResult::FailedToSpawn(msg) => {
            push_str_chars("FailedToSpawn(", &mut v);
            push_str_chars(msg.as_str(), &mut v);
            push_str_chars(")", &mut v);
            proof {
                assert(v@ =~= result_str_spec(*r));
            }
        },
        TaskResult::Killed => {
            push_str_chars("Killed", &mut v);
        },
        TaskResult::DependencyFailed => {
            push_str_chars("DependencyFailed", &mut v);
        },
    }
    v
}

}
