//! The background tasks that a sender depends on: the first that ends ends them
//! all.
use vstd::prelude::*;
use vstd::string::StringExecFns;

verus! {

/// How a task ended.
#[derive(Debug, Clone, Copy)]
pub enum TaskEnd<'a> {
    /// It came to its end.
    Finished,
    /// It failed, and the text says how.
    Failed(&'a str),
}

/// What is to be logged, and how loud.
#[derive(Debug, Clone)]
pub enum Report {
    Warn(String),
    Error(String),
}

/// The name of a task, where it has one.
pub open spec fn task_name(names: Seq<&'static str>, index: int) -> Seq<char> {
    if 0 <= index < names.len() {
        names[index]@
    } else {
        "unknown"@
    }
}

/// The names of a sender's background tasks, in the order in which they are
/// watched.
pub fn dependency_names() -> (names: Vec<&'static str>)
    ensures
        names@ == seq![
            "tpu-info-service",
            "managed-leader-schedule",
            "stake-info-service",
            "slot-tracker",
        ],
{
    let mut names: Vec<&'static str> = Vec::new();
    names.push("tpu-info-service");
    names.push("managed-leader-schedule");
    names.push("stake-info-service");
    names.push("slot-tracker");
    names
}

/// What to report when task `index` has ended: a failure is an error, and even
/// a task that came to its end is worth a warning.
pub fn task_report(names: &[&'static str], index: usize, end: TaskEnd<'_>) -> (report: Report)
    ensures
        match end {
            TaskEnd::Failed(reason) => {
                &&& report matches Report::Error(text)
                &&& text@ == "Yellowstone TPU sender dependency task '"@ + task_name(
                    names@,
                    index as int,
                ) + "' has failed with "@ + reason@
            },
            TaskEnd::Finished => {
                &&& report matches Report::Warn(text)
                &&& text@ == "Yellowstone TPU sender dependency task '"@ + task_name(
                    names@,
                    index as int,
                ) + "' has finished"@
            },
        },
{
    let name: &'static str = if index < names.len() {
        names[index]
    } else {
        "unknown"
    };
    let named = String::from_str("Yellowstone TPU sender dependency task '").concat(name);
    match end {
        TaskEnd::Failed(reason) => Report::Error(
            named.concat("' has failed with ").concat(reason),
        ),
        TaskEnd::Finished => Report::Warn(named.concat("' has finished")),
    }
}

/// A task goes by its own name, and one without a name is unknown.
pub proof fn law_task_goes_by_its_name(names: Seq<&'static str>, index: int)
    ensures
        0 <= index < names.len() ==> task_name(names, index) == names[index]@,
        index >= names.len() ==> task_name(names, index) == "unknown"@,
{
}

} // verus!
