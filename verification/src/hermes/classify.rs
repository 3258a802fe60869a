//! What a run's status means.
use vstd::prelude::*;
use vstd::string::*;
use crate::dispatch;
use crate::records;
use crate::text;

verus! {

/// The message of a completed run without output.
pub const NO_OUTPUT: &'static str = "(no output)";

/// The message of a failed run that tells nothing.
pub const FAILED_FALLBACK: &'static str = "run failed";

/// What one look at a run means.
#[derive(Debug, PartialEq, Eq)]
pub enum Classified {
    /// It answered.
    Completed { message: String },
    /// It failed.
    Failed { message: String },
    /// It was cancelled from elsewhere; to dispatch it again makes sense.
    Cancelled,
    /// It goes on.
    InFlight { status: String },
}

/// What a [`Classified`] says.
pub enum ClassModel {
    Completed { message: Seq<char> },
    Failed { message: Seq<char> },
    Cancelled,
    InFlight { status: Seq<char> },
}

impl View for Classified {
    type V = ClassModel;

    open spec fn view(&self) -> ClassModel {
        match self {
            Classified::Completed { message } => ClassModel::Completed { message: message@ },
            Classified::Failed { message } => ClassModel::Failed { message: message@ },
            Classified::Cancelled => ClassModel::Cancelled,
            Classified::InFlight { status } => ClassModel::InFlight { status: status@ },
        }
    }
}

/// What a run's status, output and error mean. A status that is not known is in flight, so
/// a gateway may add one.
pub open spec fn class_of(
    status: Seq<char>,
    output: Option<Seq<char>>,
    error: Option<Seq<char>>,
) -> ClassModel {
    if status == "completed"@ {
        ClassModel::Completed { message: dispatch::present_or(output, NO_OUTPUT@) }
    } else if status == "failed"@ {
        ClassModel::Failed {
            message: dispatch::present_or(error, dispatch::present_or(output, FAILED_FALLBACK@)),
        }
    } else if status == "cancelled"@ {
        ClassModel::Cancelled
    } else {
        ClassModel::InFlight { status }
    }
}

/// What a run's status, output and error mean.
pub fn classify(status: &str, output: Option<&str>, error: Option<&str>) -> (class: Classified)
    ensures
        class@ == class_of(status@, records::optional_str(output), records::optional_str(error)),
{
    if text::same(status, "completed") {
        Classified::Completed {
            message: match dispatch::non_empty(output) {
                Some(output) => output.to_owned(),
                None => NO_OUTPUT.to_owned(),
            },
        }
    } else if text::same(status, "failed") {
        Classified::Failed {
            message: match (dispatch::non_empty(error), dispatch::non_empty(output)) {
                (Some(error), _) => error.to_owned(),
                (None, Some(output)) => output.to_owned(),
                (None, None) => FAILED_FALLBACK.to_owned(),
            },
        }
    } else if text::same(status, "cancelled") {
        Classified::Cancelled
    } else {
        Classified::InFlight { status: status.to_owned() }
    }
}

/// The names of the ways a run stands are told apart.
proof fn lemma_status_names_differ()
    ensures
        "completed"@ != "failed"@,
        "completed"@ != "cancelled"@,
        "failed"@ != "cancelled"@,
{
    reveal_strlit("completed");
    assert("completed"@.len() == 9);
    reveal_strlit("failed");
    assert("failed"@.len() == 6);
    reveal_strlit("cancelled");
    assert("cancelled"@.len() == 9);
    assert("completed"@[1] != "cancelled"@[1]);
}

/// A run that answered is told with its output, one that failed with its error, or its
/// output where it tells no error, as they are; a placeholder stands in only where there
/// is neither. Every other status is one under way and told by its own name.
pub proof fn a_run_is_told_in_its_own_words(
    status: Seq<char>,
    output: Option<Seq<char>>,
    error: Option<Seq<char>>,
    text: Seq<char>,
)
    requires
        text.len() > 0,
    ensures
        class_of("completed"@, Some(text), error) == (ClassModel::Completed { message: text }),
        class_of("completed"@, None, error) == (ClassModel::Completed {
            message: "(no output)"@,
        }),
        class_of("completed"@, Some(Seq::empty()), error) == (ClassModel::Completed {
            message: "(no output)"@,
        }),
        class_of("failed"@, output, Some(text)) == (ClassModel::Failed { message: text }),
        class_of("failed"@, Some(text), None) == (ClassModel::Failed { message: text }),
        class_of("failed"@, Some(text), Some(Seq::empty())) == (ClassModel::Failed {
            message: text,
        }),
        class_of("failed"@, None, None) == (ClassModel::Failed { message: "run failed"@ }),
        class_of("cancelled"@, output, error) is Cancelled,
        status != "completed"@ && status != "failed"@ && status != "cancelled"@ ==> class_of(
            status,
            output,
            error,
        ) == (ClassModel::InFlight { status }),
{
    lemma_status_names_differ();
}

} // verus!
