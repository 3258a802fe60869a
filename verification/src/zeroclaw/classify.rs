//! What the outcome of a request means.
use vstd::prelude::*;
use vstd::string::*;
use crate::dispatch;
use crate::http;
use crate::records;
use crate::text;
use crate::zeroclaw::client::{PostResult, ReplyBody};

verus! {

/// The message of a turn that answered nothing.
pub const NO_REPLY: &'static str = "(no reply)";

/// What the outcome of a request means.
#[derive(Debug, PartialEq, Eq)]
pub enum Classified {
    /// The turn answered.
    Completed { message: String },
    /// It did not; whether to dispatch it again may help.
    Failed { message: String, retryable: bool },
}

/// What a [`Classified`] says.
pub enum ClassModel {
    Completed { message: Seq<char> },
    Failed { message: Seq<char>, retryable: bool },
}

impl View for Classified {
    type V = ClassModel;

    open spec fn view(&self) -> ClassModel {
        match self {
            Classified::Completed { message } => ClassModel::Completed { message: message@ },
            Classified::Failed { message, retryable } => ClassModel::Failed {
                message: message@,
                retryable: *retryable,
            },
        }
    }
}

/// Whether a failed request may be made again: a rate limit resets, any other fault of the
/// caller stays, and a fault of the gateway may pass, but for the 503 of one that waits to be
/// set up.
pub open spec fn may_recover(status: u16, detail: Seq<char>) -> bool {
    if status == 429 {
        true
    } else if 400 <= status <= 499 {
        false
    } else {
        !(status == 503 && text::occurs(detail, "needs_quickstart"@))
    }
}

/// What a response means. Every success answered, but for a request that the gateway had
/// taken before: its answer cannot be had again.
pub open spec fn class_of_response(status: u16, body: ReplyBody) -> ClassModel {
    if http::is_success(status) {
        if records::optional_view(body.status) == Some("duplicate"@) {
            ClassModel::Failed {
                message:
                    "the gateway had already processed this idempotency key; the original reply is unrecoverable"@,
                retryable: true,
            }
        } else {
            ClassModel::Completed {
                message: dispatch::present_or(records::optional_view(body.response), NO_REPLY@),
            }
        }
    } else {
        let detail = dispatch::present_or(records::optional_view(body.error), "(no detail)"@);
        ClassModel::Failed {
            message: "zeroclaw webhook returned "@ + text::decimal_digits(status as nat) + ": "@
                + detail,
            retryable: may_recover(status, detail),
        }
    }
}

/// What the outcome of a request means.
pub open spec fn class_of(outcome: PostResult) -> ClassModel {
    match outcome {
        PostResult::Response { status, body } => class_of_response(status, body),
        PostResult::Transport { message } => ClassModel::Failed {
            message: message@ + " (the turn may still have run; its reply is lost)"@,
            retryable: true,
        },
    }
}

fn as_str(value: &Option<String>) -> (text: Option<&str>)
    ensures
        records::optional_str(text) == records::optional_view(*value),
{
    match value {
        Some(value) => Some(value.as_str()),
        None => None,
    }
}

/// What a response means.
fn classify_response(status: u16, body: &ReplyBody) -> (class: Classified)
    ensures
        class@ == class_of_response(status, *body),
{
    if 200 <= status && status < 300 {
        let duplicate = match &body.status {
            Some(marker) => text::same(marker.as_str(), "duplicate"),
            None => false,
        };
        if duplicate {
            return Classified::Failed {
                message:
                    "the gateway had already processed this idempotency key; the original reply is unrecoverable".to_owned(),
                retryable: true,
            };
        }
        return Classified::Completed {
            message: match dispatch::non_empty(as_str(&body.response)) {
                Some(response) => response.to_owned(),
                None => NO_REPLY.to_owned(),
            },
        };
    }
    let detail: &str = match dispatch::non_empty(as_str(&body.error)) {
        Some(error) => error,
        None => "(no detail)",
    };
    let retryable = if status == 429 {
        true
    } else if 400 <= status && status <= 499 {
        false
    } else {
        !(status == 503 && text::contains(detail, "needs_quickstart"))
    };
    let mut message = "zeroclaw webhook returned ".to_owned();
    message.append(text::decimal(status as u64).as_str());
    message.append(": ");
    message.append(detail);
    Classified::Failed { message, retryable }
}

/// What the outcome of a request means.
pub fn classify(outcome: &PostResult) -> (class: Classified)
    ensures
        class@ == class_of(*outcome),
{
    match outcome {
        PostResult::Response { status, body } => classify_response(*status, body),
        PostResult::Transport { message } => {
            let mut text = message.clone();
            text.append(" (the turn may still have run; its reply is lost)");
            Classified::Failed { message: text, retryable: true }
        },
    }
}

/// A turn that answered is told with its reply, as it is; a placeholder stands in only
/// where there is none. A reply that the gateway gave before and cannot give again is a
/// failure worth another try.
pub proof fn replies_are_told_as_they_are(status: u16, body: ReplyBody, reply: Seq<char>)
    requires
        200 <= status < 300,
    ensures
        records::optional_view(body.status) == Some("duplicate"@) ==> class_of(
            PostResult::Response { status, body },
        ) == (ClassModel::Failed {
            message:
                "the gateway had already processed this idempotency key; the original reply is unrecoverable"@,
            retryable: true,
        }),
        records::optional_view(body.status) != Some("duplicate"@) ==> {
            &&& class_of(PostResult::Response { status, body }) is Completed
            &&& records::optional_view(body.response) == Some(reply) && reply.len() > 0
                ==> class_of(PostResult::Response { status, body }) == (ClassModel::Completed {
                message: reply,
            })
            &&& (body.response matches Some(response) ==> response@.len() == 0) ==> class_of(
                PostResult::Response { status, body },
            ) == (ClassModel::Completed { message: "(no reply)"@ })
        },
{
}

/// A request that the gateway refused fails with the status and what went wrong, as it was
/// told. It may be made again where a limit resets or the gateway is at fault, unless that
/// one waits to be set up; a fault of the caller stays.
pub proof fn refusals_tell_status_and_detail(status: u16, body: ReplyBody, detail: Seq<char>)
    requires
        status < 200 || status >= 300,
        detail.len() > 0,
        match body.error {
            Some(error) => if error@.len() > 0 {
                detail == error@
            } else {
                detail == "(no detail)"@
            },
            None => detail == "(no detail)"@,
        },
    ensures
        class_of(PostResult::Response { status, body }) matches ClassModel::Failed {
            message,
            retryable,
        } && {
            &&& message == "zeroclaw webhook returned "@ + text::decimal_digits(status as nat)
                + ": "@ + detail
            &&& status == 429 ==> retryable
            &&& 400 <= status < 500 && status != 429 ==> !retryable
            &&& status == 503 ==> retryable == !text::occurs(detail, "needs_quickstart"@)
            &&& (status < 400 || status >= 500) && status != 503 ==> retryable
        },
{
}

/// A request that did not come through is worth another try, and its failure begins with
/// the reason.
pub proof fn lost_requests_may_be_made_again(message: String)
    ensures
        class_of(PostResult::Transport { message }) matches ClassModel::Failed {
            message: told,
            retryable,
        } && retryable && message@.is_prefix_of(told) && told == message@
            + " (the turn may still have run; its reply is lost)"@,
{
    let told = message@ + " (the turn may still have run; its reply is lost)"@;
    assert(told.subrange(0, message@.len() as int) =~= message@);
}

} // verus!
