//! Cooperative compaction aborts and the reason they carry.
use crate::error::Error;
use crate::error::ErrorView;
use crate::text::chars_of;
use crate::text::find_pattern;
use crate::text::occurs_at;
use crate::text::same_text;
use crate::text::starts_with;
use crate::text::text_of;
use vstd::prelude::*;
use vstd::string::StringExecFns;

verus! {

pub open spec fn abort_prefix() -> Seq<char> {
    "compaction_cooperative_abort:"@
}

/// Reason of an abort that lost the optimistic publication race.
pub open spec fn stale_reason() -> Seq<char> {
    "physical_generation_stale"@
}

pub open spec fn abort_message(reason: Seq<char>, detail: Seq<char>) -> Seq<char> {
    abort_prefix() + reason + ": "@ + detail
}

/// An abort with a machine-readable reason.
pub fn compaction_abort(reason: &str, detail: &str) -> (e: Error)
    ensures
        e@ == ErrorView::Internal(abort_message(reason@, detail@)),
{
    let message: String = String::from_str("compaction_cooperative_abort:").concat(reason).concat(
        ": ",
    ).concat(detail);
    Error::Internal { message }
}

/// The text up to the first colon, or all of it.
pub open spec fn up_to_colon(text: Seq<char>) -> Seq<char>
    decreases text.len(),
{
    if text.len() == 0 || text[0] == ':' {
        Seq::empty()
    } else {
        seq![text[0]] + up_to_colon(text.drop_first())
    }
}

/// `reason` is what follows the first abort prefix in the message, up to the
/// next colon.
pub open spec fn is_abort_reason(message: Seq<char>, reason: Seq<char>) -> bool {
    exists|at: int| #[trigger]
        occurs_at(message, abort_prefix(), at) && (forall|k: int|
            k < at ==> !#[trigger] occurs_at(message, abort_prefix(), k)) && reason == up_to_colon(
            message.skip(at + abort_prefix().len()),
        )
}

pub open spec fn names_an_abort(message: Seq<char>) -> bool {
    exists|at: int| #[trigger] occurs_at(message, abort_prefix(), at)
}

proof fn lemma_up_to_colon(text: Seq<char>, n: int)
    requires
        0 <= n <= text.len(),
        forall|j: int| 0 <= j < n ==> text[j] != ':',
        n < text.len() ==> text[n] == ':',
    ensures
        up_to_colon(text) == text.take(n),
    decreases n,
{
    if n == 0 {
        assert(text.take(0) =~= Seq::empty());
    } else {
        lemma_up_to_colon(text.drop_first(), n - 1);
        assert(text.take(n) =~= seq![text[0]] + text.drop_first().take(n - 1));
    }
}

/// Reason that an error carries, where it is an abort.
pub fn compaction_abort_reason(error: &Error) -> (r: Option<String>)
    ensures
        match error@ {
            ErrorView::Internal(message) => {
                &&& r is Some <==> names_an_abort(message)
                &&& r matches Some(reason) ==> is_abort_reason(message, reason@)
            },
            _ => r is None,
        },
{
    match error {
        Error::Internal { message } => {
            let chars: Vec<char> = chars_of(message.as_str());
            let prefix: Vec<char> = chars_of("compaction_cooperative_abort:");
            match find_pattern(&chars, &prefix) {
                None => None,
                Some(at) => {
                    assert(at + prefix@.len() <= chars.len());
                    let start: usize = at + prefix.len();
                    let mut end: usize = start;
                    while end < chars.len() && chars[end] != ':'
                        invariant
                            start <= end <= chars@.len(),
                            forall|j: int| start <= j < end ==> chars@[j] != ':',
                        decreases chars@.len() - end,
                    {
                        end = end + 1;
                    }
                    proof {
                        lemma_up_to_colon(chars@.skip(start as int), end - start);
                        assert(chars@.skip(start as int).take(end - start) =~= chars@.subrange(
                            start as int,
                            end as int,
                        ));
                        assert(occurs_at(message@, abort_prefix(), at as int));
                        assert(message@.skip(at + abort_prefix().len()) == chars@.skip(
                            start as int,
                        ));
                    }
                    Some(text_of(&chars, start, end))
                },
            }
        },
        _ => None,
    }
}

/// The reason given to an abort is the reason read back from it.
pub proof fn law_abort_reason_round_trip(reason: Seq<char>, detail: Seq<char>)
    requires
        forall|i: int| 0 <= i < reason.len() ==> reason[i] != ':',
    ensures
        names_an_abort(abort_message(reason, detail)),
        forall|read: Seq<char>| #[trigger]
            is_abort_reason(abort_message(reason, detail), read) <==> read == reason,
{
    let message = abort_message(reason, detail);
    let p = abort_prefix().len() as int;
    reveal_strlit(": ");
    assert(message.subrange(0, p) =~= abort_prefix());
    assert(occurs_at(message, abort_prefix(), 0));
    let rest = message.skip(p);
    assert(rest =~= reason + ": "@ + detail);
    lemma_up_to_colon(rest, reason.len() as int);
    assert(rest.take(reason.len() as int) =~= reason);
    assert forall|read: Seq<char>| #[trigger] is_abort_reason(message, read) <==> read
        == reason by {
        if is_abort_reason(message, read) {
            let at = choose|at: int| #[trigger]
                occurs_at(message, abort_prefix(), at) && (forall|k: int|
                    k < at ==> !#[trigger] occurs_at(message, abort_prefix(), k)) && read
                    == up_to_colon(message.skip(at + abort_prefix().len()));
            assert(at == 0);
        }
        if read == reason {
            assert(forall|k: int| k < 0 ==> !#[trigger] occurs_at(message, abort_prefix(), k));
        }
    }
}

/// The error is an abort that lost the publication race.
pub open spec fn is_stale(error: ErrorView) -> bool {
    match error {
        ErrorView::Internal(message) => is_abort_reason(message, stale_reason()),
        _ => false,
    }
}

/// A message has at most one abort reason.
proof fn lemma_abort_reason_unique(message: Seq<char>, a: Seq<char>, b: Seq<char>)
    requires
        is_abort_reason(message, a),
        is_abort_reason(message, b),
    ensures
        a == b,
{
}

pub fn compaction_publication_is_stale(error: &Error) -> (r: bool)
    ensures
        r == is_stale(error@),
{
    match compaction_abort_reason(error) {
        None => false,
        Some(reason) => {
            proof {
                if let ErrorView::Internal(message) = error@ {
                    if is_abort_reason(message, stale_reason()) {
                        lemma_abort_reason_unique(message, reason@, stale_reason());
                    }
                }
            }
            same_text(reason.as_str(), "physical_generation_stale")
        },
    }
}

/// Output exceeded what one artifact can hold; a smaller row range may fit.
pub open spec fn is_capacity_error(error: ErrorView) -> bool {
    match error {
        ErrorView::Internal(message) => {
            ||| "physical generation publication failed: V6 data artifact "@.is_prefix_of(message)
            ||| "physical generation publication failed: V6 index artifact "@.is_prefix_of(message)
        },
        _ => false,
    }
}

pub fn is_artifact_adaptive_capacity_error(error: &Error) -> (r: bool)
    ensures
        r == is_capacity_error(error@),
{
    match error {
        Error::Internal { message } => starts_with(
            message.as_str(),
            "physical generation publication failed: V6 data artifact ",
        ) || starts_with(
            message.as_str(),
            "physical generation publication failed: V6 index artifact ",
        ),
        _ => false,
    }
}

} // verus!
