//! How much of a context window may be used, and when the context no longer fits.
use crate::message::{projected_models, ProjectedMessage, ProjectedModel};
use crate::run::{ContextUsageAnchor, PreparedRun, RunModel};
use crate::text::{
    ascii_lowercase, contains, decimal, decimal_digits_stand_for_the_number, decimal_text,
    lowercase, number_of, occurring_is_standing_between, occurs, occurs_at,
};
use crate::tokens::{
    context_estimate, estimate_context_tokens, estimate_projected_messages_tokens,
    messages_estimate, messages_tokens, prompt_tokens, reported, tokens_add_up,
};
use vstd::prelude::*;
use vstd::slice::slice_subrange;

verus! {

/// Fraction of the context window kept free, as a divisor: a tenth of it.
///
/// The estimate runs behind the provider: the anchor is what the provider charged for the
/// previous call, and the next request sends its context again and carries overhead of the
/// provider's own that the messages do not show. A reserve in proportion to the window absorbs
/// that drift and grows with the model.
pub const CONTEXT_RESERVE_DIVISOR: u64 = 10;

/// Tokens kept free for what the provider writes.
pub const OUTPUT_TOKENS: u64 = 4_096;

/// The usable part of a context window: the window without its reserve.
pub open spec fn budget_of(context_window: u64) -> u64 {
    (context_window - context_window / CONTEXT_RESERVE_DIVISOR) as u64
}

/// The budget of a run, where its model's window is known.
pub open spec fn run_budget(run: RunModel) -> Option<u64> {
    match run.context_window {
        Some(window) => Some(budget_of(window)),
        None => None,
    }
}

/// The estimate for a run's next request. Where an anchor covers the first messages, it stands
/// for the prompt and those messages; otherwise everything is estimated.
pub open spec fn request_estimate(
    run: RunModel,
    messages: Seq<ProjectedModel>,
    anchor: Option<ContextUsageAnchor>,
) -> u64 {
    match anchor {
        Some(anchor) if anchor.message_count <= messages.len() => reported(
            (anchor.context_input_tokens + messages_estimate(
                messages.skip(anchor.message_count as int),
            )) as nat,
        ),
        _ => context_estimate(run.prompt, messages),
    }
}

/// The estimate of a request that is over its budget.
pub open spec fn over_budget(
    run: RunModel,
    messages: Seq<ProjectedModel>,
    anchor: Option<ContextUsageAnchor>,
) -> Option<u64> {
    match run_budget(run) {
        Some(budget) if request_estimate(run, messages, anchor) > budget => Some(
            request_estimate(run, messages, anchor),
        ),
        _ => None,
    }
}

/// What is said of a compacted context that is still over its budget.
pub open spec fn overflow_report(estimated: u64, budget: u64) -> Seq<char> {
    "context overflow after compaction: estimated input "@ + decimal(estimated as nat)
        + " tokens exceeds budget "@ + decimal(budget as nat) + " tokens"@
}

/// Whether a provider's message says that the prompt did not fit.
pub open spec fn reports_overflow(message: Seq<char>) -> bool {
    let lowered = ascii_lowercase(message);
    ||| occurs(lowered, "prompt is too long"@)
    ||| occurs(lowered, "context window exceeded"@)
    ||| occurs(lowered, "model_context_window_exceeded"@)
    ||| occurs(lowered, "context_length_exceeded"@)
    ||| occurs(lowered, "maximum context length"@) && occurs(lowered, "token"@)
}

/// Usable prompt budget: the window minus the proportional reserve.
pub fn context_budget(context_window: u64) -> (budget: u64)
    ensures
        budget == budget_of(context_window),
{
    context_window.saturating_sub(context_window / CONTEXT_RESERVE_DIVISOR)
}

/// The budget of a run, where its model's window is known.
pub fn input_budget(prepared: &PreparedRun) -> (budget: Option<u64>)
    ensures
        budget == run_budget(prepared@),
{
    match prepared.model.context_window_tokens {
        Some(window) => Some(context_budget(window)),
        None => None,
    }
}

/// Whether a provider failure means the prompt did not fit.
///
/// Providers report this in prose, with nothing structured to match on: some say "prompt is too
/// long", others `context_length_exceeded` or "maximum context length".
pub fn is_context_overflow(message: &str) -> (overflow: bool)
    ensures
        overflow == reports_overflow(message@),
{
    let lowered = lowercase(message);
    contains(&lowered, "prompt is too long") || contains(&lowered, "context window exceeded")
        || contains(&lowered, "model_context_window_exceeded") || contains(
        &lowered,
        "context_length_exceeded",
    ) || (contains(&lowered, "maximum context length") && contains(&lowered, "token"))
}

/// Estimates a run's next request. Messages that the anchor covers are not estimated again; an
/// anchor that covers more messages than there are is ignored.
pub fn estimated_tokens(
    prepared: &PreparedRun,
    projected_messages: &[ProjectedMessage],
    anchor: Option<ContextUsageAnchor>,
) -> (estimated: u64)
    ensures
        estimated == request_estimate(prepared@, projected_models(projected_messages@), anchor),
{
    if let Some(anchor) = anchor {
        if anchor.message_count <= projected_messages.len() {
            let added = slice_subrange(
                projected_messages,
                anchor.message_count,
                projected_messages.len(),
            );
            proof {
                assert(projected_models(added@) =~= projected_models(projected_messages@).skip(
                    anchor.message_count as int,
                ));
            }
            return anchor.context_input_tokens.saturating_add(
                estimate_projected_messages_tokens(added),
            );
        }
    }
    estimate_context_tokens(&prepared.prompt, projected_messages)
}

/// The estimate of a request that has to be compacted first; none where it fits its budget, or
/// where the window is not known.
pub fn compaction_estimate(
    prepared: &PreparedRun,
    projected_messages: &[ProjectedMessage],
    anchor: Option<ContextUsageAnchor>,
) -> (estimated: Option<u64>)
    ensures
        estimated == over_budget(prepared@, projected_models(projected_messages@), anchor),
{
    let budget: u64 = match input_budget(prepared) {
        Some(budget) => budget,
        None => return None,
    };
    let estimated: u64 = estimated_tokens(prepared, projected_messages, anchor);
    if estimated > budget {
        Some(estimated)
    } else {
        None
    }
}

/// Whether a request has to be compacted first.
pub fn should_compact(
    prepared: &PreparedRun,
    projected_messages: &[ProjectedMessage],
    anchor: Option<ContextUsageAnchor>,
) -> (compact: bool)
    ensures
        compact == (over_budget(prepared@, projected_models(projected_messages@), anchor) is Some),
{
    compaction_estimate(prepared, projected_messages, anchor).is_some()
}

/// Checks a compacted context against the budget that made it necessary, and gives its estimate.
pub fn validate_compacted(
    prepared: &PreparedRun,
    projected_messages: &[ProjectedMessage],
) -> (estimated: Result<u64, String>)
    ensures
        ({
            let estimate = context_estimate(
                prepared@.prompt,
                projected_models(projected_messages@),
            );
            match run_budget(prepared@) {
                Some(budget) if estimate > budget => estimated matches Err(report) && report@
                    == overflow_report(estimate, budget),
                _ => estimated == Ok::<u64, String>(estimate),
            }
        }),
        estimated is Ok <==> over_budget(
            prepared@,
            projected_models(projected_messages@),
            None,
        ) is None,
{
    let estimated: u64 = estimate_context_tokens(&prepared.prompt, projected_messages);
    let budget: u64 = match input_budget(prepared) {
        Some(budget) => budget,
        None => return Ok(estimated),
    };
    if estimated <= budget {
        return Ok(estimated);
    }
    let mut report = "context overflow after compaction: estimated input ".to_owned();
    report.append(decimal_text(estimated).as_str());
    report.append(" tokens exceeds budget ");
    report.append(decimal_text(budget).as_str());
    report.append(" tokens");
    Err(report)
}

/// The reserve is the tenth part of the window, rounded down, whatever the window; a larger
/// window never has a smaller budget.
pub proof fn reserve_scales_with_the_window(small: u64, large: u64)
    requires
        small <= large,
    ensures
        budget_of(small) <= small,
        10 * (small - budget_of(small)) <= small < 10 * (small - budget_of(small)) + 10,
        budget_of(small) <= budget_of(large),
{
}

/// A compacted context is accepted exactly when the check that starts a compaction would not
/// start one for it.
pub proof fn validation_uses_the_same_budget(run: RunModel, messages: Seq<ProjectedModel>)
    ensures
        over_budget(run, messages, None) is None <==> (run_budget(run) matches Some(budget)
            ==> context_estimate(run.prompt, messages) <= budget),
{
}

/// Whether a request has to be compacted depends on the window, the prompt, the messages and the
/// anchor alone: runs that start and runs that resume are treated alike.
pub proof fn every_action_is_treated_alike(
    first: PreparedRun,
    second: PreparedRun,
    messages: Seq<ProjectedModel>,
    anchor: Option<ContextUsageAnchor>,
)
    requires
        first.model.context_window_tokens == second.model.context_window_tokens,
        first.prompt@ == second.prompt@,
    ensures
        over_budget(first@, messages, anchor) == over_budget(second@, messages, anchor),
{
}

/// Where the provider charged for the first messages what they were estimated at, the anchored
/// estimate is the estimate of everything.
pub proof fn exact_anchor_gives_the_full_estimate(
    run: RunModel,
    messages: Seq<ProjectedModel>,
    anchor: ContextUsageAnchor,
)
    requires
        anchor.message_count <= messages.len(),
        anchor.context_input_tokens == context_estimate(
            run.prompt,
            messages.take(anchor.message_count as int),
        ),
    ensures
        request_estimate(run, messages, Some(anchor)) == request_estimate(run, messages, None),
{
    let count = anchor.message_count as int;
    assert(messages =~= messages.take(count) + messages.skip(count));
    tokens_add_up(messages.take(count), messages.skip(count));
}

/// An anchored estimate depends on the messages after the anchor alone, and is never less than
/// what the provider charged.
pub proof fn anchored_messages_are_not_estimated_again(
    first: RunModel,
    second: RunModel,
    old_messages: Seq<ProjectedModel>,
    other_messages: Seq<ProjectedModel>,
    new_messages: Seq<ProjectedModel>,
    anchor: ContextUsageAnchor,
)
    requires
        anchor.message_count == old_messages.len(),
        old_messages.len() == other_messages.len(),
    ensures
        request_estimate(first, old_messages + new_messages, Some(anchor)) == request_estimate(
            second,
            other_messages + new_messages,
            Some(anchor),
        ),
        anchor.context_input_tokens <= request_estimate(
            first,
            old_messages + new_messages,
            Some(anchor),
        ),
{
    assert((old_messages + new_messages).skip(anchor.message_count as int) =~= new_messages);
    assert((other_messages + new_messages).skip(anchor.message_count as int) =~= new_messages);
}

/// The case of a provider's message does not matter.
pub proof fn overflow_is_recognized_in_any_case(first: Seq<char>, second: Seq<char>)
    requires
        ascii_lowercase(first) == ascii_lowercase(second),
    ensures
        reports_overflow(first) == reports_overflow(second),
        reports_overflow(ascii_lowercase(first)) == reports_overflow(first),
{
    assert(ascii_lowercase(ascii_lowercase(first)) =~= ascii_lowercase(first));
}

/// An overflow is recognized inside any longer message.
pub proof fn overflow_is_recognized_inside_other_text(
    before: Seq<char>,
    message: Seq<char>,
    after: Seq<char>,
)
    requires
        reports_overflow(message),
    ensures
        reports_overflow(before + message + after),
{
    let lowered = ascii_lowercase(message);
    let whole = ascii_lowercase(before + message + after);
    assert forall|pattern: Seq<char>| #[trigger] occurs(lowered, pattern) implies occurs(
        whole,
        pattern,
    ) by {
        let at = choose|at: int| occurs_at(lowered, pattern, at);
        let shifted = before.len() + at;
        assert(whole.subrange(shifted, shifted + pattern.len()) =~= lowered.subrange(
            at,
            at + pattern.len(),
        ));
        assert(occurs_at(whole, pattern, shifted));
    }
}

/// The budget of a run is nine tenths of its window, rounded up; there is none without a window.
pub proof fn run_budget_leaves_a_tenth_free(run: RunModel)
    ensures
        match run.context_window {
            Some(window) => run_budget(run) matches Some(budget) && 9 * window <= 10 * budget < 9
                * window + 10,
            None => run_budget(run) is None,
        },
{
}

/// A request whose first messages an anchor covers is estimated at what the provider charged for
/// them and at the tokens of the messages after them.
pub proof fn anchored_request_is_the_charge_and_what_was_added(
    run: RunModel,
    charged: Seq<ProjectedModel>,
    added: Seq<ProjectedModel>,
    charge: u64,
    anchor: ContextUsageAnchor,
)
    requires
        anchor.context_input_tokens == charge,
        anchor.message_count == charged.len(),
    ensures
        ({
            let count = charge + messages_tokens(added);
            let estimate = request_estimate(run, charged + added, Some(anchor));
            &&& count <= 0xffff_ffff_ffff_ffff ==> estimate == count
            &&& count > 0xffff_ffff_ffff_ffff ==> estimate == 0xffff_ffff_ffff_ffff
        }),
{
    assert((charged + added).skip(charged.len() as int) =~= added);
}

/// A request without an anchor, or with one that covers more messages than there are, is estimated
/// at the tokens of its prompt and of all its messages.
pub proof fn unanchored_request_is_all_of_it(
    run: RunModel,
    messages: Seq<ProjectedModel>,
    anchor: Option<ContextUsageAnchor>,
)
    requires
        anchor matches Some(anchor) ==> messages.len() < anchor.message_count,
    ensures
        ({
            let count = prompt_tokens(run.prompt) + messages_tokens(messages);
            let estimate = request_estimate(run, messages, anchor);
            &&& count <= 0xffff_ffff_ffff_ffff ==> estimate == count
            &&& count > 0xffff_ffff_ffff_ffff ==> estimate == 0xffff_ffff_ffff_ffff
        }),
{
}

/// A request whose first messages an anchor covers has to be compacted exactly when the window is
/// known and the charge together with the tokens of the messages added since is more than the
/// window without its tenth; what is reported is that sum.
pub proof fn added_messages_start_a_compaction(
    run: RunModel,
    charged: Seq<ProjectedModel>,
    added: Seq<ProjectedModel>,
    anchor: ContextUsageAnchor,
)
    requires
        anchor.message_count == charged.len(),
    ensures
        ({
            let count = anchor.context_input_tokens + messages_tokens(added);
            let over = over_budget(run, charged + added, Some(anchor));
            &&& over is Some <==> (run.context_window matches Some(window) && count > window
                - window as int / 10)
            &&& count <= 0xffff_ffff_ffff_ffff ==> (over matches Some(estimate) ==> estimate
                == count)
        }),
{
    anchored_request_is_the_charge_and_what_was_added(
        run,
        charged,
        added,
        anchor.context_input_tokens,
        anchor,
    );
}

/// A request without a usable anchor has to be compacted exactly when the window is known and the
/// tokens of the prompt and of all messages are more than the window without its tenth; what is
/// reported are those tokens.
pub proof fn large_requests_start_a_compaction(
    run: RunModel,
    messages: Seq<ProjectedModel>,
    anchor: Option<ContextUsageAnchor>,
)
    requires
        anchor matches Some(anchor) ==> messages.len() < anchor.message_count,
    ensures
        ({
            let count = prompt_tokens(run.prompt) + messages_tokens(messages);
            let over = over_budget(run, messages, anchor);
            &&& over is Some <==> (run.context_window matches Some(window) && count > window
                - window as int / 10)
            &&& count <= 0xffff_ffff_ffff_ffff ==> (over matches Some(estimate) ==> estimate
                == count)
        }),
{
    unanchored_request_is_all_of_it(run, messages, anchor);
}

/// What has to be compacted still has to be with more messages, and with a higher charge; a
/// larger window never needs a compaction that a smaller one does not.
pub proof fn more_context_never_fits_better(
    small: RunModel,
    large: RunModel,
    messages: Seq<ProjectedModel>,
    more: Seq<ProjectedModel>,
    low: ContextUsageAnchor,
    high: ContextUsageAnchor,
)
    requires
        low.message_count == high.message_count,
        low.message_count <= messages.len(),
        low.context_input_tokens <= high.context_input_tokens,
        small.context_window matches Some(small_window) && (large.context_window matches Some(
            large_window,
        ) && small_window <= large_window),
        small.prompt == large.prompt,
    ensures
        over_budget(small, messages, None) is Some ==> over_budget(small, messages + more, None)
            is Some,
        over_budget(small, messages, Some(low)) is Some ==> over_budget(
            small,
            messages + more,
            Some(low),
        ) is Some,
        over_budget(small, messages, Some(low)) is Some ==> over_budget(small, messages, Some(high))
            is Some,
        over_budget(large, messages, None) is Some ==> over_budget(small, messages, None) is Some,
        over_budget(large, messages, Some(low)) is Some ==> over_budget(small, messages, Some(low))
            is Some,
{
    let count = low.message_count as int;
    let charged = messages.take(count);
    let added = messages.skip(count);
    assert(messages =~= charged + added);
    assert(messages + more =~= charged + (added + more));
    tokens_add_up(messages, more);
    tokens_add_up(added, more);
    large_requests_start_a_compaction(small, messages, None);
    large_requests_start_a_compaction(small, messages + more, None);
    large_requests_start_a_compaction(large, messages, None);
    added_messages_start_a_compaction(small, charged, added, low);
    added_messages_start_a_compaction(small, charged, added + more, low);
    added_messages_start_a_compaction(small, charged, added, high);
    added_messages_start_a_compaction(large, charged, added, low);
}

/// The report of an overflow names the estimate and the budget, each in decimal digits.
pub proof fn overflow_report_names_both_numbers(estimated: u64, budget: u64)
    ensures
        exists|first: Seq<char>, second: Seq<char>|
            {
                &&& number_of(first) == estimated
                &&& number_of(second) == budget
                &&& overflow_report(estimated, budget) == #[trigger] (
                "context overflow after compaction: estimated input "@ + first
                    + " tokens exceeds budget "@ + second + " tokens"@)
            },
{
    decimal_digits_stand_for_the_number(estimated as nat);
    decimal_digits_stand_for_the_number(budget as nat);
    let first = decimal(estimated as nat);
    let second = decimal(budget as nat);
    assert(overflow_report(estimated, budget)
        == "context overflow after compaction: estimated input "@ + first + " tokens exceeds budget "@ + second + " tokens"@);
}

/// A message is taken for an overflow only if its lower case holds one of the phrases by which
/// providers say so.
pub proof fn only_known_phrases_mean_overflow(message: Seq<char>)
    requires
        !occurs(ascii_lowercase(message), "prompt is too long"@),
        !occurs(ascii_lowercase(message), "context window exceeded"@),
        !occurs(ascii_lowercase(message), "model_context_window_exceeded"@),
        !occurs(ascii_lowercase(message), "context_length_exceeded"@),
        !occurs(ascii_lowercase(message), "maximum context length"@) || !occurs(
            ascii_lowercase(message),
            "token"@,
        ),
    ensures
        !reports_overflow(message),
{
}

/// A message whose lower case holds a phrase by which providers say so is taken for an overflow.
pub proof fn known_phrases_mean_overflow(before: Seq<char>, message: Seq<char>, after: Seq<char>)
    requires
        ({
            let phrase = ascii_lowercase(message);
            ||| phrase == "prompt is too long"@
            ||| phrase == "context window exceeded"@
            ||| phrase == "model_context_window_exceeded"@
            ||| phrase == "context_length_exceeded"@
            ||| phrase == "maximum context length"@ && (occurs(ascii_lowercase(before), "token"@)
                || occurs(ascii_lowercase(after), "token"@))
        }),
    ensures
        reports_overflow(before + message + after),
{
    let phrase = ascii_lowercase(message);
    let whole = ascii_lowercase(before + message + after);
    let first = ascii_lowercase(before);
    let last = ascii_lowercase(after);
    assert(whole =~= first + phrase + last);
    occurring_is_standing_between(whole, phrase);
    let token = "token"@;
    if occurs(first, token) {
        occurring_is_standing_between(first, token);
        let (left, right) = choose|left: Seq<char>, right: Seq<char>|
            first == #[trigger] (left + token + right);
        assert(whole =~= left + token + (right + phrase + last));
        occurring_is_standing_between(whole, token);
    }
    if occurs(last, token) {
        occurring_is_standing_between(last, token);
        let (left, right) = choose|left: Seq<char>, right: Seq<char>|
            last == #[trigger] (left + token + right);
        assert(whole =~= (first + phrase + left) + token + right);
        occurring_is_standing_between(whole, token);
    }
}

proof fn lemma_occurs_through(text: Seq<char>, pattern: Seq<char>, part: Seq<char>)
    requires
        occurs(text, pattern),
        occurs(pattern, part),
    ensures
        occurs(text, part),
{
    let outer = choose|at: int| occurs_at(text, pattern, at);
    let inner = choose|at: int| occurs_at(pattern, part, at);
    assert(text.subrange(outer + inner, outer + inner + part.len()) =~= text.subrange(
        outer,
        outer + pattern.len(),
    ).subrange(inner, inner + part.len()));
    assert(occurs_at(text, part, outer + inner));
}

/// A failure that speaks of neither a prompt nor a context is never taken for an overflow.
pub proof fn other_failures_are_no_overflow(message: Seq<char>)
    requires
        !occurs(ascii_lowercase(message), "prompt"@),
        !occurs(ascii_lowercase(message), "context"@),
    ensures
        !reports_overflow(message),
{
    let lowered = ascii_lowercase(message);
    let prompt = "prompt"@;
    let context = "context"@;
    reveal_strlit("prompt");
    reveal_strlit("context");
    reveal_strlit("prompt is too long");
    reveal_strlit("context window exceeded");
    reveal_strlit("model_context_window_exceeded");
    reveal_strlit("context_length_exceeded");
    reveal_strlit("maximum context length");
    assert("prompt is too long"@.subrange(0, 6) =~= prompt);
    assert(occurs_at("prompt is too long"@, prompt, 0));
    assert("context window exceeded"@.subrange(0, 7) =~= context);
    assert(occurs_at("context window exceeded"@, context, 0));
    assert("model_context_window_exceeded"@.subrange(6, 13) =~= context);
    assert(occurs_at("model_context_window_exceeded"@, context, 6));
    assert("context_length_exceeded"@.subrange(0, 7) =~= context);
    assert(occurs_at("context_length_exceeded"@, context, 0));
    assert("maximum context length"@.subrange(8, 15) =~= context);
    assert(occurs_at("maximum context length"@, context, 8));
    if occurs(lowered, "prompt is too long"@) {
        lemma_occurs_through(lowered, "prompt is too long"@, prompt);
    }
    if occurs(lowered, "context window exceeded"@) {
        lemma_occurs_through(lowered, "context window exceeded"@, context);
    }
    if occurs(lowered, "model_context_window_exceeded"@) {
        lemma_occurs_through(lowered, "model_context_window_exceeded"@, context);
    }
    if occurs(lowered, "context_length_exceeded"@) {
        lemma_occurs_through(lowered, "context_length_exceeded"@, context);
    }
    if occurs(lowered, "maximum context length"@) {
        lemma_occurs_through(lowered, "maximum context length"@, context);
    }
}

} // verus!
