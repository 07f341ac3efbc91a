//! The history that is handed to a provider.
use crate::budget::{budget_of, context_budget, OUTPUT_TOKENS};
use crate::message::{
    part_models, projected_models, ContentModel, ContentPart, PartModel, ProjectedContent,
    ProjectedMessage, ProjectedModel, Role,
};
use crate::tokens::{
    content_tokens, estimate_projected_messages_tokens, longer_prefix_has_more_tokens,
    messages_estimate, messages_tokens, parts_tokens,
};
use vstd::prelude::*;
use vstd::slice::slice_subrange;

verus! {

/// What the summarizer is told.
pub const INSTRUCTIONS: &'static str =
    "Summarize the conversation for the next model turn. Preserve goals, constraints, decisions, files, commands, errors, results, and unfinished work. Do not call tools. Return only the concise durable summary.";

/// The identity of the message that holds the instructions.
pub const INSTRUCTION_ID: &'static str = "compaction:instruction";

/// A user message that holds one text.
pub open spec fn user_text(message_id: Seq<char>, text: Seq<char>) -> ProjectedModel {
    ProjectedModel {
        message_id,
        role: Role::User,
        content: ContentModel::Parts { parts: seq![PartModel::Text { text }] },
    }
}

/// A history made to end with a user message: one that does not is given `closing` as its last
/// message.
pub open spec fn ending_with_user(
    history: Seq<ProjectedModel>,
    closing: ProjectedModel,
) -> Seq<ProjectedModel> {
    if history.len() > 0 && history.last().role == Role::User {
        history
    } else {
        history.push(closing)
    }
}

/// Whether a message opens a turn: a user message with content of its own.
pub open spec fn opens_turn(message: ProjectedModel) -> bool {
    message.role == Role::User && message.content is Parts
}

/// What of a context window the summarizer's history may use. There is no limit where the window
/// is not known, nor where nothing would be left of it.
pub open spec fn summarizer_budget(context_window: Option<u64>) -> Option<u64> {
    match context_window {
        Some(window) if budget_of(window) > OUTPUT_TOKENS => Some(
            (budget_of(window) - OUTPUT_TOKENS) as u64,
        ),
        _ => None,
    }
}

/// Whether a history can be cut before its message `at`: a turn opens there, and what stands
/// before it is within the budget.
pub open spec fn cut_fits(history: Seq<ProjectedModel>, budget: u64, at: int) -> bool {
    &&& 0 < at < history.len()
    &&& opens_turn(history[at])
    &&& messages_estimate(history.take(at)) <= budget
}

/// The last cut before `below` that fits.
pub open spec fn last_fitting_cut(
    history: Seq<ProjectedModel>,
    budget: u64,
    below: int,
) -> Option<int>
    decreases below,
{
    if below <= 0 {
        None
    } else if cut_fits(history, budget, below - 1) {
        Some(below - 1)
    } else {
        last_fitting_cut(history, budget, below - 1)
    }
}

/// Where the first turn at or after `from` opens; the end where none does.
pub open spec fn next_turn(history: Seq<ProjectedModel>, from: int) -> int
    decreases history.len() - from,
{
    if from >= history.len() || opens_turn(history[from]) {
        from
    } else {
        next_turn(history, from + 1)
    }
}

/// Where a history is cut to meet a budget. A history within the budget is not cut. Otherwise
/// the cut is the last that fits; where none does, the oldest turn is kept.
pub open spec fn cut(history: Seq<ProjectedModel>, budget: u64) -> int {
    if messages_estimate(history) <= budget {
        history.len() as int
    } else {
        match last_fitting_cut(history, budget, history.len() as int) {
            Some(at) => at,
            None => next_turn(history, 1),
        }
    }
}

/// What is left of a history that has to fit a context window.
pub open spec fn trimmed_history(
    history: Seq<ProjectedModel>,
    context_window: Option<u64>,
) -> Seq<ProjectedModel> {
    match summarizer_budget(context_window) {
        Some(budget) => history.take(cut(history, budget)),
        None => history,
    }
}

/// The history of a compaction call: what fits the window, ending with a user message.
pub open spec fn summarizer_history(
    history: Seq<ProjectedModel>,
    context_window: Option<u64>,
) -> Seq<ProjectedModel> {
    ending_with_user(
        trimmed_history(history, context_window),
        user_text(INSTRUCTION_ID@, INSTRUCTIONS@),
    )
}

proof fn lemma_last_fitting_cut(history: Seq<ProjectedModel>, budget: u64, below: int)
    ensures
        match last_fitting_cut(history, budget, below) {
            Some(at) => {
                &&& at < below
                &&& cut_fits(history, budget, at)
                &&& forall|i: int| at < i < below ==> !cut_fits(history, budget, i)
            },
            None => forall|i: int| i < below ==> !cut_fits(history, budget, i),
        },
    decreases below,
{
    if below > 0 && !cut_fits(history, budget, below - 1) {
        lemma_last_fitting_cut(history, budget, below - 1);
    }
}

proof fn lemma_next_turn(history: Seq<ProjectedModel>, from: int)
    requires
        from <= history.len(),
    ensures
        from <= next_turn(history, from) <= history.len(),
        next_turn(history, from) < history.len() ==> opens_turn(
            history[next_turn(history, from)],
        ),
        forall|i: int|
            from <= i < next_turn(history, from) ==> !opens_turn(#[trigger] history[i]),
    decreases history.len() - from,
{
    if from < history.len() && !opens_turn(history[from]) {
        lemma_next_turn(history, from + 1);
    }
}

/// Makes a history end with a user message: where it does not, a user message with the given
/// text closes it.
pub fn user_terminated(
    history: Vec<ProjectedMessage>,
    message_id: &str,
    text: &str,
) -> (terminated: Vec<ProjectedMessage>)
    ensures
        projected_models(terminated@) == ending_with_user(
            projected_models(history@),
            user_text(message_id@, text@),
        ),
{
    let mut history = history;
    if history.len() > 0 && history[history.len() - 1].role == Role::User {
        return history;
    }
    let ghost before = history@;
    let parts = vec![ContentPart::Text { text: text.to_owned() }];
    proof {
        assert(part_models(parts@) =~= seq![PartModel::Text { text: text@ }]);
    }
    history.push(
        ProjectedMessage {
            message_id: message_id.to_owned(),
            role: Role::User,
            content: ProjectedContent::Parts(parts),
        },
    );
    proof {
        assert(projected_models(history@) =~= projected_models(before).push(
            user_text(message_id@, text@),
        ));
    }
    history
}

/// Whether a message opens a turn.
pub fn is_turn_boundary(message: &ProjectedMessage) -> (boundary: bool)
    ensures
        boundary == opens_turn(message@),
{
    match &message.content {
        ProjectedContent::Parts(_) => message.role == Role::User,
        _ => false,
    }
}

/// Cuts a history to what fits a context window. It keeps the oldest turns, and cuts only where
/// a turn opens, so that a tool call is never separated from its results.
///
/// Where not even the oldest turn fits, that turn is kept all the same: the summary of an empty
/// history would be a summary of nothing, and would replace the whole conversation.
pub fn trim_to_context(history: Vec<ProjectedMessage>, context_window: Option<u64>) -> (trimmed:
    Vec<ProjectedMessage>)
    ensures
        projected_models(trimmed@) == trimmed_history(
            projected_models(history@),
            context_window,
        ),
{
    let mut history = history;
    let budget: u64 = match context_window {
        Some(window) => context_budget(window).saturating_sub(OUTPUT_TOKENS),
        None => return history,
    };
    if budget == 0 {
        return history;
    }
    let ghost models = projected_models(history@);
    if estimate_projected_messages_tokens(&history) <= budget {
        proof {
            assert(models.take(models.len() as int) =~= models);
        }
        return history;
    }
    let mut end: usize = 0;
    let mut index: usize = 1;
    while index < history.len()
        invariant
            models == projected_models(history@),
            index >= 1,
            end == 0 || cut_fits(models, budget, end as int),
            end < index,
            forall|i: int| end < i < index ==> !cut_fits(models, budget, i),
        ensures
            end == 0 || cut_fits(models, budget, end as int),
            forall|i: int| end < i ==> !cut_fits(models, budget, i),
        decreases history.len() - index,
    {
        if is_turn_boundary(&history[index]) {
            let before = slice_subrange(&history, 0, index);
            proof {
                assert(projected_models(before@) =~= models.take(index as int));
            }
            if estimate_projected_messages_tokens(before) > budget {
                proof {
                    assert forall|i: int| end < i implies !cut_fits(models, budget, i) by {
                        if index <= i < models.len() {
                            longer_prefix_has_more_tokens(models, index as int, i);
                        }
                    }
                }
                break;
            }
            end = index;
        }
        index += 1;
    }
    proof {
        lemma_last_fitting_cut(models, budget, models.len() as int);
        assert(models.len() > 0);
    }
    if end == 0 {
        end = 1;
        while end < history.len() && !is_turn_boundary(&history[end])
            invariant
                models == projected_models(history@),
                1 <= end <= history@.len(),
                next_turn(models, end as int) == next_turn(models, 1),
            decreases history.len() - end,
        {
            end += 1;
        }
    }
    proof {
        assert(end == cut(models, budget));
    }
    history.truncate(end);
    proof {
        assert(projected_models(history@) =~= models.take(end as int));
    }
    history
}

/// Builds the history for a compaction call. The history must fit the context window, since
/// compaction runs because the conversation no longer does, and it must end with a user message,
/// since providers take anything else for a prefill and refuse it.
pub fn compaction_history(history: Vec<ProjectedMessage>, context_window: Option<u64>) -> (prepared:
    Vec<ProjectedMessage>)
    ensures
        projected_models(prepared@) == summarizer_history(
            projected_models(history@),
            context_window,
        ),
{
    user_terminated(trim_to_context(history, context_window), INSTRUCTION_ID, INSTRUCTIONS)
}

/// The history of a compaction call ends with a user message, whatever the history was.
pub proof fn compaction_history_ends_with_a_user_message(
    history: Seq<ProjectedModel>,
    context_window: Option<u64>,
)
    ensures
        summarizer_history(history, context_window).len() > 0,
        summarizer_history(history, context_window).last().role == Role::User,
{
}

/// The history of a compaction call is a beginning of the history, followed by the instructions
/// only where that beginning does not end with a user message.
pub proof fn compaction_history_keeps_the_oldest_messages(
    history: Seq<ProjectedModel>,
    context_window: Option<u64>,
)
    ensures
        ({
            let trimmed = trimmed_history(history, context_window);
            let prepared = summarizer_history(history, context_window);
            &&& trimmed.len() <= history.len()
            &&& trimmed == history.take(trimmed.len() as int)
            &&& trimmed.len() > 0 && trimmed.last().role == Role::User ==> prepared == trimmed
            &&& trimmed.len() == 0 || trimmed.last().role != Role::User ==> prepared
                == trimmed.push(user_text(INSTRUCTION_ID@, INSTRUCTIONS@))
        }),
{
    if let Some(budget) = summarizer_budget(context_window) {
        lemma_last_fitting_cut(history, budget, history.len() as int);
        if history.len() > 0 {
            lemma_next_turn(history, 1);
        }
    }
    let trimmed = trimmed_history(history, context_window);
    assert(trimmed =~= history.take(trimmed.len() as int));
}

/// Trimming never leaves an empty history of one that was not empty.
pub proof fn trimming_keeps_something(history: Seq<ProjectedModel>, context_window: Option<u64>)
    requires
        history.len() > 0,
    ensures
        trimmed_history(history, context_window).len() > 0,
        trimmed_history(history, context_window)[0] == history[0],
{
    if let Some(budget) = summarizer_budget(context_window) {
        lemma_last_fitting_cut(history, budget, history.len() as int);
        lemma_next_turn(history, 1);
    }
}

/// A history that is within the budget is not trimmed, nor is one without a budget.
pub proof fn fitting_history_is_kept_whole(
    history: Seq<ProjectedModel>,
    context_window: Option<u64>,
)
    requires
        summarizer_budget(context_window) matches Some(budget) ==> messages_estimate(history)
            <= budget,
    ensures
        trimmed_history(history, context_window) == history,
{
    assert(history.take(history.len() as int) =~= history);
}

/// A trimmed history is within the budget, unless it is the oldest turn alone.
pub proof fn trimmed_history_fits_or_is_one_turn(
    history: Seq<ProjectedModel>,
    context_window: Option<u64>,
)
    ensures
        summarizer_budget(context_window) matches Some(budget) ==> ({
            let trimmed = trimmed_history(history, context_window);
            ||| messages_estimate(trimmed) <= budget
            ||| forall|i: int| 0 < i < trimmed.len() ==> !opens_turn(#[trigger] trimmed[i])
        }),
{
    if let Some(budget) = summarizer_budget(context_window) {
        lemma_last_fitting_cut(history, budget, history.len() as int);
        if history.len() > 0 {
            lemma_next_turn(history, 1);
        }
        assert(history.take(history.len() as int) =~= history);
    }
}

/// The history of a compaction call fits the context window together with the instructions that
/// may close it, unless it is the oldest turn alone and that turn does not fit.
pub proof fn compaction_history_fits_the_window(history: Seq<ProjectedModel>, window: u64)
    ensures
        summarizer_budget(Some(window)) matches Some(budget) ==> ({
            let trimmed = trimmed_history(history, Some(window));
            ||| messages_estimate(summarizer_history(history, Some(window))) <= budget_of(window)
            ||| {
                &&& messages_estimate(trimmed) > budget
                &&& forall|i: int| 0 < i < trimmed.len() ==> !opens_turn(#[trigger] trimmed[i])
            }
        }),
{
    let trimmed = trimmed_history(history, Some(window));
    let closing = user_text(INSTRUCTION_ID@, INSTRUCTIONS@);
    trimmed_history_fits_or_is_one_turn(history, Some(window));
    reveal_strlit(
        "Summarize the conversation for the next model turn. Preserve goals, constraints, decisions, files, commands, errors, results, and unfinished work. Do not call tools. Return only the concise durable summary.",
    );
    assert(content_tokens(closing.content) <= OUTPUT_TOKENS) by {
        let parts = closing.content->parts;
        assert(parts.drop_last() =~= Seq::empty());
        reveal_with_fuel(parts_tokens, 2);
    }
    assert(trimmed.push(closing).drop_last() =~= trimmed);
}

/// No more whole turns would fit: every longer beginning that ends where a turn opens is over the
/// budget, and so is the history itself if anything of it was left out.
pub proof fn trimming_keeps_as_many_turns_as_fit(
    history: Seq<ProjectedModel>,
    context_window: Option<u64>,
    longer: int,
)
    requires
        trimmed_history(history, context_window).len() < longer <= history.len(),
        longer == history.len() || opens_turn(history[longer]),
    ensures
        summarizer_budget(context_window) matches Some(budget) && messages_estimate(
            history.take(longer),
        ) > budget,
{
    if let Some(budget) = summarizer_budget(context_window) {
        lemma_last_fitting_cut(history, budget, history.len() as int);
        assert(history.take(history.len() as int) =~= history);
        if longer < history.len() {
            assert(!cut_fits(history, budget, longer));
        }
    }
}

/// A history is only ever cut where a turn opens, so messages of one turn stay together: an
/// assistant message is kept exactly when the tool results that follow it in its turn are.
pub proof fn trimming_never_splits_a_turn(
    history: Seq<ProjectedModel>,
    context_window: Option<u64>,
    call: int,
    result: int,
)
    requires
        0 <= call <= result < history.len(),
        forall|i: int| call < i <= result ==> !opens_turn(#[trigger] history[i]),
    ensures
        call < trimmed_history(history, context_window).len() <==> result < trimmed_history(
            history,
            context_window,
        ).len(),
{
    if let Some(budget) = summarizer_budget(context_window) {
        lemma_last_fitting_cut(history, budget, history.len() as int);
        lemma_next_turn(history, 1);
        let at = cut(history, budget);
        assert(at < history.len() ==> opens_turn(history[at]));
    }
}

/// Where a window without its tenth is larger than the answer's tokens, a history is trimmed to a
/// beginning of it that ends where a user message with content stands or where the history ends.
/// The beginning leaves the answer's tokens free, or it is the oldest turn alone; and no longer
/// beginning of whole turns leaves them free.
pub proof fn trimming_leaves_room_for_the_answer(
    history: Seq<ProjectedModel>,
    window: u64,
    longer: int,
)
    requires
        window - window as int / 10 > 4_096,
    ensures
        ({
            let room = window - window as int / 10 - 4_096;
            let trimmed = trimmed_history(history, Some(window));
            let kept = trimmed.len() as int;
            &&& kept <= history.len()
            &&& trimmed == history.take(kept)
            &&& history.len() > 0 ==> kept > 0
            &&& kept < history.len() ==> history[kept].role == Role::User
                && history[kept].content is Parts
            &&& messages_tokens(trimmed) <= room || (forall|i: int|
                0 < i < kept ==> !((#[trigger] history[i]).role == Role::User
                    && history[i].content is Parts))
            &&& kept < longer < history.len() && history[longer].role == Role::User
                && history[longer].content is Parts ==> messages_tokens(history.take(longer)) > room
            &&& kept < history.len() ==> messages_tokens(history) > room
        }),
{
    let budget = (window - window as int / 10 - 4_096) as u64;
    assert(summarizer_budget(Some(window)) == Some(budget));
    lemma_last_fitting_cut(history, budget, history.len() as int);
    assert(history.take(history.len() as int) =~= history);
    if history.len() > 0 {
        lemma_next_turn(history, 1);
    }
    let kept = trimmed_history(history, Some(window)).len() as int;
    assert(kept == cut(history, budget));
    if kept < longer < history.len() && opens_turn(history[longer]) {
        assert(!cut_fits(history, budget, longer));
    }
}

/// A history is not trimmed where the window is not known, nor where the window without its tenth
/// is no larger than the answer's tokens.
pub proof fn history_is_whole_without_a_room(
    history: Seq<ProjectedModel>,
    context_window: Option<u64>,
)
    requires
        context_window matches Some(window) ==> window - window as int / 10 <= 4_096,
    ensures
        trimmed_history(history, context_window) == history,
{
}

/// What the history of a compaction call may use is the window without its tenth and without the
/// answer's tokens, for every window where that leaves anything.
pub proof fn every_window_with_room_is_a_limit(window: u64)
    ensures
        match summarizer_budget(Some(window)) {
            Some(budget) => budget > 0 && budget + 4_096 == window - window as int / 10,
            None => window - window as int / 10 <= 4_096,
        },
        summarizer_budget(None) is None,
{
}

/// For every window that without its tenth is larger than the answer's tokens, the history of a
/// compaction call has no more tokens than the window without its tenth, unless it is the oldest
/// turn alone, closed by the instructions where it does not end with a user message.
pub proof fn compaction_history_is_within_every_window(history: Seq<ProjectedModel>, window: u64)
    requires
        window - window as int / 10 > 4_096,
    ensures
        ({
            let prepared = summarizer_history(history, Some(window));
            let trimmed = trimmed_history(history, Some(window));
            ||| messages_tokens(prepared) <= window - window as int / 10
            ||| {
                &&& messages_tokens(trimmed) > window - window as int / 10 - 4_096
                &&& trimmed.len() <= history.len()
                &&& trimmed == history.take(trimmed.len() as int)
                &&& forall|i: int|
                    0 < i < trimmed.len() ==> !((#[trigger] history[i]).role == Role::User
                        && history[i].content is Parts)
            }
        }),
{
    compaction_history_fits_the_window(history, window);
    trimming_leaves_room_for_the_answer(history, window, 0);
    let trimmed = trimmed_history(history, Some(window));
    assert(forall|i: int| 0 < i < trimmed.len() ==> trimmed[i] == #[trigger] history[i]);
}

/// A trimmed history that does not end with a user message is closed by one that holds the
/// instructions, under an identity of its own; any other is left as it is.
pub proof fn instructions_close_the_history(
    history: Seq<ProjectedModel>,
    context_window: Option<u64>,
)
    ensures
        ({
            let trimmed = trimmed_history(history, context_window);
            let prepared = summarizer_history(history, context_window);
            if trimmed.len() > 0 && trimmed[trimmed.len() - 1].role == Role::User {
                prepared == trimmed
            } else {
                &&& prepared.len() == trimmed.len() + 1
                &&& prepared.drop_last() == trimmed
                &&& prepared.last().role == Role::User
                &&& prepared.last().message_id == "compaction:instruction"@
                &&& prepared.last().content matches ContentModel::Parts { parts }
                &&& parts.len() == 1
                &&& parts[0] matches PartModel::Text { text }
                &&& text
                    == "Summarize the conversation for the next model turn. Preserve goals, constraints, decisions, files, commands, errors, results, and unfinished work. Do not call tools. Return only the concise durable summary."@
            }
        }),
{
    let trimmed = trimmed_history(history, context_window);
    let prepared = summarizer_history(history, context_window);
    if !(trimmed.len() > 0 && trimmed.last().role == Role::User) {
        assert(prepared.drop_last() =~= trimmed);
    }
}

/// A history that ends with a user message is left as it is; any other is followed by one user
/// message with the given identity and text.
pub proof fn histories_are_closed_once(
    history: Seq<ProjectedModel>,
    message_id: Seq<char>,
    text: Seq<char>,
)
    ensures
        ({
            let closed = ending_with_user(history, user_text(message_id, text));
            if history.len() > 0 && history[history.len() - 1].role == Role::User {
                closed == history
            } else {
                &&& closed.len() == history.len() + 1
                &&& closed.drop_last() == history
                &&& closed.last().role == Role::User
                &&& closed.last().message_id == message_id
                &&& closed.last().content matches ContentModel::Parts { parts }
                &&& parts == seq![PartModel::Text { text }]
            }
        }),
        ({
            let closed = ending_with_user(history, user_text(message_id, text));
            ending_with_user(closed, user_text(message_id, text)) == closed
        }),
{
    let closed = ending_with_user(history, user_text(message_id, text));
    if !(history.len() > 0 && history.last().role == Role::User) {
        assert(closed.drop_last() =~= history);
    }
}

/// A turn is opened by the user's messages with content of their own, and by no others: neither
/// by what an assistant or a tool says, nor by a tool's result in a user's name.
pub proof fn users_open_turns(message: ProjectedModel)
    ensures
        opens_turn(message) ==> message.role == Role::User,
        opens_turn(message) ==> message.content is Parts,
        !opens_turn(message) ==> message.role != Role::User || !(message.content is Parts),
{
}

} // verus!
