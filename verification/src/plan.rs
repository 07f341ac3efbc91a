//! Decides which messages are summarized and which are kept.
use crate::budget::{input_budget, run_budget, OUTPUT_TOKENS};
use crate::file_window::{
    all_without_files, collect_file_windows, file_window, file_windows, peel_file_windows,
    files_are_collected_in_order, shrunk_messages_carry_no_files, without_files,
};
use crate::history::opens_turn;
use crate::message::{
    message_models, projected_models, CanonicalMessage, MessageContent, MessageModel,
    ProjectedModel, Role,
};
use crate::projection::{project, project_messages, projectable, projection};
use crate::run::{PreparedRun, RunModel};
use crate::text::{has_prefix, prefixes_and_suffixes_are_the_ends, starts_with};
use crate::tokens::{
    context_estimate, estimate_context_tokens, estimate_projected_messages_tokens,
    longer_suffix_has_more_tokens, messages_estimate, messages_tokens, prompt_tokens,
};
use vstd::hash_set::StringHashSet;
use vstd::prelude::*;
use vstd::slice::slice_subrange;

verus! {

/// Begins the identity of a message that holds the context of a request.
pub const REQUEST_CONTEXT_PREFIX: &'static str = "request-context:";

/// Whether a compaction runs by itself or because a user asked for it.
#[derive(Clone, Copy, Debug, PartialEq, Eq, Structural)]
pub enum CompactionKind {
    Auto,
    Manual,
}

/// Which messages are summarized and which are kept: the obsolete prefix goes to the summarizer,
/// a recent tail stays. Files that the tail carries go to the prefix too, since a tail that fits
/// its budget could still be made of them.
#[derive(Debug, PartialEq, Eq)]
pub struct CompactionPlan {
    pub prefix: Vec<CanonicalMessage>,
    pub tail: Vec<CanonicalMessage>,
    pub retained_request_context: Option<CanonicalMessage>,
}

/// What a `CompactionPlan` holds.
#[verifier::ext_equal]
pub struct PlanModel {
    pub prefix: Seq<MessageModel>,
    pub tail: Seq<MessageModel>,
    pub retained: Option<MessageModel>,
}

/// What an optional message holds.
pub open spec fn optional_model(message: Option<CanonicalMessage>) -> Option<MessageModel> {
    match message {
        Some(message) => Some(message@),
        None => None,
    }
}

impl View for CompactionPlan {
    type V = PlanModel;

    open spec fn view(&self) -> PlanModel {
        PlanModel {
            prefix: message_models(self.prefix@),
            tail: message_models(self.tail@),
            retained: optional_model(self.retained_request_context),
        }
    }
}

/// Whether a message holds the context of a request.
pub open spec fn is_request_context(message: MessageModel) -> bool {
    starts_with(message.message_id, REQUEST_CONTEXT_PREFIX@)
}

/// Where the latest request context stands.
pub open spec fn latest_request_context(messages: Seq<MessageModel>) -> Option<int>
    decreases messages.len(),
{
    if messages.len() == 0 {
        None
    } else if is_request_context(messages.last()) {
        Some(messages.len() - 1)
    } else {
        latest_request_context(messages.drop_last())
    }
}

/// The messages without the latest request context.
pub open spec fn without_latest_context(messages: Seq<MessageModel>) -> Seq<MessageModel> {
    match latest_request_context(messages) {
        Some(at) => messages.remove(at),
        None => messages,
    }
}

/// The messages that a compaction may touch: all but the latest request context and the messages
/// of the current run.
pub open spec fn compactable_messages(
    messages: Seq<MessageModel>,
    current_ids: Set<Seq<char>>,
) -> Seq<MessageModel> {
    without_latest_context(messages).filter(
        |message: MessageModel| !current_ids.contains(message.message_id),
    )
}

/// The latest request context, unless it belongs to the current run.
pub open spec fn retained_context(
    messages: Seq<MessageModel>,
    current_ids: Set<Seq<char>>,
) -> Option<MessageModel> {
    match latest_request_context(messages) {
        Some(at) if !current_ids.contains(messages[at].message_id) => Some(messages[at]),
        _ => None,
    }
}

/// The messages that stay whatever is compacted: the retained request context and the messages
/// of the current run.
pub open spec fn held_messages(
    run: RunModel,
    retained: Option<MessageModel>,
) -> Seq<MessageModel> {
    match retained {
        Some(context) => seq![context] + run.initial,
        None => run.initial,
    }
}

/// `amount` less `taken`, or nothing.
pub open spec fn less(amount: u64, taken: u64) -> u64 {
    if taken <= amount {
        (amount - taken) as u64
    } else {
        0
    }
}

/// What is left of a run's budget for the tail, where the window is known: what the messages
/// that stay and the provider's answer do not take.
pub open spec fn tail_budget_of(run: RunModel, retained: Option<MessageModel>) -> Option<u64> {
    let held = held_messages(run, retained);
    let held_tokens = if projectable(held) {
        context_estimate(run.prompt, projection(held))
    } else {
        0
    };
    match run_budget(run) {
        Some(budget) => Some(less(less(budget, held_tokens), OUTPUT_TOKENS)),
        None => None,
    }
}

/// Where the last turn opens; the beginning where none does.
pub open spec fn last_turn(messages: Seq<MessageModel>) -> int
    decreases messages.len(),
{
    if messages.len() == 0 {
        0
    } else if opens_turn(project(messages.last())) {
        messages.len() - 1
    } else {
        last_turn(messages.drop_last())
    }
}

/// Whether the messages from `at` on are whole turns within the budget.
pub open spec fn tail_fits(messages: Seq<MessageModel>, budget: u64, at: int) -> bool {
    &&& 0 <= at < messages.len()
    &&& opens_turn(project(messages[at]))
    &&& messages_estimate(projection(messages).skip(at)) <= budget
}

/// Where the longest tail that fits begins, at or after `from`; the end where none fits.
pub open spec fn first_fitting_tail(messages: Seq<MessageModel>, budget: u64, from: int) -> int
    decreases messages.len() - from,
{
    if from >= messages.len() || tail_fits(messages, budget, from) {
        from
    } else {
        first_fitting_tail(messages, budget, from + 1)
    }
}

/// Where the tail begins. Without a budget it is the last turn. With one it is the longest tail
/// of whole turns that fits; nothing is kept where the budget is used up, or where the messages
/// cannot be shown to a provider.
pub open spec fn tail_start(messages: Seq<MessageModel>, tail_budget: Option<u64>) -> int {
    match tail_budget {
        Some(budget) => if budget == 0 || !projectable(messages) {
            messages.len() as int
        } else {
            first_fitting_tail(messages, budget, 0)
        },
        None => last_turn(messages),
    }
}

/// Where the compactable messages are divided into prefix and tail; none where there is nothing
/// to compact. A conversation that fits its tail as it stands is compacted by itself only for the
/// files that it carries, and whole when a user asks for it.
pub open spec fn division(
    compactable: Seq<MessageModel>,
    windows: Seq<MessageModel>,
    start: int,
    kind: CompactionKind,
) -> Option<int> {
    if start > 0 {
        Some(start)
    } else {
        match kind {
            CompactionKind::Manual => if compactable.len() == 0 && windows.len() == 0 {
                None
            } else {
                Some(compactable.len() as int)
            },
            CompactionKind::Auto => if file_windows(compactable).len() == 0 && windows.len() == 0 {
                None
            } else {
                Some(0)
            },
        }
    }
}

/// What a compaction does: the messages before the division are summarized, with the files that
/// the messages after it and the messages of the current run carry; the messages after the
/// division are kept without their files.
pub open spec fn planned(
    messages: Seq<MessageModel>,
    current_ids: Set<Seq<char>>,
    run: RunModel,
    kind: CompactionKind,
) -> Option<PlanModel> {
    let compactable = compactable_messages(messages, current_ids);
    let retained = retained_context(messages, current_ids);
    let windows = file_windows(run.initial);
    let start = tail_start(compactable, tail_budget_of(run, retained));
    match division(compactable, windows, start, kind) {
        Some(at) => Some(
            PlanModel {
                prefix: compactable.take(at) + file_windows(compactable.skip(at)) + windows,
                tail: all_without_files(compactable.skip(at)),
                retained,
            },
        ),
        None => None,
    }
}

/// How many messages there are, as far as a count can go.
pub open spec fn counted(messages: Seq<MessageModel>) -> u32 {
    if messages.len() <= u32::MAX {
        messages.len() as u32
    } else {
        u32::MAX
    }
}

/// The identities of messages.
pub fn message_ids(messages: &[CanonicalMessage]) -> (ids: StringHashSet)
    ensures
        forall|id: Seq<char>|
            ids@.contains(id) <==> exists|i: int|
                0 <= i < messages@.len() && #[trigger] message_models(messages@)[i].message_id
                    == id,
{
    let ghost models = message_models(messages@);
    let mut ids = StringHashSet::new();
    let mut i: usize = 0;
    while i < messages.len()
        invariant
            i <= messages@.len(),
            models == message_models(messages@),
            forall|id: Seq<char>|
                ids@.contains(id) <==> exists|k: int|
                    0 <= k < i && #[trigger] models[k].message_id == id,
        decreases messages.len() - i,
    {
        let ghost before = ids@;
        ids.insert(messages[i].message_id.clone());
        proof {
            assert(models[i as int].message_id == messages@[i as int].message_id@);
            assert forall|id: Seq<char>| ids@.contains(id) implies exists|k: int|
                0 <= k < i + 1 && #[trigger] models[k].message_id == id by {
                if before.contains(id) {
                    let k = choose|k: int| 0 <= k < i && #[trigger] models[k].message_id == id;
                    assert(models[k].message_id == id);
                } else {
                    assert(models[i as int].message_id == id);
                }
            }
        }
        i += 1;
    }
    ids
}

/// What is gone through once the first `end` messages are: those messages without the latest
/// request context.
spec fn gone_through(messages: Seq<MessageModel>, latest: Option<int>, end: int) -> Seq<
    MessageModel,
> {
    match latest {
        Some(at) if at < end => messages.take(end).remove(at),
        _ => messages.take(end),
    }
}

spec fn not_current(messages: Seq<MessageModel>, current_ids: Set<Seq<char>>) -> Seq<MessageModel> {
    messages.filter(|message: MessageModel| !current_ids.contains(message.message_id))
}

proof fn lemma_latest_request_context(messages: Seq<MessageModel>)
    ensures
        match latest_request_context(messages) {
            Some(at) => {
                &&& 0 <= at < messages.len()
                &&& is_request_context(messages[at])
                &&& forall|i: int|
                    at < i < messages.len() ==> !is_request_context(#[trigger] messages[i])
            },
            None => forall|i: int|
                0 <= i < messages.len() ==> !is_request_context(#[trigger] messages[i]),
        },
    decreases messages.len(),
{
    if messages.len() > 0 && !is_request_context(messages.last()) {
        let before = messages.drop_last();
        lemma_latest_request_context(before);
        assert forall|i: int|
            0 <= i < messages.len() && (latest_request_context(before) matches Some(at) ==> at
                < i) implies !is_request_context(#[trigger] messages[i]) by {
            if i < before.len() {
                assert(messages[i] == before[i]);
            }
        }
    }
}

proof fn lemma_not_current_push(
    messages: Seq<MessageModel>,
    current_ids: Set<Seq<char>>,
    message: MessageModel,
)
    ensures
        not_current(messages.push(message), current_ids) == if current_ids.contains(
            message.message_id,
        ) {
            not_current(messages, current_ids)
        } else {
            not_current(messages, current_ids).push(message)
        },
{
    reveal(Seq::filter);
    assert(messages.push(message).drop_last() =~= messages);
}

fn find_latest_request_context(messages: &[CanonicalMessage]) -> (at: Option<usize>)
    ensures
        match (at, latest_request_context(message_models(messages@))) {
            (Some(exec), Some(at)) => exec == at,
            (None, None) => true,
            _ => false,
        },
{
    let ghost models = message_models(messages@);
    let mut end: usize = messages.len();
    proof {
        assert(models.take(end as int) =~= models);
    }
    while end > 0
        invariant
            end <= messages@.len(),
            models == message_models(messages@),
            latest_request_context(models) == latest_request_context(models.take(end as int)),
        decreases end,
    {
        proof {
            assert(models.take(end as int).drop_last() =~= models.take(end - 1));
        }
        end -= 1;
        if has_prefix(&messages[end].message_id, REQUEST_CONTEXT_PREFIX) {
            return Some(end);
        }
    }
    None
}

/// Divides messages into those that a compaction may touch, and the request context that stays.
pub fn partition(messages: &[CanonicalMessage], current_ids: &StringHashSet) -> (parts: (
    Vec<CanonicalMessage>,
    Option<CanonicalMessage>,
))
    ensures
        message_models(parts.0@) == compactable_messages(message_models(messages@), current_ids@),
        optional_model(parts.1) == retained_context(message_models(messages@), current_ids@),
{
    let ghost models = message_models(messages@);
    let latest = find_latest_request_context(messages);
    let ghost at = latest_request_context(models);
    proof {
        lemma_latest_request_context(models);
    }
    let mut compactable: Vec<CanonicalMessage> = Vec::new();
    let mut i: usize = 0;
    proof {
        assert(not_current(gone_through(models, at, 0), current_ids@) =~= Seq::empty()) by {
            reveal(Seq::filter);
        }
        assert(message_models(compactable@) =~= Seq::empty());
    }
    while i < messages.len()
        invariant
            i <= messages@.len(),
            models == message_models(messages@),
            at == latest_request_context(models),
            at matches Some(at) ==> 0 <= at < models.len() && latest == Some(at as usize),
            at is None ==> latest is None,
            message_models(compactable@) == not_current(
                gone_through(models, at, i as int),
                current_ids@,
            ),
        decreases messages.len() - i,
    {
        let ghost before = compactable@;
        let skipped = match latest {
            Some(latest) => latest == i,
            None => false,
        };
        proof {
            assert(models[i as int] == messages@[i as int]@);
            if skipped {
                assert(gone_through(models, at, i + 1) =~= gone_through(models, at, i as int));
            } else {
                assert(gone_through(models, at, i + 1) =~= gone_through(
                    models,
                    at,
                    i as int,
                ).push(models[i as int]));
                lemma_not_current_push(
                    gone_through(models, at, i as int),
                    current_ids@,
                    models[i as int],
                );
            }
        }
        if !skipped && !current_ids.contains(&messages[i].message_id) {
            compactable.push(messages[i].clone());
            proof {
                assert(message_models(compactable@) =~= message_models(before).push(
                    models[i as int],
                ));
            }
        }
        i += 1;
    }
    proof {
        assert(gone_through(models, at, i as int) =~= without_latest_context(models));
    }
    let retained = match latest {
        Some(latest) => if current_ids.contains(&messages[latest].message_id) {
            None
        } else {
            Some(messages[latest].clone())
        },
        None => None,
    };
    (compactable, retained)
}

/// Whether a stored message opens a turn.
pub fn is_canonical_turn_boundary(message: &CanonicalMessage) -> (boundary: bool)
    ensures
        boundary == opens_turn(project(message@)),
{
    match &message.content {
        MessageContent::Parts { .. } => message.role == Role::User,
        _ => false,
    }
}

/// Where the last turn opens; the beginning where none does.
pub fn last_turn_start(compactable: &[CanonicalMessage]) -> (start: usize)
    ensures
        start == last_turn(message_models(compactable@)),
{
    let ghost models = message_models(compactable@);
    let mut end: usize = compactable.len();
    proof {
        assert(models.take(end as int) =~= models);
    }
    while end > 0
        invariant
            end <= compactable@.len(),
            models == message_models(compactable@),
            last_turn(models) == last_turn(models.take(end as int)),
        decreases end,
    {
        proof {
            assert(models.take(end as int).drop_last() =~= models.take(end - 1));
        }
        end -= 1;
        if is_canonical_turn_boundary(&compactable[end]) {
            return end;
        }
    }
    0
}

proof fn lemma_first_fitting_tail(messages: Seq<MessageModel>, budget: u64, from: int)
    requires
        0 <= from <= messages.len(),
    ensures
        from <= first_fitting_tail(messages, budget, from) <= messages.len(),
        first_fitting_tail(messages, budget, from) < messages.len() ==> tail_fits(
            messages,
            budget,
            first_fitting_tail(messages, budget, from),
        ),
        forall|i: int|
            from <= i < first_fitting_tail(messages, budget, from) ==> !tail_fits(
                messages,
                budget,
                i,
            ),
    decreases messages.len() - from,
{
    if from < messages.len() && !tail_fits(messages, budget, from) {
        lemma_first_fitting_tail(messages, budget, from + 1);
    }
}

proof fn lemma_last_turn(messages: Seq<MessageModel>)
    ensures
        0 <= last_turn(messages),
        last_turn(messages) < messages.len() || messages.len() == 0,
        last_turn(messages) == 0 || opens_turn(project(messages[last_turn(messages)])),
        forall|i: int|
            last_turn(messages) < i < messages.len() ==> !opens_turn(
                project(#[trigger] messages[i]),
            ),
    decreases messages.len(),
{
    if messages.len() > 0 && !opens_turn(project(messages.last())) {
        let before = messages.drop_last();
        lemma_last_turn(before);
        assert forall|i: int| last_turn(messages) < i < messages.len() implies !opens_turn(
            project(#[trigger] messages[i]),
        ) by {
            if i < before.len() {
                assert(messages[i] == before[i]);
            }
        }
    }
}

proof fn lemma_tail_start(messages: Seq<MessageModel>, tail_budget: Option<u64>)
    ensures
        0 <= tail_start(messages, tail_budget) <= messages.len(),
{
    lemma_last_turn(messages);
    if let Some(budget) = tail_budget {
        lemma_first_fitting_tail(messages, budget, 0);
    }
}

/// Where the tail begins.
pub fn tail_start_index(compactable: &[CanonicalMessage], tail_budget: Option<u64>) -> (start:
    usize)
    ensures
        start == tail_start(message_models(compactable@), tail_budget),
        start <= compactable@.len(),
{
    let ghost models = message_models(compactable@);
    proof {
        lemma_tail_start(models, tail_budget);
    }
    let budget: u64 = match tail_budget {
        Some(budget) => budget,
        None => return last_turn_start(compactable),
    };
    if budget == 0 {
        return compactable.len();
    }
    let projected = match project_messages(compactable) {
        Ok(projected) => projected,
        Err(_) => return compactable.len(),
    };
    proof {
        assert(projected_models(projected@).len() == projection(models).len());
    }
    let mut start: usize = compactable.len();
    let mut index: usize = compactable.len();
    while index > 0
        invariant
            models == message_models(compactable@),
            projected_models(projected@) == projection(models),
            projected@.len() == compactable@.len(),
            index <= start <= compactable.len(),
            start < models.len() ==> tail_fits(models, budget, start as int),
            forall|i: int| index <= i < start ==> !tail_fits(models, budget, i),
        ensures
            start <= models.len(),
            start < models.len() ==> tail_fits(models, budget, start as int),
            forall|i: int| 0 <= i < start ==> !tail_fits(models, budget, i),
        decreases index,
    {
        index -= 1;
        if is_canonical_turn_boundary(&compactable[index]) {
            let recent = slice_subrange(&projected, index, projected.len());
            proof {
                assert(projected_models(recent@) =~= projection(models).skip(index as int));
            }
            if estimate_projected_messages_tokens(recent) > budget {
                proof {
                    assert forall|i: int| 0 <= i < start implies !tail_fits(models, budget, i) by {
                        if i <= index {
                            longer_suffix_has_more_tokens(projection(models), i, index as int);
                        }
                    }
                }
                break;
            }
            start = index;
        }
    }
    proof {
        lemma_first_fitting_tail(models, budget, 0);
    }
    start
}

/// What is left of a run's budget for the tail, where the window is known.
pub fn tail_token_budget(
    prepared: &PreparedRun,
    retained_request_context: Option<&CanonicalMessage>,
) -> (budget: Option<u64>)
    ensures
        budget == tail_budget_of(
            prepared@,
            match retained_request_context {
                Some(context) => Some(context@),
                None => None,
            },
        ),
{
    let budget: u64 = match input_budget(prepared) {
        Some(budget) => budget,
        None => return None,
    };
    let mut held: Vec<CanonicalMessage> = Vec::new();
    if let Some(context) = retained_request_context {
        held.push(context.clone());
    }
    held.extend_from_slice(&prepared.initial_messages);
    proof {
        assert(message_models(held@) =~= held_messages(
            prepared@,
            match retained_request_context {
                Some(context) => Some(context@),
                None => None,
            },
        ));
    }
    let held_tokens: u64 = match project_messages(&held) {
        Ok(projected) => estimate_context_tokens(&prepared.prompt, &projected),
        Err(_) => 0,
    };
    Some(budget.saturating_sub(held_tokens).saturating_sub(OUTPUT_TOKENS))
}

impl CompactionPlan {
    /// How many messages the tail holds.
    pub fn window_tail(&self) -> (count: u32)
        ensures
            count == if self@.tail.len() > u32::MAX {
                u32::MAX as int
            } else {
                self@.tail.len() as int
            },
            count == counted(self@.tail),
    {
        if self.tail.len() > u32::MAX as usize {
            u32::MAX
        } else {
            self.tail.len() as u32
        }
    }
}

/// Plans a compaction; none where there is nothing to compact.
pub fn plan(
    messages: &[CanonicalMessage],
    current_ids: &StringHashSet,
    prepared: &PreparedRun,
    kind: CompactionKind,
) -> (plan: Option<CompactionPlan>)
    ensures
        match (plan, planned(message_models(messages@), current_ids@, prepared@, kind)) {
            (Some(plan), Some(planned)) => plan@ == planned,
            (None, None) => true,
            _ => false,
        },
{
    let (compactable, retained) = partition(messages, current_ids);
    let ghost models = message_models(compactable@);
    let mut current_file_windows = collect_file_windows(&prepared.initial_messages);
    let start: usize = tail_start_index(
        &compactable,
        tail_token_budget(prepared, retained.as_ref()),
    );
    let division: usize = if start > 0 {
        start
    } else {
        match kind {
            CompactionKind::Auto => {
                let compactable_file_windows = collect_file_windows(&compactable);
                if current_file_windows.is_empty() && compactable_file_windows.is_empty() {
                    return None;
                }
                0
            },
            CompactionKind::Manual => {
                if current_file_windows.is_empty() && compactable.is_empty() {
                    return None;
                }
                compactable.len()
            },
        }
    };
    let mut prefix = compactable;
    let mut tail = prefix.split_off(division);
    proof {
        assert(message_models(prefix@) =~= models.take(division as int));
        assert(message_models(tail@) =~= models.skip(division as int));
    }
    peel_file_windows(&mut prefix, &mut tail);
    let ghost summarized = message_models(prefix@);
    let ghost windows = message_models(current_file_windows@);
    prefix.append(&mut current_file_windows);
    proof {
        assert(message_models(prefix@) =~= summarized + windows);
    }
    Some(CompactionPlan { prefix, tail, retained_request_context: retained })
}

/// The request context that stays is the latest one: it is one of the messages, it is not of the
/// current run, and no later message is a request context.
pub proof fn retained_context_is_the_latest(
    messages: Seq<MessageModel>,
    current_ids: Set<Seq<char>>,
)
    ensures
        retained_context(messages, current_ids) matches Some(context) ==> exists|at: int|
            {
                &&& 0 <= at < messages.len()
                &&& #[trigger] messages[at] == context
                &&& is_request_context(context)
                &&& !current_ids.contains(context.message_id)
                &&& forall|later: int|
                    at < later < messages.len() ==> !is_request_context(#[trigger] messages[later])
            },
{
    lemma_latest_request_context(messages);
}

/// A compaction touches the messages that are neither of the current run nor the latest request
/// context, and no others.
pub proof fn only_old_messages_are_compacted(
    messages: Seq<MessageModel>,
    current_ids: Set<Seq<char>>,
    message: MessageModel,
)
    ensures
        compactable_messages(messages, current_ids).contains(message) <==> {
            &&& !current_ids.contains(message.message_id)
            &&& exists|at: int|
                0 <= at < messages.len() && #[trigger] messages[at] == message && Some(at)
                    != latest_request_context(messages)
        },
{
    lemma_latest_request_context(messages);
    let others = without_latest_context(messages);
    let pred = |message: MessageModel| !current_ids.contains(message.message_id);
    if others.filter(pred).contains(message) {
        others.lemma_filter_contains_rev(pred, message);
        let k = choose|k: int|
            0 <= k < others.filter(pred).len() && others.filter(pred)[k] == message;
        others.lemma_filter_pred(pred, k);
        let i = choose|i: int| 0 <= i < others.len() && others[i] == message;
        if let Some(latest) = latest_request_context(messages) {
            if i < latest {
                assert(messages[i] == message);
            } else {
                assert(messages[i + 1] == message);
            }
        } else {
            assert(messages[i] == message);
        }
    }
    if pred(message) && exists|at: int|
        0 <= at < messages.len() && #[trigger] messages[at] == message && Some(at)
            != latest_request_context(messages) {
        let at = choose|at: int|
            0 <= at < messages.len() && #[trigger] messages[at] == message && Some(at)
                != latest_request_context(messages);
        let i = if latest_request_context(messages) matches Some(latest) && latest < at {
            at - 1
        } else {
            at
        };
        assert(others[i] == message);
        others.lemma_filter_contains(pred, i);
    }
}

/// A tail begins where a turn opens, unless it is everything or nothing, so no turn is split
/// between the summary and the tail.
pub proof fn tail_opens_with_a_turn(messages: Seq<MessageModel>, tail_budget: Option<u64>)
    ensures
        ({
            let start = tail_start(messages, tail_budget);
            &&& 0 <= start <= messages.len()
            &&& 0 < start < messages.len() ==> opens_turn(project(messages[start]))
        }),
{
    lemma_tail_start(messages, tail_budget);
    lemma_last_turn(messages);
    if let Some(budget) = tail_budget {
        lemma_first_fitting_tail(messages, budget, 0);
    }
}

/// Where the window is not known, the tail is the last turn.
pub proof fn tail_without_a_budget_is_the_last_turn(messages: Seq<MessageModel>)
    ensures
        ({
            let start = tail_start(messages, None);
            &&& start == 0 || opens_turn(project(messages[start]))
            &&& forall|i: int|
                start < i < messages.len() ==> !opens_turn(project(#[trigger] messages[i]))
        }),
{
    lemma_last_turn(messages);
}

/// A tail is within its budget, and every longer tail of whole turns is over it.
pub proof fn tail_is_the_longest_that_fits(
    messages: Seq<MessageModel>,
    budget: u64,
    longer: int,
)
    requires
        projectable(messages),
        0 < budget,
    ensures
        ({
            let start = tail_start(messages, Some(budget));
            &&& messages_estimate(projection(messages).skip(start)) <= budget
            &&& 0 <= longer < start && opens_turn(project(messages[longer])) ==> messages_estimate(
                projection(messages).skip(longer),
            ) > budget
        }),
{
    lemma_first_fitting_tail(messages, budget, 0);
    let start = tail_start(messages, Some(budget));
    if start == messages.len() {
        assert(projection(messages).skip(start) =~= Seq::empty());
    }
    if 0 <= longer < start {
        assert(!tail_fits(messages, budget, longer));
    }
}

/// The messages that stay and a tail within its budget leave room for what the provider writes.
pub proof fn tail_leaves_room_for_the_answer(
    run: RunModel,
    retained: Option<MessageModel>,
    tail: Seq<ProjectedModel>,
)
    requires
        projectable(held_messages(run, retained)),
        tail_budget_of(run, retained) matches Some(budget) && 0 < budget && messages_estimate(tail)
            <= budget,
    ensures
        run_budget(run) matches Some(budget) && prompt_tokens(run.prompt) + messages_tokens(
            projection(held_messages(run, retained)),
        ) + messages_tokens(tail) + OUTPUT_TOKENS <= budget,
{
}

/// A compaction that a user asks for is planned exactly when there is something to compact.
pub proof fn manual_compaction_is_planned_when_possible(
    messages: Seq<MessageModel>,
    current_ids: Set<Seq<char>>,
    run: RunModel,
)
    ensures
        planned(messages, current_ids, run, CompactionKind::Manual) is Some <==> (
        compactable_messages(messages, current_ids).len() > 0 || file_windows(run.initial).len()
            > 0),
{
    let compactable = compactable_messages(messages, current_ids);
    lemma_tail_start(compactable, tail_budget_of(run, retained_context(messages, current_ids)));
}

/// A compaction that runs by itself is planned exactly when not everything fits the tail, or when
/// there are files to take out.
pub proof fn automatic_compaction_is_planned_when_useful(
    messages: Seq<MessageModel>,
    current_ids: Set<Seq<char>>,
    run: RunModel,
)
    ensures
        planned(messages, current_ids, run, CompactionKind::Auto) is Some <==> {
            let compactable = compactable_messages(messages, current_ids);
            let budget = tail_budget_of(run, retained_context(messages, current_ids));
            ||| tail_start(compactable, budget) > 0
            ||| file_windows(compactable).len() > 0
            ||| file_windows(run.initial).len() > 0
        },
{
}

proof fn lemma_division(
    compactable: Seq<MessageModel>,
    windows: Seq<MessageModel>,
    tail_budget: Option<u64>,
    kind: CompactionKind,
)
    ensures
        division(compactable, windows, tail_start(compactable, tail_budget), kind) matches Some(
            at,
        ) ==> 0 <= at <= compactable.len(),
{
    lemma_tail_start(compactable, tail_budget);
}

/// A plan always has something to summarize.
pub proof fn plan_summarizes_something(
    messages: Seq<MessageModel>,
    current_ids: Set<Seq<char>>,
    run: RunModel,
    kind: CompactionKind,
)
    ensures
        planned(messages, current_ids, run, kind) matches Some(plan) ==> plan.prefix.len() > 0,
{
    let compactable = compactable_messages(messages, current_ids);
    lemma_tail_start(compactable, tail_budget_of(run, retained_context(messages, current_ids)));
    assert(compactable.skip(0) =~= compactable);
}

/// The tail of a plan carries no files.
pub proof fn planned_tail_carries_no_files(
    messages: Seq<MessageModel>,
    current_ids: Set<Seq<char>>,
    run: RunModel,
    kind: CompactionKind,
)
    ensures
        planned(messages, current_ids, run, kind) matches Some(plan) ==> forall|i: int|
            0 <= i < plan.tail.len() ==> !file_window(#[trigger] plan.tail[i]),
{
    if let Some(plan) = planned(messages, current_ids, run, kind) {
        let compactable = compactable_messages(messages, current_ids);
        let budget = tail_budget_of(run, retained_context(messages, current_ids));
        let at = division(
            compactable,
            file_windows(run.initial),
            tail_start(compactable, budget),
            kind,
        )->0;
        assert forall|i: int| 0 <= i < plan.tail.len() implies !file_window(
            #[trigger] plan.tail[i],
        ) by {
            shrunk_messages_carry_no_files(compactable.skip(at)[i]);
        }
    }
}

proof fn lemma_file_windows_contain(messages: Seq<MessageModel>, message: MessageModel)
    ensures
        file_windows(messages).contains(message) <==> messages.contains(message) && file_window(
            message,
        ),
{
    let pred = |message: MessageModel| file_window(message);
    if messages.filter(pred).contains(message) {
        messages.lemma_filter_contains_rev(pred, message);
        let k = choose|k: int|
            0 <= k < messages.filter(pred).len() && messages.filter(pred)[k] == message;
        messages.lemma_filter_pred(pred, k);
    }
    if messages.contains(message) && file_window(message) {
        let i = choose|i: int| 0 <= i < messages.len() && messages[i] == message;
        messages.lemma_filter_contains(pred, i);
    }
}

/// A plan loses nothing: every message that may be touched is summarized, or kept in the tail as
/// it is; one that carries files is summarized in any case. So is every message of the current
/// run that carries files.
pub proof fn plan_loses_nothing(
    messages: Seq<MessageModel>,
    current_ids: Set<Seq<char>>,
    run: RunModel,
    kind: CompactionKind,
    message: MessageModel,
)
    ensures
        planned(messages, current_ids, run, kind) matches Some(plan) ==> {
            &&& compactable_messages(messages, current_ids).contains(message) ==> {
                ||| plan.prefix.contains(message)
                ||| plan.tail.contains(message)
            }
            &&& compactable_messages(messages, current_ids).contains(message) && file_window(
                message,
            ) ==> plan.prefix.contains(message)
            &&& run.initial.contains(message) && file_window(message) ==> plan.prefix.contains(
                message,
            )
        },
{
    if let Some(plan) = planned(messages, current_ids, run, kind) {
        let compactable = compactable_messages(messages, current_ids);
        let windows = file_windows(run.initial);
        let budget = tail_budget_of(run, retained_context(messages, current_ids));
        lemma_division(compactable, windows, budget, kind);
        let at = division(compactable, windows, tail_start(compactable, budget), kind)->0;
        let before = compactable.take(at);
        let after = compactable.skip(at);
        let peeled = file_windows(after);
        lemma_file_windows_contain(after, message);
        lemma_file_windows_contain(run.initial, message);
        if compactable.contains(message) {
            let i = choose|i: int| 0 <= i < compactable.len() && compactable[i] == message;
            if i < at {
                assert(plan.prefix[i] == message);
            } else {
                assert(after[i - at] == message);
                if file_window(message) {
                    let k = choose|k: int| 0 <= k < peeled.len() && peeled[k] == message;
                    assert(plan.prefix[before.len() + k] == message);
                } else {
                    assert(plan.tail[i - at] == message);
                }
            }
        }
        if windows.contains(message) {
            let k = choose|k: int| 0 <= k < windows.len() && windows[k] == message;
            assert(plan.prefix[before.len() + peeled.len() + k] == message);
        }
    }
}

/// A plan invents nothing: what is summarized are messages that may be touched, and messages of
/// the current run that carry files; what is kept are messages that may be touched, without their
/// files.
pub proof fn plan_invents_nothing(
    messages: Seq<MessageModel>,
    current_ids: Set<Seq<char>>,
    run: RunModel,
    kind: CompactionKind,
    message: MessageModel,
)
    ensures
        planned(messages, current_ids, run, kind) matches Some(plan) ==> {
            &&& plan.prefix.contains(message) ==> {
                ||| compactable_messages(messages, current_ids).contains(message)
                ||| run.initial.contains(message) && file_window(message)
            }
            &&& plan.tail.contains(message) ==> exists|old_message: MessageModel|
                #[trigger] compactable_messages(messages, current_ids).contains(old_message)
                    && message == without_files(old_message)
        },
{
    if let Some(plan) = planned(messages, current_ids, run, kind) {
        let compactable = compactable_messages(messages, current_ids);
        let windows = file_windows(run.initial);
        let budget = tail_budget_of(run, retained_context(messages, current_ids));
        lemma_division(compactable, windows, budget, kind);
        let at = division(compactable, windows, tail_start(compactable, budget), kind)->0;
        let before = compactable.take(at);
        let after = compactable.skip(at);
        let peeled = file_windows(after);
        lemma_file_windows_contain(after, message);
        lemma_file_windows_contain(run.initial, message);
        if plan.prefix.contains(message) {
            let i = choose|i: int| 0 <= i < plan.prefix.len() && plan.prefix[i] == message;
            if i < before.len() {
                assert(compactable[i] == message);
            } else if i < before.len() + peeled.len() {
                assert(peeled[i - before.len()] == message);
                let k = choose|k: int| 0 <= k < after.len() && after[k] == message;
                assert(compactable[at + k] == message);
            } else {
                assert(windows[i - before.len() - peeled.len()] == message);
            }
        }
        if plan.tail.contains(message) {
            let i = choose|i: int| 0 <= i < plan.tail.len() && plan.tail[i] == message;
            assert(compactable[at + i] == after[i]);
            assert(compactable.contains(after[i]));
        }
    }
}

/// A message holds the context of a request exactly when its identity is the prefix of such
/// identities with anything behind it.
pub proof fn request_contexts_are_named(message: MessageModel, rest: Seq<char>)
    ensures
        message.message_id == "request-context:"@ + rest ==> is_request_context(message),
        (forall|behind: Seq<char>|
            message.message_id != #[trigger] ("request-context:"@ + behind)) ==>
            !is_request_context(message),
{
    let prefix = REQUEST_CONTEXT_PREFIX@;
    let id = message.message_id;
    prefixes_and_suffixes_are_the_ends(id, prefix);
    if id == prefix + rest {
        assert(id.subrange(0, prefix.len() as int) =~= prefix);
    }
    if is_request_context(message) {
        let behind = id.skip(prefix.len() as int);
        assert(id =~= id.subrange(0, prefix.len() as int) + behind);
        assert(id == "request-context:"@ + behind);
    }
}

/// The latest request context is set aside, and stays unless it belongs to the current run; the
/// messages around it are compactable in their order, but for those of the current run.
pub proof fn the_latest_context_is_set_aside(
    before: Seq<MessageModel>,
    context: MessageModel,
    after: Seq<MessageModel>,
    current_ids: Set<Seq<char>>,
)
    requires
        is_request_context(context),
        forall|i: int| 0 <= i < after.len() ==> !is_request_context(#[trigger] after[i]),
    ensures
        ({
            let messages = before + seq![context] + after;
            &&& compactable_messages(messages, current_ids) == (before + after).filter(
                |message: MessageModel| !current_ids.contains(message.message_id),
            )
            &&& current_ids.contains(context.message_id) ==> retained_context(messages, current_ids)
                is None
            &&& !current_ids.contains(context.message_id) ==> retained_context(
                messages,
                current_ids,
            ) == Some(context)
        }),
{
    let messages = before + seq![context] + after;
    let at = before.len() as int;
    lemma_latest_request_context(messages);
    assert(messages[at] == context);
    assert forall|i: int| at < i < messages.len() implies !is_request_context(
        #[trigger] messages[i],
    ) by {
        assert(messages[i] == after[i - at - 1]);
    }
    assert(latest_request_context(messages) == Some(at));
    assert(messages.remove(at) =~= before + after);
}

/// Without a request context nothing is set aside.
pub proof fn nothing_else_is_set_aside(messages: Seq<MessageModel>, current_ids: Set<Seq<char>>)
    requires
        forall|i: int| 0 <= i < messages.len() ==> !is_request_context(#[trigger] messages[i]),
    ensures
        compactable_messages(messages, current_ids) == messages.filter(
            |message: MessageModel| !current_ids.contains(message.message_id),
        ),
        retained_context(messages, current_ids) is None,
{
    lemma_latest_request_context(messages);
}

/// What the tail may use is the window without its tenth, without what the prompt and the messages
/// that stay take, and without the answer's tokens. Messages that no provider can be shown take
/// nothing.
pub proof fn the_tail_may_use_what_is_left(run: RunModel, retained: Option<MessageModel>)
    ensures
        match run.context_window {
            Some(window) => {
                let held = match retained {
                    Some(context) => seq![context] + run.initial,
                    None => run.initial,
                };
                let taken = if projectable(held) {
                    prompt_tokens(run.prompt) + messages_tokens(projection(held))
                } else {
                    0
                };
                let left = window - window as int / 10 - taken - 4_096;
                &&& tail_budget_of(run, retained) matches Some(budget)
                &&& left >= 0 ==> budget == left
                &&& left < 0 ==> budget == 0
            },
            None => tail_budget_of(run, retained) is None,
        },
{
}

/// With a budget, a tail begins with a user message that has content, is within the budget, and is
/// the longest such tail. Where none is, or where the messages cannot be shown to a provider,
/// nothing is kept.
pub proof fn the_longest_tail_within_the_budget_is_kept(
    messages: Seq<MessageModel>,
    budget: u64,
    at: int,
)
    requires
        0 <= at < messages.len(),
    ensures
        ({
            let start = tail_start(messages, Some(budget));
            let fits = messages[at].role == Role::User && messages[at].content is Parts
                && messages_estimate(projection(messages).skip(at)) <= budget;
            &&& 0 <= start <= messages.len()
            &&& budget == 0 || !projectable(messages) ==> start == messages.len()
            &&& budget > 0 && projectable(messages) && fits ==> start <= at
            &&& start == at ==> fits
        }),
{
    lemma_first_fitting_tail(messages, budget, 0);
    if tail_start(messages, Some(budget)) > at {
        assert(budget > 0 && projectable(messages) ==> !tail_fits(messages, budget, at));
    }
}

/// Without a budget a tail begins with the last user message that has content, or with the first
/// message where there is none.
pub proof fn the_last_turn_is_kept_without_a_budget(messages: Seq<MessageModel>, at: int)
    requires
        0 <= at < messages.len(),
    ensures
        ({
            let start = tail_start(messages, None);
            let opens = messages[at].role == Role::User && messages[at].content is Parts;
            &&& 0 <= start < messages.len()
            &&& opens ==> at <= start
            &&& start == at && at > 0 ==> opens
        }),
        tail_start(Seq::empty(), None) == 0,
{
    lemma_last_turn(messages);
    if tail_start(messages, None) < at {
        assert(!opens_turn(project(messages[at])));
    }
}

/// Where not all compactable messages belong to the tail, both kinds of compaction give the same
/// plan. Its tail is exactly the compactable messages from where the tail begins, without their
/// files. What is summarized begins with exactly those before, followed by the files of the tail
/// and of the current run.
pub proof fn both_kinds_keep_the_same_tail(
    messages: Seq<MessageModel>,
    current_ids: Set<Seq<char>>,
    run: RunModel,
    kind: CompactionKind,
)
    ensures
        ({
            let compactable = compactable_messages(messages, current_ids);
            let retained = retained_context(messages, current_ids);
            let start = tail_start(compactable, tail_budget_of(run, retained));
            start > 0 ==> {
                &&& start <= compactable.len()
                &&& planned(messages, current_ids, run, CompactionKind::Manual) == planned(
                    messages,
                    current_ids,
                    run,
                    CompactionKind::Auto,
                )
                &&& planned(messages, current_ids, run, kind) matches Some(plan)
                &&& plan.tail.len() == compactable.len() - start
                &&& forall|i: int|
                    start <= i < compactable.len() ==> plan.tail[i - start] == without_files(
                        #[trigger] compactable[i],
                    )
                &&& plan.prefix.len() >= start
                &&& forall|i: int| 0 <= i < start ==> #[trigger] plan.prefix[i] == compactable[i]
                &&& plan.prefix.skip(start) == file_windows(compactable.skip(start))
                    + file_windows(run.initial)
                &&& plan.retained == retained
            }
        }),
{
    let compactable = compactable_messages(messages, current_ids);
    let retained = retained_context(messages, current_ids);
    let start = tail_start(compactable, tail_budget_of(run, retained));
    lemma_tail_start(compactable, tail_budget_of(run, retained));
    if start > 0 {
        let plan = planned(messages, current_ids, run, kind)->0;
        let after = compactable.skip(start);
        assert forall|i: int| start <= i < compactable.len() implies plan.tail[i - start]
            == without_files(#[trigger] compactable[i]) by {
            assert(after[i - start] == compactable[i]);
        }
        assert(plan.prefix.skip(start) =~= file_windows(after) + file_windows(run.initial));
    }
}

proof fn lemma_tail_starts_by(messages: Seq<MessageModel>, budget: u64, at: int)
    requires
        projectable(messages),
        0 < budget,
        0 <= at < messages.len(),
        opens_turn(project(messages[at])),
        messages_estimate(projection(messages).skip(at)) <= budget,
        messages_estimate(projection(messages)) > budget,
    ensures
        0 < tail_start(messages, Some(budget)) <= at,
{
    lemma_first_fitting_tail(messages, budget, 0);
    assert(projection(messages).skip(0) =~= projection(messages));
    assert(tail_fits(messages, budget, at));
}

proof fn lemma_end_of_a_tail(
    messages: Seq<MessageModel>,
    tail: Seq<MessageModel>,
    start: int,
    at: int,
)
    requires
        0 <= start <= at <= messages.len(),
        tail.len() == messages.len() - start,
        forall|i: int|
            start <= i < messages.len() ==> tail[i - start] == without_files(
                #[trigger] messages[i],
            ),
    ensures
        tail.len() >= messages.skip(at).len(),
        tail.skip(tail.len() - messages.skip(at).len()) == all_without_files(messages.skip(at)),
{
    let recent = messages.skip(at);
    let kept = tail.skip(tail.len() - recent.len());
    assert forall|i: int| 0 <= i < recent.len() implies kept[i] == #[trigger] all_without_files(
        recent,
    )[i] by {
        assert(recent[i] == messages[at + i]);
    }
    assert(kept =~= all_without_files(recent));
}

/// Whatever the kind, the turns from any turn on that is within the tail's budget stay in the
/// tail, without their files and in their order, unless all messages are within it.
pub proof fn recent_turns_within_the_budget_are_kept(
    messages: Seq<MessageModel>,
    current_ids: Set<Seq<char>>,
    run: RunModel,
    kind: CompactionKind,
    at: int,
)
    requires
        projectable(compactable_messages(messages, current_ids)),
        0 <= at < compactable_messages(messages, current_ids).len(),
        tail_budget_of(run, retained_context(messages, current_ids)) matches Some(budget) && ({
            let compactable = compactable_messages(messages, current_ids);
            let shown = projection(compactable);
            &&& 0 < budget
            &&& compactable[at].role == Role::User
            &&& compactable[at].content is Parts
            &&& messages_estimate(shown.skip(at)) <= budget
            &&& messages_estimate(shown) > budget
        }),
    ensures
        planned(messages, current_ids, run, kind) matches Some(plan) && ({
            let recent = compactable_messages(messages, current_ids).skip(at);
            &&& plan.tail.len() >= recent.len()
            &&& plan.tail.skip(plan.tail.len() - recent.len()) == all_without_files(recent)
        }),
{
    let compactable = compactable_messages(messages, current_ids);
    let retained = retained_context(messages, current_ids);
    let budget = tail_budget_of(run, retained)->0;
    lemma_tail_starts_by(compactable, budget, at);
    both_kinds_keep_the_same_tail(messages, current_ids, run, kind);
    let plan = planned(messages, current_ids, run, kind)->0;
    lemma_end_of_a_tail(compactable, plan.tail, tail_start(compactable, Some(budget)), at);
}

/// Where all compactable messages belong to the tail and a user asks for a compaction, all of them
/// are summarized, with the files of the current run, and the tail is empty. There is no plan
/// only where there is nothing to summarize.
pub proof fn users_compact_all_that_fits(
    messages: Seq<MessageModel>,
    current_ids: Set<Seq<char>>,
    run: RunModel,
)
    requires
        tail_start(
            compactable_messages(messages, current_ids),
            tail_budget_of(run, retained_context(messages, current_ids)),
        ) == 0,
    ensures
        ({
            let compactable = compactable_messages(messages, current_ids);
            match planned(messages, current_ids, run, CompactionKind::Manual) {
                Some(plan) => {
                    &&& compactable.len() > 0 || file_windows(run.initial).len() > 0
                    &&& plan.prefix == compactable + file_windows(run.initial)
                    &&& plan.tail.len() == 0
                    &&& plan.retained == retained_context(messages, current_ids)
                },
                None => compactable.len() == 0 && file_windows(run.initial).len() == 0,
            }
        }),
{
    let compactable = compactable_messages(messages, current_ids);
    let none = compactable.skip(compactable.len() as int);
    assert(none =~= Seq::empty());
    files_are_collected_in_order(none, none);
    assert(compactable.take(compactable.len() as int) =~= compactable);
    if let Some(plan) = planned(messages, current_ids, run, CompactionKind::Manual) {
        assert(plan.prefix =~= compactable + file_windows(run.initial));
    }
}

/// Where all compactable messages belong to the tail, a compaction that runs by itself summarizes
/// only the files of the compactable messages and of the current run, and keeps every compactable
/// message without its files. There is no plan only where there are no files.
pub proof fn fitting_conversations_lose_only_files(
    messages: Seq<MessageModel>,
    current_ids: Set<Seq<char>>,
    run: RunModel,
)
    requires
        tail_start(
            compactable_messages(messages, current_ids),
            tail_budget_of(run, retained_context(messages, current_ids)),
        ) == 0,
    ensures
        ({
            let compactable = compactable_messages(messages, current_ids);
            let files = file_windows(compactable) + file_windows(run.initial);
            match planned(messages, current_ids, run, CompactionKind::Auto) {
                Some(plan) => {
                    &&& files.len() > 0
                    &&& plan.prefix == files
                    &&& plan.tail == all_without_files(compactable)
                    &&& plan.retained == retained_context(messages, current_ids)
                },
                None => files.len() == 0,
            }
        }),
{
    let compactable = compactable_messages(messages, current_ids);
    assert(compactable.skip(0) =~= compactable);
    if let Some(plan) = planned(messages, current_ids, run, CompactionKind::Auto) {
        assert(plan.prefix =~= file_windows(compactable) + file_windows(run.initial));
    }
}

/// A tail is counted message by message, as far as a count can go.
pub proof fn every_message_of_a_tail_counts(tail: Seq<MessageModel>, message: MessageModel)
    ensures
        tail.len() == 0 ==> counted(tail) == 0,
        tail.len() < 4_294_967_295 ==> counted(tail.push(message)) == counted(tail) + 1,
        tail.len() >= 4_294_967_295 ==> counted(tail) == 4_294_967_295,
{
}

/// What a plan holds is all of its prefix, all of its tail and the request context that stays.
pub proof fn plan_models_lose_nothing(plan: CompactionPlan)
    ensures
        plan@.prefix == message_models(plan.prefix@),
        plan@.tail == message_models(plan.tail@),
        match plan.retained_request_context {
            Some(context) => plan@.retained == Some(context@),
            None => plan@.retained is None,
        },
{
}

} // verus!
