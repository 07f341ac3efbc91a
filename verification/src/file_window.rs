//! Messages that carry the contents of files, and what is left of them after a compaction.
use crate::message::{
    message_models, part_models, CanonicalMessage, ContentModel, ContentPart, MessageContent,
    MessageModel, PartModel, ResultModel, ToolResult,
};
use crate::text::{
    chars_of, contains, drop_white_space, ends_with, find, find_from, has_suffix, is_white_space,
    lemma_find_exists, lemma_find_unique, occurs, occurs_at, occurs_first_at, same_text,
    skip_white_space, trim_end, trim_start,
};
use vstd::prelude::*;
use vstd::slice::slice_subrange;

verus! {

/// Opens the files that a user selected.
pub const SELECTED_OPEN: &'static str = "<selected_context>";

/// Closes the files that a user selected.
pub const SELECTED_CLOSE: &'static str = "</selected_context>";

/// The name of the tool that reads files.
pub const READ_TOOL: &'static str = "Read";

/// What stands in place of a file that was read.
pub const COMPACTED_FILE_WINDOW: &'static str = "[compacted file window]";

/// Marks the identity of a message whose files were taken out.
pub const COMPACTED_IDENTITY_SUFFIX: &'static str = ":compacted-file-window";

/// Where the first block of selected files of a text begins, and where its closing tag begins.
pub open spec fn selected_block(text: Seq<char>) -> Option<(int, int)> {
    match find(text, SELECTED_OPEN@) {
        Some(start) => match find(text.skip(start), SELECTED_CLOSE@) {
            Some(length) => Some((start, start + length)),
            None => None,
        },
        None => None,
    }
}

/// Whether the first block of selected files of a text holds a file or a piece of code.
pub open spec fn holds_selected_file(text: Seq<char>) -> bool {
    match selected_block(text) {
        Some((start, end)) => {
            let block = text.subrange(start, end);
            occurs(block, "<file"@) || occurs(block, "<code "@)
        },
        None => false,
    }
}

/// Whether a part holds a selected file.
pub open spec fn part_holds_file(part: PartModel) -> bool {
    part matches PartModel::Text { text } && holds_selected_file(text)
}

/// Whether a message carries the contents of files: selected files in a text, or what the tool
/// that reads files answered.
pub open spec fn file_window(message: MessageModel) -> bool {
    match message.content {
        ContentModel::Parts { parts } => exists|i: int|
            0 <= i < parts.len() && part_holds_file(#[trigger] parts[i]),
        ContentModel::ToolResult { result } => {
            &&& result.name == READ_TOOL@
            &&& result.content.len() > 0
            &&& result.content != COMPACTED_FILE_WINDOW@
        },
        ContentModel::Assistant { .. } => false,
    }
}

/// What is kept, set apart from what is left where there is something on both sides.
pub open spec fn set_apart(kept: Seq<char>, left: Seq<char>) -> Seq<char> {
    if kept.len() > 0 && left.len() > 0 {
        kept + "\n\n"@
    } else {
        kept
    }
}

/// `kept` followed by what is left of `rest` without its blocks of selected files. White space
/// around a block goes with it. A block that is not closed stays.
pub open spec fn stripped_after(kept: Seq<char>, rest: Seq<char>) -> Seq<char>
    decreases rest.len(),
{
    match find(rest, SELECTED_OPEN@) {
        Some(start) => {
            let kept = kept + trim_end(rest.take(start));
            match selected_block(rest) {
                Some((_, end)) => {
                    let left = trim_start(rest.skip(end + SELECTED_CLOSE@.len()));
                    proof {
                        lemma_selected_block(rest);
                        lemma_trim_start(rest.skip(end + SELECTED_CLOSE@.len()));
                        reveal_strlit("</selected_context>");
                    }
                    stripped_after(set_apart(kept, left), left)
                },
                None => kept + rest.skip(start),
            }
        },
        None => kept + rest,
    }
}

/// A text without its blocks of selected files.
pub open spec fn stripped(text: Seq<char>) -> Seq<char> {
    stripped_after(Seq::empty(), text)
}

/// A part without its blocks of selected files.
pub open spec fn stripped_part(part: PartModel) -> PartModel {
    match part {
        PartModel::Text { text } => PartModel::Text { text: stripped(text) },
        PartModel::Image { .. } => part,
    }
}

/// A message's content without the files that it carries.
pub open spec fn shrunk_content(content: ContentModel) -> ContentModel {
    match content {
        ContentModel::Parts { parts } => ContentModel::Parts {
            parts: parts.map_values(|part: PartModel| stripped_part(part)),
        },
        ContentModel::ToolResult { result } if result.name == READ_TOOL@ =>
            ContentModel::ToolResult {
                result: ResultModel { content: COMPACTED_FILE_WINDOW@, ..result },
            },
        _ => content,
    }
}

/// An identity that is marked as that of a message whose files were taken out.
pub open spec fn compacted_identity(id: Seq<char>) -> Seq<char> {
    if ends_with(id, COMPACTED_IDENTITY_SUFFIX@) {
        id
    } else {
        id + COMPACTED_IDENTITY_SUFFIX@
    }
}

/// A message under its marked identities.
pub open spec fn retargeted(message: MessageModel) -> MessageModel {
    MessageModel {
        message_id: compacted_identity(message.message_id),
        runtime_event_id: match message.runtime_event_id {
            Some(id) => Some(compacted_identity(id)),
            None => None,
        },
        ..message
    }
}

/// A message without the files that it carries, under its marked identities.
pub open spec fn shrunk(message: MessageModel) -> MessageModel {
    retargeted(MessageModel { content: shrunk_content(message.content), ..message })
}

/// A message as it is kept after a compaction: shrunk if it carries files.
pub open spec fn without_files(message: MessageModel) -> MessageModel {
    if file_window(message) {
        shrunk(message)
    } else {
        message
    }
}

/// The messages that carry files.
pub open spec fn file_windows(messages: Seq<MessageModel>) -> Seq<MessageModel> {
    messages.filter(|message: MessageModel| file_window(message))
}

/// Messages as they are kept after a compaction.
pub open spec fn all_without_files(messages: Seq<MessageModel>) -> Seq<MessageModel> {
    messages.map_values(|message: MessageModel| without_files(message))
}

/// Where the tags of the first block stand.
pub proof fn lemma_selected_block(text: Seq<char>)
    ensures
        find(text, SELECTED_OPEN@) matches Some(start) ==> occurs_first_at(
            text,
            SELECTED_OPEN@,
            start,
        ),
        selected_block(text) matches Some((start, end)) ==> {
            &&& find(text, SELECTED_OPEN@) == Some(start)
            &&& 0 <= start <= end
            &&& end + SELECTED_CLOSE@.len() <= text.len()
            &&& occurs_first_at(text.skip(start), SELECTED_CLOSE@, end - start)
        },
{
    if occurs(text, SELECTED_OPEN@) {
        let at = choose|at: int| occurs_at(text, SELECTED_OPEN@, at);
        lemma_find_exists(text, SELECTED_OPEN@, at);
        let rest = text.skip(find(text, SELECTED_OPEN@)->0);
        if occurs(rest, SELECTED_CLOSE@) {
            let close = choose|at: int| occurs_at(rest, SELECTED_CLOSE@, at);
            lemma_find_exists(rest, SELECTED_CLOSE@, close);
        }
    }
}

/// Trimming never makes a text longer.
pub proof fn lemma_trim_start(text: Seq<char>)
    ensures
        trim_start(text).len() <= text.len(),
    decreases text.len(),
{
    if text.len() > 0 {
        lemma_trim_start(text.drop_first());
    }
}

/// Whether the first block of selected files of a text holds a file or a piece of code.
pub fn contains_selected_file_window(text: &str) -> (found: bool)
    ensures
        found == holds_selected_file(text@),
{
    let chars = chars_of(text);
    let open = chars_of(SELECTED_OPEN);
    let close = chars_of(SELECTED_CLOSE);
    proof {
        assert(chars@.skip(0) =~= chars@);
    }
    let start: usize = match find_from(&chars, &open, 0) {
        Some(start) => start,
        None => return false,
    };
    let length: usize = match find_from(&chars, &close, start) {
        Some(length) => length,
        None => return false,
    };
    let block = slice_subrange(&chars, start, start + length);
    contains(block, "<file") || contains(block, "<code ")
}

/// Whether a message carries the contents of files.
pub fn is_file_window(message: &CanonicalMessage) -> (found: bool)
    ensures
        found == file_window(message@),
{
    match &message.content {
        MessageContent::Parts { parts } => {
            let ghost models = part_models(parts@);
            let mut i: usize = 0;
            while i < parts.len()
                invariant
                    i <= parts@.len(),
                    models == part_models(parts@),
                    message@.content == (ContentModel::Parts { parts: models }),
                    forall|k: int| 0 <= k < i ==> !part_holds_file(#[trigger] models[k]),
                decreases parts.len() - i,
            {
                proof {
                    assert(models[i as int] == parts@[i as int]@);
                }
                if let ContentPart::Text { text } = &parts[i] {
                    if contains_selected_file_window(text) {
                        proof {
                            assert(part_holds_file(message@.content->parts[i as int]));
                        }
                        return true;
                    }
                }
                i += 1;
            }
            false
        },
        MessageContent::ToolResult(result) => same_text(&result.name, READ_TOOL)
            && !result.content.as_str().is_empty() && !same_text(
            &result.content,
            COMPACTED_FILE_WINDOW,
        ),
        MessageContent::Assistant { .. } => false,
    }
}

/// A text without its blocks of selected files. White space around a block goes with it, and
/// what stood before and after it is set apart. A block that is not closed stays.
pub fn strip_selected_context(text: &str) -> (output: String)
    ensures
        output@ == stripped(text@),
{
    let chars = chars_of(text);
    let open = chars_of(SELECTED_OPEN);
    let close = chars_of(SELECTED_CLOSE);
    let mut output = String::new();
    let mut rest: usize = 0;
    proof {
        assert(chars@.skip(0) =~= chars@);
        reveal_strlit("</selected_context>");
    }
    loop
        invariant
            chars@ == text@,
            open@ == SELECTED_OPEN@,
            close@ == SELECTED_CLOSE@,
            close@.len() > 0,
            rest <= chars.len(),
            stripped_after(output@, chars@.skip(rest as int)) == stripped(text@),
        decreases chars.len() - rest,
    {
        let ghost left = chars@.skip(rest as int);
        let start: usize = match find_from(&chars, &open, rest) {
            Some(start) => start,
            None => {
                output.append(text.substring_char(rest, chars.len()));
                proof {
                    assert(chars@.subrange(rest as int, chars@.len() as int) =~= left);
                }
                return output;
            },
        };
        let block: usize = rest + start;
        let end: usize = drop_white_space(&chars, rest, block);
        output.append(text.substring_char(rest, end));
        proof {
            assert(chars@.subrange(rest as int, block as int) =~= left.take(start as int));
            assert(chars@.skip(block as int) =~= left.skip(start as int));
        }
        let length: usize = match find_from(&chars, &close, block) {
            Some(length) => length,
            None => {
                output.append(text.substring_char(block, chars.len()));
                proof {
                    assert(chars@.subrange(block as int, chars@.len() as int) =~= left.skip(
                        start as int,
                    ));
                }
                return output;
            },
        };
        let after: usize = block + length + close.len();
        rest = skip_white_space(&chars, after);
        proof {
            assert(chars@.skip(after as int) =~= left.skip(start + length + close@.len()));
        }
        let ghost kept = output@;
        if !output.as_str().is_empty() && rest < chars.len() {
            output.append("\n\n");
        }
        proof {
            assert(output@ == set_apart(kept, chars@.skip(rest as int)));
        }
    }
}

/// Marks the identities of a message as those of a message whose files were taken out. A marked
/// identity stays as it is.
pub fn retarget_compacted_identity(message: &mut CanonicalMessage)
    ensures
        final(message)@ == retargeted(old(message)@),
{
    if !has_suffix(&message.message_id, COMPACTED_IDENTITY_SUFFIX) {
        message.message_id.append(COMPACTED_IDENTITY_SUFFIX);
    }
    if let Some(event_id) = &mut message.runtime_event_id {
        if !has_suffix(event_id, COMPACTED_IDENTITY_SUFFIX) {
            event_id.append(COMPACTED_IDENTITY_SUFFIX);
        }
    }
}

fn strip_parts(parts: &Vec<ContentPart>) -> (output: Vec<ContentPart>)
    ensures
        part_models(output@) == part_models(parts@).map_values(
            |part: PartModel| stripped_part(part),
        ),
{
    let mut output: Vec<ContentPart> = Vec::new();
    let mut i: usize = 0;
    while i < parts.len()
        invariant
            i <= parts@.len(),
            output@.len() == i,
            forall|k: int| 0 <= k < i ==> (#[trigger] output@[k])@ == stripped_part(parts@[k]@),
        decreases parts.len() - i,
    {
        let part = match &parts[i] {
            ContentPart::Text { text } => ContentPart::Text { text: strip_selected_context(text) },
            other => other.clone(),
        };
        output.push(part);
        i += 1;
    }
    proof {
        assert(part_models(output@) =~= part_models(parts@).map_values(
            |part: PartModel| stripped_part(part),
        ));
    }
    output
}

/// Takes out the files that a message carries. Stored messages are never changed under their
/// identity, so what is left stands under a new one.
pub fn shrink_file_window(message: CanonicalMessage) -> (slim: CanonicalMessage)
    ensures
        slim@ == shrunk(message@),
{
    let content = match &message.content {
        MessageContent::Parts { parts } => MessageContent::Parts { parts: strip_parts(parts) },
        MessageContent::ToolResult(result) => if same_text(&result.name, READ_TOOL) {
            MessageContent::ToolResult(
                ToolResult {
                    call_id: result.call_id.clone(),
                    name: result.name.clone(),
                    content: COMPACTED_FILE_WINDOW.to_owned(),
                },
            )
        } else {
            message.content.clone()
        },
        MessageContent::Assistant { .. } => message.content.clone(),
    };
    let mut slim = CanonicalMessage {
        message_id: message.message_id,
        role: message.role,
        origin: message.origin,
        content,
        runtime_event_id: message.runtime_event_id,
    };
    retarget_compacted_identity(&mut slim);
    slim
}

/// The messages that carry files.
pub fn collect_file_windows(messages: &[CanonicalMessage]) -> (windows: Vec<CanonicalMessage>)
    ensures
        message_models(windows@) == file_windows(message_models(messages@)),
{
    let ghost whole = message_models(messages@);
    let mut windows: Vec<CanonicalMessage> = Vec::new();
    let mut i: usize = 0;
    proof {
        lemma_no_file_windows(whole.take(0));
        assert(message_models(windows@) =~= file_windows(whole.take(0)));
    }
    while i < messages.len()
        invariant
            i <= messages@.len(),
            whole == message_models(messages@),
            message_models(windows@) == file_windows(whole.take(i as int)),
        decreases messages.len() - i,
    {
        let ghost before = windows@;
        proof {
            lemma_file_windows_step(whole, i as int);
            assert(whole[i as int] == messages@[i as int]@);
        }
        if is_file_window(&messages[i]) {
            windows.push(messages[i].clone());
            proof {
                assert(message_models(windows@) =~= message_models(before).push(whole[i as int]));
            }
        }
        i += 1;
    }
    proof {
        assert(whole.take(i as int) =~= whole);
    }
    windows
}

/// Moves the files of the tail into the prefix: every message of the tail that carries files
/// goes to the end of the prefix, and is left without them in the tail.
pub fn peel_file_windows(prefix: &mut Vec<CanonicalMessage>, tail: &mut Vec<CanonicalMessage>)
    ensures
        message_models(final(prefix)@) == message_models(old(prefix)@) + file_windows(
            message_models(old(tail)@),
        ),
        message_models(final(tail)@) == all_without_files(message_models(old(tail)@)),
{
    let ghost whole = message_models(tail@);
    let ghost start = message_models(prefix@);
    let mut kept: Vec<CanonicalMessage> = Vec::with_capacity(tail.len());
    let mut i: usize = 0;
    proof {
        lemma_no_file_windows(whole.take(0));
        assert(message_models(prefix@) =~= start + file_windows(whole.take(0)));
    }
    while i < tail.len()
        invariant
            i <= tail@.len(),
            whole == message_models(tail@),
            tail@ == old(tail)@,
            kept@.len() == i,
            forall|k: int| 0 <= k < i ==> (#[trigger] kept@[k])@ == without_files(whole[k]),
            message_models(prefix@) == start + file_windows(whole.take(i as int)),
        decreases tail.len() - i,
    {
        let ghost before = prefix@;
        proof {
            lemma_file_windows_step(whole, i as int);
            assert(whole[i as int] == tail@[i as int]@);
        }
        if is_file_window(&tail[i]) {
            prefix.push(tail[i].clone());
            kept.push(shrink_file_window(tail[i].clone()));
            proof {
                assert(message_models(prefix@) =~= message_models(before).push(whole[i as int]));
                assert(message_models(prefix@) =~= start + file_windows(whole.take(i + 1)));
            }
        } else {
            kept.push(tail[i].clone());
        }
        i += 1;
    }
    proof {
        assert(whole.take(i as int) =~= whole);
        assert(message_models(kept@) =~= all_without_files(whole));
    }
    *tail = kept;
}

proof fn lemma_no_file_windows(messages: Seq<MessageModel>)
    requires
        messages.len() == 0,
    ensures
        file_windows(messages) == Seq::<MessageModel>::empty(),
{
    reveal(Seq::filter);
}

proof fn lemma_file_windows_step(messages: Seq<MessageModel>, i: int)
    requires
        0 <= i < messages.len(),
    ensures
        file_windows(messages.take(i + 1)) == if file_window(messages[i]) {
            file_windows(messages.take(i)).push(messages[i])
        } else {
            file_windows(messages.take(i))
        },
{
    reveal(Seq::filter);
    assert(messages.take(i + 1).drop_last() =~= messages.take(i));
}

proof fn lemma_trim_end(text: Seq<char>)
    ensures
        trim_end(text).len() <= text.len(),
        trim_end(text) == text.take(trim_end(text).len() as int),
    decreases text.len(),
{
    if text.len() > 0 && is_white_space(text.last()) {
        lemma_trim_end(text.drop_last());
        assert(text.drop_last().take(trim_end(text).len() as int) =~= text.take(
            trim_end(text).len() as int,
        ));
    } else {
        assert(text.take(text.len() as int) =~= text);
    }
}

/// An occurrence in a joined text lies in one of its two parts, or across the seam.
proof fn lemma_occurs_in_joined(first: Seq<char>, second: Seq<char>, pattern: Seq<char>, at: int)
    requires
        occurs_at(first + second, pattern, at),
    ensures
        ({
            ||| occurs_at(first, pattern, at)
            ||| occurs_at(second, pattern, at - first.len())
            ||| at < first.len() < at + pattern.len() && first.last() == pattern[first.len() - 1
                - at] && second.first() == pattern[first.len() - at]
        }),
{
    let joined = first + second;
    if at + pattern.len() <= first.len() {
        assert(first.subrange(at, at + pattern.len()) =~= joined.subrange(
            at,
            at + pattern.len(),
        ));
    } else if at >= first.len() {
        assert(second.subrange(at - first.len(), at - first.len() + pattern.len())
            =~= joined.subrange(at, at + pattern.len()));
    } else {
        let found = joined.subrange(at, at + pattern.len());
        assert(found[first.len() - 1 - at] == joined[first.len() - 1]);
        assert(found[first.len() - at] == joined[first.len() as int]);
    }
}

/// Texts without an opening tag have none once they are joined behind a line break.
proof fn lemma_no_open_in_joined(first: Seq<char>, second: Seq<char>)
    requires
        !occurs(first, SELECTED_OPEN@),
        !occurs(second, SELECTED_OPEN@),
        first.len() == 0 || second.len() == 0 || first.last() == '\n' || second.first() == '\n',
    ensures
        !occurs(first + second, SELECTED_OPEN@),
{
    reveal_strlit("<selected_context>");
    if occurs(first + second, SELECTED_OPEN@) {
        let at = choose|at: int| occurs_at(first + second, SELECTED_OPEN@, at);
        lemma_occurs_in_joined(first, second, SELECTED_OPEN@, at);
        assert(occurs_at(first, SELECTED_OPEN@, at) ==> occurs(first, SELECTED_OPEN@));
        assert(occurs_at(second, SELECTED_OPEN@, at - first.len()) ==> occurs(
            second,
            SELECTED_OPEN@,
        ));
    }
}

/// Before the first opening tag there is none.
proof fn lemma_no_open_before_the_first(text: Seq<char>, start: int, end: int)
    requires
        occurs_first_at(text, SELECTED_OPEN@, start),
        0 <= end <= start,
    ensures
        !occurs(text.take(end), SELECTED_OPEN@),
{
    reveal_strlit("<selected_context>");
    if occurs(text.take(end), SELECTED_OPEN@) {
        let at = choose|at: int| occurs_at(text.take(end), SELECTED_OPEN@, at);
        assert(text.take(end).subrange(at, at + SELECTED_OPEN@.len()) =~= text.subrange(
            at,
            at + SELECTED_OPEN@.len(),
        ));
        assert(occurs_at(text, SELECTED_OPEN@, at));
    }
}

/// Whether a text holds an opening tag with a closing tag somewhere after it.
pub open spec fn has_closed_block(text: Seq<char>) -> bool {
    exists|open: int, close: int|
        open <= close && #[trigger] occurs_at(text, SELECTED_OPEN@, open) && #[trigger] occurs_at(
            text,
            SELECTED_CLOSE@,
            close,
        )
}

#[verifier::spinoff_prover]
proof fn lemma_stripped_after_has_no_closed_block(kept: Seq<char>, rest: Seq<char>)
    requires
        !occurs(kept, SELECTED_OPEN@),
        kept.len() == 0 || rest.len() == 0 || kept.last() == '\n',
    ensures
        !has_closed_block(stripped_after(kept, rest)),
    decreases rest.len(),
{
    reveal_strlit("<selected_context>");
    reveal_strlit("</selected_context>");
    reveal_strlit("\n\n");
    lemma_selected_block(rest);
    let result = stripped_after(kept, rest);
    match find(rest, SELECTED_OPEN@) {
        Some(start) => {
            let piece = trim_end(rest.take(start));
            lemma_trim_end(rest.take(start));
            assert(piece =~= rest.take(piece.len() as int));
            lemma_no_open_before_the_first(rest, start, piece.len() as int);
            lemma_no_open_in_joined(kept, piece);
            let kept = kept + piece;
            match selected_block(rest) {
                Some((_, end)) => {
                    let after = rest.skip(end + SELECTED_CLOSE@.len());
                    let left = trim_start(after);
                    lemma_trim_start(after);
                    lemma_no_open_in_joined(kept, "\n\n"@);
                    lemma_stripped_after_has_no_closed_block(set_apart(kept, left), left);
                },
                None => {
                    let open = rest.skip(start);
                    assert(open.first() == rest.subrange(start, start + SELECTED_OPEN@.len())[0]);
                    assert forall|at: int, close: int|
                        #[trigger] occurs_at(result, SELECTED_OPEN@, at) && #[trigger] occurs_at(
                            result,
                            SELECTED_CLOSE@,
                            close,
                        ) implies close < at by {
                        lemma_occurs_in_joined(kept, open, SELECTED_OPEN@, at);
                        lemma_occurs_in_joined(kept, open, SELECTED_CLOSE@, close);
                        assert(occurs_at(kept, SELECTED_OPEN@, at) ==> occurs(
                            kept,
                            SELECTED_OPEN@,
                        ));
                        assert(occurs_at(open, SELECTED_CLOSE@, close - kept.len()) ==> occurs(
                            open,
                            SELECTED_CLOSE@,
                        ));
                    }
                },
            }
        },
        None => {
            lemma_no_open_in_joined(kept, rest);
            assert forall|at: int| !occurs_at(result, SELECTED_OPEN@, at) by {
                assert(occurs_at(result, SELECTED_OPEN@, at) ==> occurs(result, SELECTED_OPEN@));
            }
        },
    }
}

/// Stripping leaves no block of selected files: no opening tag with a closing tag after it.
pub proof fn stripping_leaves_no_block(text: Seq<char>)
    ensures
        !has_closed_block(stripped(text)),
        !holds_selected_file(stripped(text)),
{
    reveal_strlit("<selected_context>");
    let result = stripped(text);
    assert(!occurs(Seq::<char>::empty(), SELECTED_OPEN@));
    lemma_stripped_after_has_no_closed_block(Seq::empty(), text);
    lemma_selected_block(result);
    if let Some((start, end)) = selected_block(result) {
        let rest = result.skip(start);
        assert(rest.subrange(end - start, end - start + SELECTED_CLOSE@.len())
            =~= result.subrange(end, end + SELECTED_CLOSE@.len()));
        assert(occurs_at(result, SELECTED_OPEN@, start) && occurs_at(
            result,
            SELECTED_CLOSE@,
            end,
        ));
    }
}

/// A message that was shrunk carries no files, and neither does any message that is kept after a
/// compaction.
pub proof fn shrunk_messages_carry_no_files(message: MessageModel)
    ensures
        !file_window(shrunk(message)),
        !file_window(without_files(message)),
{
    if let ContentModel::Parts { parts } = message.content {
        let slim = shrunk(message).content->parts;
        assert forall|i: int| 0 <= i < slim.len() implies !part_holds_file(#[trigger] slim[i]) by {
            if let PartModel::Text { text } = parts[i] {
                stripping_leaves_no_block(text);
            }
        }
    }
}

/// A message that was shrunk once is left alone by every later compaction.
pub proof fn shrunk_messages_are_left_alone(message: MessageModel)
    ensures
        without_files(without_files(message)) == without_files(message),
        without_files(shrunk(message)) == shrunk(message),
{
    shrunk_messages_carry_no_files(message);
}

proof fn lemma_stripped_after_is_no_longer(kept: Seq<char>, rest: Seq<char>)
    ensures
        stripped_after(kept, rest).len() <= kept.len() + rest.len(),
    decreases rest.len(),
{
    reveal_strlit("</selected_context>");
    reveal_strlit("\n\n");
    lemma_selected_block(rest);
    if let Some(start) = find(rest, SELECTED_OPEN@) {
        lemma_trim_end(rest.take(start));
        if let Some((_, end)) = selected_block(rest) {
            let kept = kept + trim_end(rest.take(start));
            let after = rest.skip(end + SELECTED_CLOSE@.len());
            let left = trim_start(after);
            lemma_trim_start(after);
            lemma_stripped_after_is_no_longer(set_apart(kept, left), left);
        }
    }
}

/// Stripping never makes a text longer.
pub proof fn stripping_never_adds_text(text: Seq<char>)
    ensures
        stripped(text).len() <= text.len(),
{
    lemma_stripped_after_is_no_longer(Seq::empty(), text);
}

/// A text without an opening tag is left as it is.
pub proof fn text_without_blocks_is_left_alone(text: Seq<char>)
    requires
        !occurs(text, SELECTED_OPEN@),
    ensures
        stripped(text) == text,
{
    assert(Seq::<char>::empty() + text =~= text);
}

proof fn lemma_no_open_after_trimming(text: Seq<char>)
    requires
        !occurs(text, SELECTED_OPEN@),
    ensures
        !occurs(trim_start(text), SELECTED_OPEN@),
    decreases text.len(),
{
    if text.len() > 0 && is_white_space(text.first()) {
        let rest = text.drop_first();
        if occurs(rest, SELECTED_OPEN@) {
            let at = choose|at: int| occurs_at(rest, SELECTED_OPEN@, at);
            assert(rest.subrange(at, at + SELECTED_OPEN@.len()) =~= text.subrange(
                at + 1,
                at + 1 + SELECTED_OPEN@.len(),
            ));
            assert(occurs_at(text, SELECTED_OPEN@, at + 1));
        }
        lemma_no_open_after_trimming(rest);
    }
}

/// The first opening tag behind a text without one.
proof fn lemma_first_open(before: Seq<char>, rest: Seq<char>)
    requires
        !occurs(before, SELECTED_OPEN@),
        occurs_at(rest, SELECTED_OPEN@, 0),
    ensures
        find(before + rest, SELECTED_OPEN@) == Some(before.len() as int),
{
    reveal_strlit("<selected_context>");
    let open = SELECTED_OPEN@;
    let text = before + rest;
    let start = before.len() as int;
    assert(rest.first() == rest.subrange(0, open.len() as int)[0]);
    assert(text.subrange(start, start + open.len()) =~= rest.subrange(0, open.len() as int));
    assert forall|at: int| at < start implies !occurs_at(text, open, at) by {
        if occurs_at(text, open, at) {
            lemma_occurs_in_joined(before, rest, open, at);
            assert(occurs_at(before, open, at) ==> occurs(before, open));
        }
    }
    lemma_find_unique(text, open, start);
}

/// The first closing tag behind an opening tag and a text without one.
proof fn lemma_first_close(files: Seq<char>, rest: Seq<char>)
    requires
        !occurs(files, SELECTED_CLOSE@),
        occurs_at(rest, SELECTED_CLOSE@, 0),
    ensures
        find(SELECTED_OPEN@ + files + rest, SELECTED_CLOSE@) == Some(
            (SELECTED_OPEN@ + files).len() as int,
        ),
{
    reveal_strlit("<selected_context>");
    reveal_strlit("</selected_context>");
    let close = SELECTED_CLOSE@;
    let block = SELECTED_OPEN@ + files;
    let text = block + rest;
    let end = block.len() as int;
    assert(rest.first() == rest.subrange(0, close.len() as int)[0]);
    assert(text.subrange(end, end + close.len()) =~= rest.subrange(0, close.len() as int));
    assert forall|at: int| at < end implies !occurs_at(text, close, at) by {
        if occurs_at(text, close, at) {
            lemma_occurs_in_joined(block, rest, close, at);
            if occurs_at(block, close, at) {
                lemma_occurs_in_joined(SELECTED_OPEN@, files, close, at);
                assert(occurs_at(files, close, at - SELECTED_OPEN@.len()) ==> occurs(files, close));
                assert(block.subrange(at, at + close.len())[0] == block[at]);
                assert(block.subrange(at, at + close.len())[1] == block[at + 1]);
            }
        }
    }
    lemma_find_unique(text, close, end);
}

/// Of a text around one block, what stands before the block and what stands after it are kept,
/// trimmed towards the block and set apart.
pub proof fn text_around_a_block_is_kept(before: Seq<char>, files: Seq<char>, after: Seq<char>)
    requires
        !occurs(before, SELECTED_OPEN@),
        !occurs(files, SELECTED_CLOSE@),
        !occurs(after, SELECTED_OPEN@),
    ensures
        stripped(before + SELECTED_OPEN@ + files + SELECTED_CLOSE@ + after) == set_apart(
            trim_end(before),
            trim_start(after),
        ) + trim_start(after),
{
    let block = SELECTED_OPEN@ + files;
    let rest = block + (SELECTED_CLOSE@ + after);
    let text = before + rest;
    assert(before + SELECTED_OPEN@ + files + SELECTED_CLOSE@ + after =~= text);
    assert(rest.subrange(0, SELECTED_OPEN@.len() as int) =~= SELECTED_OPEN@);
    lemma_first_open(before, rest);
    assert((SELECTED_CLOSE@ + after).subrange(0, SELECTED_CLOSE@.len() as int)
        =~= SELECTED_CLOSE@);
    lemma_first_close(files, SELECTED_CLOSE@ + after);
    let end = (before.len() + block.len()) as int;
    assert(text.skip(before.len() as int) =~= rest);
    assert(text.take(before.len() as int) =~= before);
    assert(text.skip(end + SELECTED_CLOSE@.len()) =~= after);
    assert(Seq::<char>::empty() + trim_end(before) =~= trim_end(before));
    lemma_no_open_after_trimming(after);
    reveal_with_fuel(stripped_after, 2);
}

/// A shrunk message stands under identities that end with the mark. They are new ones, unless
/// they were marked before; the role and the origin stay.
pub proof fn shrinking_never_reuses_an_identity(message: MessageModel)
    ensures
        ends_with(shrunk(message).message_id, COMPACTED_IDENTITY_SUFFIX@),
        shrunk(message).message_id == message.message_id <==> ends_with(
            message.message_id,
            COMPACTED_IDENTITY_SUFFIX@,
        ),
        message.runtime_event_id matches Some(id) ==> {
            &&& shrunk(message).runtime_event_id matches Some(new_id) && ends_with(
                new_id,
                COMPACTED_IDENTITY_SUFFIX@,
            ) && (new_id == id <==> ends_with(id, COMPACTED_IDENTITY_SUFFIX@))
        },
        message.runtime_event_id is None ==> shrunk(message).runtime_event_id is None,
        shrunk(message).role == message.role,
        shrunk(message).origin == message.origin,
{
    lemma_compacted_identity(message.message_id);
    if let Some(id) = message.runtime_event_id {
        lemma_compacted_identity(id);
    }
}

proof fn lemma_compacted_identity(id: Seq<char>)
    ensures
        ends_with(compacted_identity(id), COMPACTED_IDENTITY_SUFFIX@),
        compacted_identity(id) == id <==> ends_with(id, COMPACTED_IDENTITY_SUFFIX@),
{
    reveal_strlit(":compacted-file-window");
    let marked = id + COMPACTED_IDENTITY_SUFFIX@;
    assert(marked.subrange(id.len() as int, marked.len() as int) =~= COMPACTED_IDENTITY_SUFFIX@);
    assert(marked.len() > id.len());
}

/// Messages with different unmarked identities keep different identities when they are shrunk.
pub proof fn shrinking_keeps_identities_apart(first: MessageModel, second: MessageModel)
    requires
        first.message_id != second.message_id,
        !ends_with(first.message_id, COMPACTED_IDENTITY_SUFFIX@),
        !ends_with(second.message_id, COMPACTED_IDENTITY_SUFFIX@),
    ensures
        shrunk(first).message_id != shrunk(second).message_id,
{
    let left = first.message_id;
    let right = second.message_id;
    if left + COMPACTED_IDENTITY_SUFFIX@ == right + COMPACTED_IDENTITY_SUFFIX@ {
        let marked = left + COMPACTED_IDENTITY_SUFFIX@;
        assert(marked.len() == right.len() + COMPACTED_IDENTITY_SUFFIX@.len());
        assert(left =~= marked.take(left.len() as int));
        assert(right =~= (right + COMPACTED_IDENTITY_SUFFIX@).take(right.len() as int));
    }
}

/// Marking identities twice is marking them once.
pub proof fn retargeting_twice_is_retargeting_once(message: MessageModel)
    ensures
        retargeted(retargeted(message)) == retargeted(message),
{
    lemma_compacted_identity(message.message_id);
    if let Some(id) = message.runtime_event_id {
        lemma_compacted_identity(id);
    }
}

/// A closed block of selected files and where its tags are found.
proof fn lemma_block_between(before: Seq<char>, inside: Seq<char>, after: Seq<char>)
    requires
        !occurs(before, SELECTED_OPEN@),
        !occurs(inside, SELECTED_CLOSE@),
    ensures
        ({
            let text = before + SELECTED_OPEN@ + inside + SELECTED_CLOSE@ + after;
            let end = (before + SELECTED_OPEN@ + inside).len() as int;
            &&& find(text, SELECTED_OPEN@) == Some(before.len() as int)
            &&& selected_block(text) == Some((before.len() as int, end))
            &&& text.take(before.len() as int) == before
            &&& text.subrange(before.len() as int, end) == SELECTED_OPEN@ + inside
            &&& text.skip(end + SELECTED_CLOSE@.len()) == after
        }),
{
    let block = SELECTED_OPEN@ + inside;
    let rest = block + (SELECTED_CLOSE@ + after);
    let text = before + rest;
    assert(before + SELECTED_OPEN@ + inside + SELECTED_CLOSE@ + after =~= text);
    assert(rest.subrange(0, SELECTED_OPEN@.len() as int) =~= SELECTED_OPEN@);
    lemma_first_open(before, rest);
    assert((SELECTED_CLOSE@ + after).subrange(0, SELECTED_CLOSE@.len() as int)
        =~= SELECTED_CLOSE@);
    lemma_first_close(inside, SELECTED_CLOSE@ + after);
    let end = (before.len() + block.len()) as int;
    assert(text.skip(before.len() as int) =~= rest);
    assert(text.take(before.len() as int) =~= before);
    assert(text.subrange(before.len() as int, end) =~= block);
    assert(text.skip(end + SELECTED_CLOSE@.len()) =~= after);
}

/// An opening tag that no closing tag follows.
proof fn lemma_block_left_open(before: Seq<char>, rest: Seq<char>)
    requires
        !occurs(before, SELECTED_OPEN@),
        !occurs(rest, SELECTED_CLOSE@),
    ensures
        ({
            let text = before + SELECTED_OPEN@ + rest;
            &&& find(text, SELECTED_OPEN@) == Some(before.len() as int)
            &&& selected_block(text) is None
            &&& text.take(before.len() as int) == before
            &&& text.skip(before.len() as int) == SELECTED_OPEN@ + rest
        }),
{
    reveal_strlit("<selected_context>");
    reveal_strlit("</selected_context>");
    let close = SELECTED_CLOSE@;
    let block = SELECTED_OPEN@ + rest;
    let text = before + block;
    assert(before + SELECTED_OPEN@ + rest =~= text);
    assert(block.subrange(0, SELECTED_OPEN@.len() as int) =~= SELECTED_OPEN@);
    lemma_first_open(before, block);
    assert(text.skip(before.len() as int) =~= block);
    assert(text.take(before.len() as int) =~= before);
    assert forall|at: int| !occurs_at(block, close, at) by {
        if occurs_at(block, close, at) {
            lemma_occurs_in_joined(SELECTED_OPEN@, rest, close, at);
            assert(occurs_at(rest, close, at - SELECTED_OPEN@.len()) ==> occurs(rest, close));
            assert(block.subrange(at, at + close.len())[0] == block[at]);
            assert(block.subrange(at, at + close.len())[1] == block[at + 1]);
        }
    }
}

/// A tag that starts a file or a piece of code and stands in a block, stands behind its opening
/// tag.
proof fn lemma_files_stand_inside(inside: Seq<char>, tag: Seq<char>)
    requires
        tag == "<file"@ || tag == "<code "@,
    ensures
        occurs(SELECTED_OPEN@ + inside, tag) <==> occurs(inside, tag),
{
    reveal_strlit("<selected_context>");
    reveal_strlit("<file");
    reveal_strlit("<code ");
    let open = SELECTED_OPEN@;
    let block = open + inside;
    if occurs(block, tag) {
        let at = choose|at: int| occurs_at(block, tag, at);
        lemma_occurs_in_joined(open, inside, tag, at);
        assert(block.subrange(at, at + tag.len())[0] == block[at]);
        assert(block.subrange(at, at + tag.len())[1] == block[at + 1]);
        assert(occurs_at(inside, tag, at - open.len()));
    }
    if occurs(inside, tag) {
        let at = choose|at: int| occurs_at(inside, tag, at);
        assert(block.subrange(open.len() + at, open.len() + at + tag.len()) =~= inside.subrange(
            at,
            at + tag.len(),
        ));
        assert(occurs_at(block, tag, open.len() + at));
    }
}

/// A text with a closed block of selected context holds a selected file exactly when a file's or
/// a piece of code's tag stands between the block's tags, whatever stands around the block.
pub proof fn files_stand_between_the_tags(before: Seq<char>, inside: Seq<char>, after: Seq<char>)
    requires
        !occurs(before, "<selected_context>"@),
        !occurs(inside, "</selected_context>"@),
    ensures
        holds_selected_file(
            before + "<selected_context>"@ + inside + "</selected_context>"@ + after,
        ) <==> occurs(inside, "<file"@) || occurs(inside, "<code "@),
{
    lemma_block_between(before, inside, after);
    lemma_files_stand_inside(inside, "<file"@);
    lemma_files_stand_inside(inside, "<code "@);
}

/// A text without an opening tag holds no selected file, and neither does one whose first opening
/// tag is never closed.
pub proof fn files_need_a_closed_block(before: Seq<char>, rest: Seq<char>)
    requires
        !occurs(before, "<selected_context>"@),
    ensures
        !holds_selected_file(before),
        !occurs(rest, "</selected_context>"@) ==> !holds_selected_file(
            before + "<selected_context>"@ + rest,
        ),
{
    if !occurs(rest, SELECTED_CLOSE@) {
        lemma_block_left_open(before, rest);
    }
}

/// Every text that holds a selected file is made of a closed block with a file or a piece of code
/// in it, and of what stands around the block.
pub proof fn every_file_stands_in_a_block(text: Seq<char>)
    requires
        holds_selected_file(text),
    ensures
        exists|before: Seq<char>, inside: Seq<char>, after: Seq<char>|
            {
                &&& text == #[trigger] (before + "<selected_context>"@ + inside
                    + "</selected_context>"@ + after)
                &&& !occurs(before, "<selected_context>"@)
                &&& !occurs(inside, "</selected_context>"@)
                &&& occurs(inside, "<file"@) || occurs(inside, "<code "@)
            },
{
    reveal_strlit("<selected_context>");
    reveal_strlit("</selected_context>");
    let open = SELECTED_OPEN@;
    let close = SELECTED_CLOSE@;
    lemma_selected_block(text);
    let (start, end) = selected_block(text)->0;
    let rest = text.skip(start);
    lemma_no_open_before_the_first(text, start, start);
    assert(text.subrange(start, start + open.len()) == open);
    assert(rest.subrange(end - start, end - start + close.len()) == close);
    if end < start + open.len() {
        assert(rest.subrange(end - start, end - start + close.len())[0] == text[end]);
        assert(rest.subrange(end - start, end - start + close.len())[1] == text[end + 1]);
        assert(text.subrange(start, start + open.len())[end - start] == text[end]);
        assert(text[start] == text.subrange(start, start + open.len())[0]);
        assert(text[start + 1] == text.subrange(start, start + open.len())[1]);
    }
    let before = text.take(start);
    let inside = text.subrange(start + open.len(), end);
    let after = text.skip(end + close.len());
    assert(text.subrange(end, end + close.len()) =~= rest.subrange(
        end - start,
        end - start + close.len(),
    ));
    assert(text =~= before + text.subrange(start, start + open.len()) + inside + text.subrange(
        end,
        end + close.len(),
    ) + after);
    assert(text == before + "<selected_context>"@ + inside + "</selected_context>"@ + after);
    if occurs(inside, close) {
        let at = choose|at: int| occurs_at(inside, close, at);
        let again = open.len() + at;
        assert(rest.subrange(again, again + close.len()) =~= inside.subrange(
            at,
            at + close.len(),
        ));
        assert(occurs_at(rest, close, again));
    }
    files_stand_between_the_tags(before, inside, after);
}

/// A message of parts carries files whenever a text part of it, at any position, holds a closed
/// block with a file or a piece of code in it.
pub proof fn a_file_in_any_part_is_noticed(
    message: MessageModel,
    at: int,
    before: Seq<char>,
    inside: Seq<char>,
    after: Seq<char>,
)
    requires
        message.content matches ContentModel::Parts { parts } && 0 <= at < parts.len() && parts[at]
            == (PartModel::Text {
            text: before + "<selected_context>"@ + inside + "</selected_context>"@ + after,
        }),
        !occurs(before, "<selected_context>"@),
        !occurs(inside, "</selected_context>"@),
        occurs(inside, "<file"@) || occurs(inside, "<code "@),
    ensures
        file_window(message),
{
    files_stand_between_the_tags(before, inside, after);
    assert(part_holds_file(message.content->parts[at]));
}

/// A message of parts carries files only through a text part of it that holds a selected file:
/// images never do.
pub proof fn files_come_from_text_parts(message: MessageModel, parts: Seq<PartModel>)
    requires
        message.content == (ContentModel::Parts { parts }),
    ensures
        file_window(message) <==> exists|i: int|
            0 <= i < parts.len() && (#[trigger] parts[i] matches PartModel::Text { text }
                && holds_selected_file(text)),
{
    if file_window(message) {
        let i = choose|i: int|
            0 <= i < message.content->parts.len() && part_holds_file(
                #[trigger] message.content->parts[i],
            );
        assert(parts[i] is Text && holds_selected_file(parts[i]->text));
    }
    if exists|i: int|
        0 <= i < parts.len() && (#[trigger] parts[i] matches PartModel::Text { text }
            && holds_selected_file(text)) {
        let i = choose|i: int|
            0 <= i < parts.len() && (#[trigger] parts[i] matches PartModel::Text { text }
                && holds_selected_file(text));
        assert(part_holds_file(message.content->parts[i]));
    }
}

/// Parts in front of others or behind them neither hide the files of a message nor add to them:
/// the parts together carry files exactly when one of the two does.
pub proof fn more_parts_never_hide_a_file(
    message: MessageModel,
    first: Seq<PartModel>,
    second: Seq<PartModel>,
)
    ensures
        file_window(
            MessageModel { content: ContentModel::Parts { parts: first + second }, ..message },
        ) <==> file_window(
            MessageModel { content: ContentModel::Parts { parts: first }, ..message },
        ) || file_window(
            MessageModel { content: ContentModel::Parts { parts: second }, ..message },
        ),
{
    let parts = first + second;
    let whole = MessageModel { content: ContentModel::Parts { parts }, ..message };
    let left = MessageModel { content: ContentModel::Parts { parts: first }, ..message };
    let right = MessageModel { content: ContentModel::Parts { parts: second }, ..message };
    assert(whole.content->parts == parts);
    assert(left.content->parts == first);
    assert(right.content->parts == second);
    if file_window(left) {
        let i = choose|i: int|
            0 <= i < left.content->parts.len() && part_holds_file(
                #[trigger] left.content->parts[i],
            );
        assert(part_holds_file(whole.content->parts[i]));
    }
    if file_window(right) {
        let i = choose|i: int|
            0 <= i < right.content->parts.len() && part_holds_file(
                #[trigger] right.content->parts[i],
            );
        assert(part_holds_file(whole.content->parts[first.len() + i]));
    }
    if file_window(whole) {
        let i = choose|i: int|
            0 <= i < whole.content->parts.len() && part_holds_file(
                #[trigger] whole.content->parts[i],
            );
        if i < first.len() {
            assert(part_holds_file(left.content->parts[i]));
        } else {
            assert(part_holds_file(right.content->parts[i - first.len()]));
        }
    }
}

/// A tool's result carries a file exactly when the tool is the one that reads files and its answer
/// is neither empty nor taken out already; what an assistant says carries none.
pub proof fn files_come_from_the_reading_tool(message: MessageModel)
    ensures
        message.content matches ContentModel::ToolResult { result } ==> (file_window(message)
            <==> result.name == "Read"@ && result.content.len() > 0 && result.content
            != "[compacted file window]"@),
        message.content is Assistant ==> !file_window(message),
{
}

/// After a compaction no text part of a message, at any position, is a closed block with a file
/// or a piece of code in it and text around the block; nor is any tool's answer a file that was
/// read.
pub proof fn no_kept_part_holds_a_file(
    message: MessageModel,
    at: int,
    before: Seq<char>,
    inside: Seq<char>,
    after: Seq<char>,
)
    requires
        !occurs(before, "<selected_context>"@),
        !occurs(inside, "</selected_context>"@),
        occurs(inside, "<file"@) || occurs(inside, "<code "@),
    ensures
        without_files(message).content matches ContentModel::Parts { parts } ==> 0 <= at
            < parts.len() ==> parts[at] != (PartModel::Text {
            text: before + "<selected_context>"@ + inside + "</selected_context>"@ + after,
        }),
        without_files(message).content matches ContentModel::ToolResult { result } ==> result.name
            != "Read"@ || result.content.len() == 0 || result.content
            == "[compacted file window]"@,
{
    shrunk_messages_carry_no_files(message);
    files_stand_between_the_tags(before, inside, after);
    if let ContentModel::Parts { parts } = without_files(message).content {
        if 0 <= at < parts.len() {
            assert(!part_holds_file(parts[at]));
        }
    }
}

/// Shrinking takes the blocks out of every text part and leaves every other part as it is; of
/// what the reading tool answered it leaves the mark alone, and of anything else all.
pub proof fn shrinking_takes_files_and_nothing_else(content: ContentModel)
    ensures
        match content {
            ContentModel::Parts { parts } => {
                &&& shrunk_content(content) matches ContentModel::Parts { parts: slim }
                &&& slim.len() == parts.len()
                &&& forall|i: int|
                    0 <= i < parts.len() ==> match #[trigger] parts[i] {
                        PartModel::Text { text } => slim[i] == (PartModel::Text {
                            text: stripped(text),
                        }),
                        other => slim[i] == other,
                    }
            },
            ContentModel::ToolResult { result } => {
                &&& shrunk_content(content) matches ContentModel::ToolResult { result: slim }
                &&& slim.call_id == result.call_id
                &&& slim.name == result.name
                &&& slim.content == if result.name == "Read"@ {
                    "[compacted file window]"@
                } else {
                    result.content
                }
            },
            ContentModel::Assistant { .. } => shrunk_content(content) == content,
        },
{
}

/// A message without files is kept as it is. Of one with files the content is shrunk and the
/// identities are marked.
pub proof fn only_messages_with_files_change(message: MessageModel)
    ensures
        !file_window(message) ==> without_files(message) == message,
        file_window(message) ==> {
            let kept = without_files(message);
            &&& kept.content == shrunk_content(message.content)
            &&& kept.role == message.role
            &&& kept.origin == message.origin
            &&& kept.message_id == compacted_identity(message.message_id)
            &&& kept.runtime_event_id is Some <==> message.runtime_event_id is Some
            &&& message.runtime_event_id is Some ==> kept.runtime_event_id->0
                == compacted_identity(message.runtime_event_id->0)
        },
        shrunk(message).content == shrunk_content(message.content),
        shrunk(message).role == message.role,
        shrunk(message).origin == message.origin,
        shrunk(message).message_id == compacted_identity(message.message_id),
        match message.runtime_event_id {
            Some(id) => shrunk(message).runtime_event_id == Some(compacted_identity(id)),
            None => shrunk(message).runtime_event_id is None,
        },
        retargeted(message).content == message.content,
        retargeted(message).role == message.role,
        retargeted(message).origin == message.origin,
        retargeted(message).message_id == compacted_identity(message.message_id),
        match message.runtime_event_id {
            Some(id) => retargeted(message).runtime_event_id == Some(compacted_identity(id)),
            None => retargeted(message).runtime_event_id is None,
        },
{
}

/// A marked identity is any identity with the mark behind it: one that has it already stays, and
/// one that does not is given it.
pub proof fn marks_stand_behind_identities(id: Seq<char>)
    ensures
        compacted_identity(id + ":compacted-file-window"@) == id + ":compacted-file-window"@,
        (forall|stem: Seq<char>| id != #[trigger] (stem + ":compacted-file-window"@)) ==>
            compacted_identity(id) == id + ":compacted-file-window"@,
{
    let mark = COMPACTED_IDENTITY_SUFFIX@;
    let marked = id + mark;
    assert(marked.subrange(id.len() as int, marked.len() as int) =~= mark);
    if ends_with(id, mark) {
        let stem = id.take(id.len() - mark.len());
        assert(id =~= stem + id.subrange(id.len() - mark.len(), id.len() as int));
        assert(id == stem + ":compacted-file-window"@);
    }
}

/// The messages that carry files are found one by one, in their order.
pub proof fn files_are_collected_in_order(first: Seq<MessageModel>, second: Seq<MessageModel>)
    ensures
        file_windows(first + second) == file_windows(first) + file_windows(second),
        first.len() == 0 ==> file_windows(first).len() == 0,
        first.len() == 1 ==> file_windows(first) == if file_window(first[0]) {
            first
        } else {
            Seq::empty()
        },
{
    let carries = |message: MessageModel| file_window(message);
    Seq::filter_distributes_over_add(first, second, carries);
    reveal(Seq::filter);
    reveal_with_fuel(Seq::filter, 2);
    if first.len() == 1 {
        assert(first.drop_last() =~= Seq::empty());
        assert(first =~= Seq::empty().push(first[0]));
    }
}

/// Every message is kept after a compaction, each in its place and each on its own.
pub proof fn messages_are_kept_in_place(messages: Seq<MessageModel>)
    ensures
        all_without_files(messages).len() == messages.len(),
        forall|i: int|
            0 <= i < messages.len() ==> #[trigger] all_without_files(messages)[i] == without_files(
                messages[i],
            ),
{
}

/// Behind something kept, what is left of a text does not depend on what is kept.
proof fn lemma_stripped_behind(first: Seq<char>, second: Seq<char>, rest: Seq<char>)
    requires
        first.len() > 0,
        second.len() > 0,
    ensures
        stripped_after(second, rest).len() >= second.len(),
        stripped_after(second, rest).take(second.len() as int) == second,
        stripped_after(first, rest) == first + stripped_after(second, rest).skip(
            second.len() as int,
        ),
    decreases rest.len(),
{
    reveal_strlit("</selected_context>");
    lemma_selected_block(rest);
    let result = stripped_after(second, rest);
    match find(rest, SELECTED_OPEN@) {
        Some(start) => {
            let piece = trim_end(rest.take(start));
            let first_kept = first + piece;
            let second_kept = second + piece;
            match selected_block(rest) {
                Some((_, end)) => {
                    let after = rest.skip(end + SELECTED_CLOSE@.len());
                    let left = trim_start(after);
                    lemma_trim_start(after);
                    let first_apart = set_apart(first_kept, left);
                    let second_apart = set_apart(second_kept, left);
                    lemma_stripped_behind(first_apart, second_apart, left);
                    let end_piece = second_apart.skip(second.len() as int);
                    assert(first_apart =~= first + end_piece);
                    assert(second_apart =~= second + end_piece);
                    let behind = result.skip(second_apart.len() as int);
                    assert(result =~= second_apart + behind);
                    assert(result =~= second + (end_piece + behind));
                },
                None => {
                    assert(result =~= second + (piece + rest.skip(start)));
                    assert(first_kept + rest.skip(start) =~= first + (piece + rest.skip(start)));
                },
            }
        },
        None => {
            assert(result =~= second + rest);
        },
    }
    assert(result.take(second.len() as int) =~= second);
    assert(stripped_after(first, rest) =~= first + result.skip(second.len() as int));
}

proof fn lemma_trim_end_behind(first: char, text: Seq<char>)
    requires
        !is_white_space(first),
    ensures
        trim_end(seq![first] + text) == seq![first] + trim_end(text),
    decreases text.len(),
{
    let whole = seq![first] + text;
    if text.len() == 0 {
        assert(whole =~= seq![first]);
        assert(whole.last() == first);
        assert(seq![first] + trim_end(text) =~= seq![first]);
    } else if is_white_space(text.last()) {
        assert(whole.drop_last() =~= seq![first] + text.drop_last());
        lemma_trim_end_behind(first, text.drop_last());
    }
}

/// A character in front of a text that starts no tag shifts what is found of its tags.
proof fn lemma_open_in_front(first: char, text: Seq<char>)
    requires
        first != '<',
    ensures
        match find(text, SELECTED_OPEN@) {
            Some(start) => find(seq![first] + text, SELECTED_OPEN@) == Some(start + 1),
            None => find(seq![first] + text, SELECTED_OPEN@) is None,
        },
{
    reveal_strlit("<selected_context>");
    let open = SELECTED_OPEN@;
    let whole = seq![first] + text;
    lemma_selected_block(text);
    assert forall|at: int| #[trigger] occurs_at(whole, open, at) implies occurs_at(
        text,
        open,
        at - 1,
    ) by {
        assert(whole.subrange(at, at + open.len())[0] == whole[at]);
        assert(text.subrange(at - 1, at - 1 + open.len()) =~= whole.subrange(at, at + open.len()));
    }
    if let Some(start) = find(text, open) {
        assert(whole.subrange(start + 1, start + 1 + open.len()) =~= text.subrange(
            start,
            start + open.len(),
        ));
        lemma_find_unique(whole, open, start + 1);
    } else {
        assert(!occurs(whole, open));
    }
}

/// A character in front of a text is kept in front of what is left of it.
proof fn lemma_stripped_in_front(first: char, text: Seq<char>)
    requires
        !is_white_space(first),
        first != '<',
    ensures
        stripped(seq![first] + text) == stripped_after(seq![first], text),
{
    let whole = seq![first] + text;
    lemma_selected_block(text);
    lemma_open_in_front(first, text);
    if let Some(start) = find(text, SELECTED_OPEN@) {
        assert(whole.skip(start + 1) =~= text.skip(start));
        assert(whole.take(start + 1) =~= seq![first] + text.take(start));
        lemma_trim_end_behind(first, text.take(start));
        let kept = seq![first] + trim_end(text.take(start));
        assert(Seq::<char>::empty() + trim_end(whole.take(start + 1)) =~= kept);
        if let Some((_, end)) = selected_block(text) {
            assert(selected_block(whole) == Some((start + 1, end + 1)));
            assert(whole.skip(end + 1 + SELECTED_CLOSE@.len()) =~= text.skip(
                end + SELECTED_CLOSE@.len(),
            ));
        }
    } else {
        assert(Seq::<char>::empty() + whole =~= seq![first] + text);
    }
}

/// An opening tag that is never closed stays with all that follows it; only the white space in
/// front of it goes.
pub proof fn unclosed_blocks_stay(before: Seq<char>, rest: Seq<char>)
    requires
        !occurs(before, "<selected_context>"@),
        !occurs(rest, "</selected_context>"@),
    ensures
        stripped(before + "<selected_context>"@ + rest) == trim_end(before) + "<selected_context>"@
            + rest,
{
    lemma_block_left_open(before, rest);
    assert(Seq::<char>::empty() + trim_end(before) =~= trim_end(before));
    assert(trim_end(before) + (SELECTED_OPEN@ + rest) =~= trim_end(before) + SELECTED_OPEN@ + rest);
}

/// Every closed block is taken out, with the white space around it. What follows it is stripped in
/// its turn: alone where nothing is kept before it, and otherwise set apart by an empty line, as
/// behind any other character.
pub proof fn every_closed_block_is_taken_out(
    before: Seq<char>,
    inside: Seq<char>,
    after: Seq<char>,
    any: char,
)
    requires
        !occurs(before, "<selected_context>"@),
        !occurs(inside, "</selected_context>"@),
        !is_white_space(any),
        any != '<',
    ensures
        ({
            let text = before + "<selected_context>"@ + inside + "</selected_context>"@ + after;
            let kept = trim_end(before);
            let left = trim_start(after);
            let behind = stripped(seq![any] + left);
            &&& kept.len() == 0 ==> stripped(text) == stripped(left)
            &&& left.len() == 0 ==> stripped(text) == kept
            &&& behind.len() > 0 && behind[0] == any
            &&& kept.len() > 0 && left.len() > 0 ==> stripped(text) == kept + seq!['\n', '\n']
                + behind.skip(1)
        }),
{
    reveal_strlit("\n\n");
    let kept = trim_end(before);
    let left = trim_start(after);
    lemma_block_between(before, inside, after);
    assert(Seq::<char>::empty() + kept =~= kept);
    let text = before + SELECTED_OPEN@ + inside + SELECTED_CLOSE@ + after;
    assert(stripped(text) == stripped_after(set_apart(kept, left), left));
    if kept.len() == 0 {
        assert(set_apart(kept, left) =~= Seq::empty());
    }
    if left.len() == 0 {
        assert(!occurs(left, SELECTED_OPEN@)) by {
            reveal_strlit("<selected_context>");
        }
        assert(kept + left =~= kept);
    }
    lemma_stripped_in_front(any, left);
    lemma_stripped_behind(seq![any], seq![any], left);
    assert(stripped_after(seq![any], left).take(1)[0] == any);
    if kept.len() > 0 && left.len() > 0 {
        lemma_stripped_behind(kept + "\n\n"@, seq![any], left);
        assert("\n\n"@ =~= seq!['\n', '\n']);
    }
}

} // verus!
