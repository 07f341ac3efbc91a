//! Searching, trimming and rendering text, stated over sequences of characters.
use vstd::prelude::*;

verus! {

/// Whether `pattern` stands in `text` at position `at`.
pub open spec fn occurs_at(text: Seq<char>, pattern: Seq<char>, at: int) -> bool {
    &&& 0 <= at
    &&& at + pattern.len() <= text.len()
    &&& text.subrange(at, at + pattern.len()) =~= pattern
}

/// Whether `pattern` stands anywhere in `text`.
pub open spec fn occurs(text: Seq<char>, pattern: Seq<char>) -> bool {
    exists|at: int| occurs_at(text, pattern, at)
}

/// Whether `at` is the leftmost position of `pattern` in `text`.
pub open spec fn occurs_first_at(text: Seq<char>, pattern: Seq<char>, at: int) -> bool {
    &&& occurs_at(text, pattern, at)
    &&& forall|before: int| before < at ==> !occurs_at(text, pattern, before)
}

/// The leftmost position of `pattern` in `text`.
pub open spec fn find(text: Seq<char>, pattern: Seq<char>) -> Option<int> {
    if occurs(text, pattern) {
        Some(choose|at: int| occurs_first_at(text, pattern, at))
    } else {
        None
    }
}

/// Whether `text` begins with `prefix`.
pub open spec fn starts_with(text: Seq<char>, prefix: Seq<char>) -> bool {
    occurs_at(text, prefix, 0)
}

/// Whether `text` ends with `suffix`.
pub open spec fn ends_with(text: Seq<char>, suffix: Seq<char>) -> bool {
    occurs_at(text, suffix, text.len() - suffix.len())
}

/// A pattern that occurs has a leftmost position.
pub proof fn lemma_find_exists(text: Seq<char>, pattern: Seq<char>, at: int)
    requires
        occurs_at(text, pattern, at),
    ensures
        find(text, pattern) matches Some(first) && occurs_first_at(text, pattern, first) && first
            <= at,
    decreases at,
{
    if exists|before: int| before < at && occurs_at(text, pattern, before) {
        let before = choose|before: int| before < at && occurs_at(text, pattern, before);
        lemma_find_exists(text, pattern, before);
    } else {
        assert(occurs_first_at(text, pattern, at));
        assert(occurs(text, pattern));
    }
}

/// The leftmost position of a pattern is its only leftmost position.
pub proof fn lemma_find_unique(text: Seq<char>, pattern: Seq<char>, at: int)
    requires
        occurs_first_at(text, pattern, at),
    ensures
        find(text, pattern) == Some(at),
{
    lemma_find_exists(text, pattern, at);
    let first = find(text, pattern)->0;
    assert(occurs_first_at(text, pattern, first));
}

/// The characters of a text.
pub fn chars_of(text: &str) -> (chars: Vec<char>)
    ensures
        chars@ == text@,
{
    let mut chars: Vec<char> = Vec::new();
    for c in it: text.chars()
        invariant
            it.seq() == text@,
            chars@ == text@.take(it.index() as int),
    {
        proof {
            let index = it.index() as int;
            assert(text@.take(index + 1) =~= text@.take(index).push(text@[index]));
        }
        chars.push(c);
    }
    proof {
        assert(text@.take(text@.len() as int) =~= text@);
    }
    chars
}

/// Whether `pattern` stands in `text` at position `at`.
pub fn matches_at(text: &[char], pattern: &[char], at: usize) -> (found: bool)
    ensures
        found == occurs_at(text@, pattern@, at as int),
{
    if pattern.len() > text.len() || at > text.len() - pattern.len() {
        return false;
    }
    let mut i: usize = 0;
    while i < pattern.len()
        invariant
            at + pattern@.len() <= text.len(),
            i <= pattern@.len(),
            forall|k: int| 0 <= k < i ==> text@[at + k] == pattern@[k],
        decreases pattern.len() - i,
    {
        if text[at + i] != pattern[i] {
            proof {
                assert(text@.subrange(at as int, at + pattern@.len())[i as int] == text@[at + i]);
            }
            return false;
        }
        i += 1;
    }
    true
}

/// The leftmost position of `pattern` in `text` at or after `from`, counted from `from`.
pub fn find_from(text: &[char], pattern: &[char], from: usize) -> (at: Option<usize>)
    requires
        from <= text@.len(),
    ensures
        match (at, find(text@.skip(from as int), pattern@)) {
            (Some(exec), Some(first)) => exec == first,
            (None, None) => true,
            _ => false,
        },
        at matches Some(first) ==> from + first + pattern@.len() <= text.len(),
{
    let ghost rest = text@.skip(from as int);
    let mut at: usize = from;
    while pattern.len() <= text.len() - at
        invariant
            from <= at <= text.len(),
            rest == text@.skip(from as int),
            forall|before: int| before < at - from ==> !occurs_at(rest, pattern@, before),
        decreases text.len() - at,
    {
        proof {
            lemma_occurs_in_rest(text@, pattern@, from as int, at - from);
        }
        if matches_at(text, pattern, at) {
            proof {
                lemma_find_unique(rest, pattern@, at - from);
            }
            return Some(at - from);
        }
        if pattern.len() == 0 {
            proof {
                assert(occurs_at(text@, pattern@, at as int));
            }
        }
        at += 1;
    }
    None
}

proof fn lemma_occurs_in_rest(text: Seq<char>, pattern: Seq<char>, from: int, at: int)
    requires
        0 <= from <= text.len(),
        0 <= at,
    ensures
        occurs_at(text.skip(from), pattern, at) <==> occurs_at(text, pattern, from + at),
{
    if from + at + pattern.len() <= text.len() {
        assert(text.skip(from).subrange(at, at + pattern.len()) =~= text.subrange(
            from + at,
            from + at + pattern.len(),
        ));
    }
}

/// Whether `pattern` stands anywhere in `text`.
pub fn contains(text: &[char], pattern: &str) -> (found: bool)
    ensures
        found == occurs(text@, pattern@),
{
    let pattern = chars_of(pattern);
    proof {
        assert(text@.skip(0) =~= text@);
    }
    find_from(text, &pattern, 0).is_some()
}

/// Whether `text` begins with `prefix`.
pub fn has_prefix(text: &str, prefix: &str) -> (found: bool)
    ensures
        found == starts_with(text@, prefix@),
{
    matches_at(&chars_of(text), &chars_of(prefix), 0)
}

/// Whether `text` ends with `suffix`.
pub fn has_suffix(text: &str, suffix: &str) -> (found: bool)
    ensures
        found == ends_with(text@, suffix@),
{
    let text = chars_of(text);
    let suffix = chars_of(suffix);
    suffix.len() <= text.len() && matches_at(&text, &suffix, text.len() - suffix.len())
}

/// Whether two texts hold the same characters.
pub fn same_text(left: &str, right: &str) -> (same: bool)
    ensures
        same == (left@ == right@),
{
    let left = chars_of(left);
    let right = chars_of(right);
    proof {
        assert(left@.subrange(0, left@.len() as int) =~= left@);
    }
    left.len() == right.len() && matches_at(&left, &right, 0)
}

/// The characters with the Unicode property `White_Space`.
pub open spec fn is_white_space(c: char) -> bool {
    let code = c as u32;
    ||| 0x9 <= code <= 0xd
    ||| code == 0x20
    ||| code == 0x85
    ||| code == 0xa0
    ||| code == 0x1680
    ||| 0x2000 <= code <= 0x200a
    ||| code == 0x2028
    ||| code == 0x2029
    ||| code == 0x202f
    ||| code == 0x205f
    ||| code == 0x3000
}

/// `text` without its leading white space.
pub open spec fn trim_start(text: Seq<char>) -> Seq<char>
    decreases text.len(),
{
    if text.len() > 0 && is_white_space(text.first()) {
        trim_start(text.drop_first())
    } else {
        text
    }
}

/// `text` without its trailing white space.
pub open spec fn trim_end(text: Seq<char>) -> Seq<char>
    decreases text.len(),
{
    if text.len() > 0 && is_white_space(text.last()) {
        trim_end(text.drop_last())
    } else {
        text
    }
}

/// Whether a character has the Unicode property `White_Space`.
pub fn white_space(c: char) -> (white: bool)
    ensures
        white == is_white_space(c),
{
    let code: u32 = c as u32;
    (0x9 <= code && code <= 0xd) || code == 0x20 || code == 0x85 || code == 0xa0 || code == 0x1680
        || (0x2000 <= code && code <= 0x200a) || code == 0x2028 || code == 0x2029 || code == 0x202f
        || code == 0x205f || code == 0x3000
}

/// Where the text that begins at `from` starts once its leading white space is gone.
pub fn skip_white_space(text: &[char], from: usize) -> (start: usize)
    requires
        from <= text@.len(),
    ensures
        from <= start <= text@.len(),
        text@.skip(start as int) == trim_start(text@.skip(from as int)),
{
    let mut start: usize = from;
    while start < text.len() && white_space(text[start])
        invariant
            from <= start <= text@.len(),
            trim_start(text@.skip(start as int)) == trim_start(text@.skip(from as int)),
        decreases text.len() - start,
    {
        proof {
            assert(text@.skip(start as int).drop_first() =~= text@.skip(start + 1));
        }
        start += 1;
    }
    start
}

/// Where the text that begins at `from` and ends at `to` ends once its trailing white space is
/// gone.
pub fn drop_white_space(text: &[char], from: usize, to: usize) -> (end: usize)
    requires
        from <= to <= text@.len(),
    ensures
        from <= end <= to,
        text@.subrange(from as int, end as int) == trim_end(text@.subrange(from as int, to as int)),
{
    let mut end: usize = to;
    while from < end && white_space(text[end - 1])
        invariant
            from <= end <= to <= text@.len(),
            trim_end(text@.subrange(from as int, end as int)) == trim_end(
                text@.subrange(from as int, to as int),
            ),
        decreases end,
    {
        proof {
            assert(text@.subrange(from as int, end as int).drop_last() =~= text@.subrange(
                from as int,
                end - 1,
            ));
        }
        end -= 1;
    }
    end
}

/// The ASCII lower case of a character; other characters stay as they are.
pub open spec fn ascii_lower(c: char) -> char {
    if 'A' <= c <= 'Z' {
        (c as u32 + 0x20) as char
    } else {
        c
    }
}

/// `text` with every ASCII letter in lower case.
pub open spec fn ascii_lowercase(text: Seq<char>) -> Seq<char> {
    text.map_values(|c: char| ascii_lower(c))
}

/// The characters of `text` with every ASCII letter in lower case.
pub fn lowercase(text: &str) -> (lowered: Vec<char>)
    ensures
        lowered@ == ascii_lowercase(text@),
{
    let mut chars = chars_of(text);
    let mut i: usize = 0;
    while i < chars.len()
        invariant
            i <= chars@.len(),
            chars@.len() == text@.len(),
            forall|k: int| 0 <= k < i ==> chars@[k] == ascii_lower(text@[k]),
            forall|k: int| i <= k < chars@.len() ==> chars@[k] == text@[k],
        decreases chars.len() - i,
    {
        let c: char = chars[i];
        if 'A' <= c && c <= 'Z' {
            chars[i] = (c as u8 + 0x20) as char;
        }
        i += 1;
    }
    chars
}

/// The decimal digits of a number.
pub open spec fn decimal(n: nat) -> Seq<char>
    decreases n,
{
    let digit = seq![('0' as u32 + n % 10) as char];
    if n < 10 {
        digit
    } else {
        decimal(n / 10) + digit
    }
}

fn digit_text(digit: u64) -> (text: &'static str)
    requires
        digit < 10,
    ensures
        text@ == seq![('0' as u32 + digit) as char],
{
    proof {
        reveal_strlit("0");
        reveal_strlit("1");
        reveal_strlit("2");
        reveal_strlit("3");
        reveal_strlit("4");
        reveal_strlit("5");
        reveal_strlit("6");
        reveal_strlit("7");
        reveal_strlit("8");
        reveal_strlit("9");
    }
    match digit {
        0 => "0",
        1 => "1",
        2 => "2",
        3 => "3",
        4 => "4",
        5 => "5",
        6 => "6",
        7 => "7",
        8 => "8",
        _ => "9",
    }
}

/// A number in decimal.
pub fn decimal_text(n: u64) -> (text: String)
    ensures
        text@ == decimal(n as nat),
    decreases n,
{
    if n < 10 {
        digit_text(n).to_owned()
    } else {
        let mut text = decimal_text(n / 10);
        text.append(digit_text(n % 10));
        text
    }
}

/// A pattern occurs in a text exactly when the text is something, the pattern, and something.
pub proof fn occurring_is_standing_between(text: Seq<char>, pattern: Seq<char>)
    ensures
        occurs(text, pattern) <==> exists|before: Seq<char>, after: Seq<char>|
            text == #[trigger] (before + pattern + after),
{
    if occurs(text, pattern) {
        let at = choose|at: int| occurs_at(text, pattern, at);
        let before = text.take(at);
        let after = text.skip(at + pattern.len());
        assert(text =~= before + pattern + after) by {
            assert forall|i: int| 0 <= i < text.len() implies text[i] == (before + pattern
                + after)[i] by {
                if at <= i < at + pattern.len() {
                    assert(text.subrange(at, at + pattern.len())[i - at] == text[i]);
                }
            }
        }
    }
    if exists|before: Seq<char>, after: Seq<char>|
        text == #[trigger] (before + pattern + after) {
        let (before, after) = choose|before: Seq<char>, after: Seq<char>|
            text == #[trigger] (before + pattern + after);
        assert(text.subrange(before.len() as int, (before.len() + pattern.len()) as int) =~= pattern);
        assert(occurs_at(text, pattern, before.len() as int));
    }
}

/// The position that is found is that of the pattern, and no position of the pattern lies further
/// left; where the pattern occurs a position is found.
pub proof fn finding_is_leftmost(before: Seq<char>, pattern: Seq<char>, after: Seq<char>)
    ensures
        find(before + pattern + after, pattern) matches Some(at) && ({
            let text = before + pattern + after;
            &&& 0 <= at <= before.len()
            &&& text == text.take(at) + pattern + text.skip(at + pattern.len())
        }),
{
    let text = before + pattern + after;
    assert(text.subrange(before.len() as int, (before.len() + pattern.len()) as int) =~= pattern);
    lemma_find_exists(text, pattern, before.len() as int);
    let at = find(text, pattern)->0;
    assert forall|i: int| 0 <= i < text.len() implies text[i] == (text.take(at) + pattern
        + text.skip(at + pattern.len()))[i] by {
        if at <= i < at + pattern.len() {
            assert(text.subrange(at, at + pattern.len())[i - at] == text[i]);
        }
    }
    assert(text =~= text.take(at) + pattern + text.skip(at + pattern.len()));
}

/// What is found occurs: in a text that is not something, the pattern, and something, nothing is
/// found.
pub proof fn finding_needs_an_occurrence(text: Seq<char>, pattern: Seq<char>)
    requires
        forall|before: Seq<char>, after: Seq<char>| text != #[trigger] (before + pattern + after),
    ensures
        find(text, pattern) is None,
{
    occurring_is_standing_between(text, pattern);
}

/// A text starts with what it is continued from, and ends with what continues it.
pub proof fn prefixes_and_suffixes_are_the_ends(text: Seq<char>, part: Seq<char>)
    ensures
        starts_with(text, part) <==> exists|rest: Seq<char>| text == #[trigger] (part + rest),
        ends_with(text, part) <==> exists|rest: Seq<char>| text == #[trigger] (rest + part),
{
    if starts_with(text, part) {
        assert(text =~= part + text.skip(part.len() as int)) by {
            assert(text.subrange(0, part.len() as int) =~= text.take(part.len() as int));
        }
    }
    if exists|rest: Seq<char>| text == #[trigger] (part + rest) {
        let rest = choose|rest: Seq<char>| text == #[trigger] (part + rest);
        assert(text.subrange(0, part.len() as int) =~= part);
    }
    if ends_with(text, part) {
        let at = text.len() - part.len();
        assert(text =~= text.take(at) + part) by {
            assert(text.subrange(at, at + part.len()) =~= text.skip(at));
        }
    }
    if exists|rest: Seq<char>| text == #[trigger] (rest + part) {
        let rest = choose|rest: Seq<char>| text == #[trigger] (rest + part);
        assert(text.subrange(rest.len() as int, (rest.len() + part.len()) as int) =~= part);
    }
}

/// Trimming the beginning takes away exactly the white space that a text begins with.
pub proof fn trimming_the_beginning_takes_white_space(white: Seq<char>, rest: Seq<char>)
    requires
        forall|i: int| 0 <= i < white.len() ==> is_white_space(#[trigger] white[i]),
        rest.len() == 0 || !is_white_space(rest.first()),
    ensures
        trim_start(white + rest) == rest,
    decreases white.len(),
{
    if white.len() == 0 {
        assert(white + rest =~= rest);
    } else {
        assert((white + rest).drop_first() =~= white.drop_first() + rest);
        assert forall|i: int| 0 <= i < white.drop_first().len() implies is_white_space(
            #[trigger] white.drop_first()[i],
        ) by {
            assert(white.drop_first()[i] == white[i + 1]);
        }
        trimming_the_beginning_takes_white_space(white.drop_first(), rest);
    }
}

/// Trimming the end takes away exactly the white space that a text ends with.
pub proof fn trimming_the_end_takes_white_space(rest: Seq<char>, white: Seq<char>)
    requires
        forall|i: int| 0 <= i < white.len() ==> is_white_space(#[trigger] white[i]),
        rest.len() == 0 || !is_white_space(rest.last()),
    ensures
        trim_end(rest + white) == rest,
    decreases white.len(),
{
    if white.len() == 0 {
        assert(rest + white =~= rest);
    } else {
        assert((rest + white).drop_last() =~= rest + white.drop_last());
        trimming_the_end_takes_white_space(rest, white.drop_last());
    }
}

/// Lower case changes the ASCII letters from `A` to `Z`, by the distance of `a` from `A`, and
/// nothing else.
pub proof fn lower_case_moves_capital_letters(text: Seq<char>, i: int)
    requires
        0 <= i < text.len(),
    ensures
        ascii_lowercase(text).len() == text.len(),
        'A' <= text[i] <= 'Z' ==> ascii_lowercase(text)[i] as int - 'a' as int == text[i] as int
            - 'A' as int,
        text[i] < 'A' || 'Z' < text[i] ==> ascii_lowercase(text)[i] == text[i],
{
}

/// The number that decimal digits stand for.
pub open spec fn number_of(digits: Seq<char>) -> int
    decreases digits.len(),
{
    if digits.len() == 0 {
        0
    } else {
        10 * number_of(digits.drop_last()) + (digits.last() as int - '0' as int)
    }
}

/// The decimal digits of a number stand for it; there are no others among them, and no zero is
/// put in front.
pub proof fn decimal_digits_stand_for_the_number(n: nat)
    ensures
        number_of(decimal(n)) == n,
        decimal(n).len() > 0,
        forall|i: int| 0 <= i < decimal(n).len() ==> '0' <= #[trigger] decimal(n)[i] <= '9',
        decimal(n)[0] == '0' ==> n == 0,
    decreases n,
{
    let digits = decimal(n);
    reveal_with_fuel(number_of, 2);
    if n < 10 {
        assert(digits.drop_last() =~= Seq::empty());
    } else {
        decimal_digits_stand_for_the_number(n / 10);
        assert(digits.drop_last() =~= decimal(n / 10));
        assert(digits[0] == decimal(n / 10)[0]);
        assert forall|i: int| 0 <= i < digits.len() implies '0' <= #[trigger] digits[i] <= '9' by {
            if i < digits.len() - 1 {
                assert(digits[i] == decimal(n / 10)[i]);
            }
        }
    }
}

/// White space are the line and paragraph breaks, the tabs and the spaces of Unicode, and no other
/// characters.
pub proof fn white_space_is_breaks_tabs_and_spaces(c: char)
    ensures
        is_white_space(c) <==> {
            let breaks = c == '\n' || c == '\u{b}' || c == '\u{c}' || c == '\r' || c == '\u{85}'
                || c == '\u{2028}' || c == '\u{2029}';
            let spaces = c == ' ' || c == '\u{a0}' || c == '\u{1680}' || '\u{2000}' <= c
                <= '\u{200a}' || c == '\u{202f}' || c == '\u{205f}' || c == '\u{3000}';
            breaks || c == '\t' || spaces
        },
{
}

} // verus!
