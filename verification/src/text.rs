//! Text helpers: trimming, quoting and decimal numbers.

use vstd::prelude::*;

verus! {

/// Characters with Unicode's `White_Space` property.
pub open spec fn is_white_space(c: char) -> bool {
    ||| '\u{9}' <= c <= '\u{D}'
    ||| c == ' '
    ||| c == '\u{85}'
    ||| c == '\u{A0}'
    ||| c == '\u{1680}'
    ||| '\u{2000}' <= c <= '\u{200A}'
    ||| c == '\u{2028}'
    ||| c == '\u{2029}'
    ||| c == '\u{202F}'
    ||| c == '\u{205F}'
    ||| c == '\u{3000}'
}

/// `text` without its leading white space.
pub open spec fn trimmed_start(text: Seq<char>) -> Seq<char>
    decreases text.len(),
{
    if text.len() > 0 && is_white_space(text[0]) {
        trimmed_start(text.skip(1))
    } else {
        text
    }
}

/// `text` without its trailing white space.
pub open spec fn trimmed_end(text: Seq<char>) -> Seq<char>
    decreases text.len(),
{
    if text.len() > 0 && is_white_space(text.last()) {
        trimmed_end(text.drop_last())
    } else {
        text
    }
}

/// `text` without the white space around it.
pub open spec fn trimmed(text: Seq<char>) -> Seq<char> {
    trimmed_end(trimmed_start(text))
}

/// `str::trim` removes leading and trailing white space, where white space is
/// what has Unicode's `White_Space` property.
pub assume_specification[ str::trim ](padded: &str) -> (result: &str)
    ensures
        result@ == trimmed(padded@),
;

/// What the `Debug` form of a string slice reads.
pub uninterp spec fn quoted_text(text: Seq<char>) -> Seq<char>;

/// The `Debug` form of `str`: the text in double quotes with escapes, which
/// depends on the text alone. How each character is escaped is not stated.
#[verifier::external_body]
pub(crate) fn quoted(text: &str) -> (result: String)
    ensures
        result@ == quoted_text(text@),
{
    format!("{:?}", text)
}

/// The character for one decimal digit.
pub open spec fn digit(value: nat) -> char {
    if value == 0 {
        '0'
    } else if value == 1 {
        '1'
    } else if value == 2 {
        '2'
    } else if value == 3 {
        '3'
    } else if value == 4 {
        '4'
    } else if value == 5 {
        '5'
    } else if value == 6 {
        '6'
    } else if value == 7 {
        '7'
    } else if value == 8 {
        '8'
    } else {
        '9'
    }
}

/// A number in decimal, without leading zeros.
pub open spec fn decimal(value: nat) -> Seq<char>
    decreases value,
{
    if value < 10 {
        seq![digit(value)]
    } else {
        decimal(value / 10).push(digit(value % 10))
    }
}

/// One decimal digit as text.
fn digit_text(value: usize) -> (result: &'static str)
    requires
        value < 10,
    ensures
        result@ == seq![digit(value as nat)],
{
    proof {
        reveal_strlit("0");
        reveal_strlit("1");
        reveal_strlit("2");
        reveal_strlit("3");
        reveal_strlit("4");
        reveal_strlit("5");
        reveal_strlit("6");
        reveal_strlit("7");
        reveal_strlit("8");
        reveal_strlit("9");
    }
    match value {
        0 => "0",
        1 => "1",
        2 => "2",
        3 => "3",
        4 => "4",
        5 => "5",
        6 => "6",
        7 => "7",
        8 => "8",
        _ => "9",
    }
}

/// `value` in decimal.
pub(crate) fn decimal_text(value: usize) -> (result: String)
    ensures
        result@ == decimal(value as nat),
    decreases value,
{
    let mut result = if value < 10 {
        String::new()
    } else {
        decimal_text(value / 10)
    };
    result.append(digit_text(value % 10));
    assert(value >= 10 ==> result@ =~= decimal((value / 10) as nat).push(
        digit((value % 10) as nat),
    ));
    result
}

/// The characters of `text`, in order.
pub(crate) fn chars_of(text: &str) -> (result: Vec<char>)
    ensures
        result@ == text@,
{
    let mut result: Vec<char> = Vec::new();
    for c in it: text.chars()
        invariant
            result@ == it.seq().take(it.index()),
            it.seq() == text@,
    {
        result.push(c);
    }
    result
}

/// Whether text is white space only.
pub open spec fn is_blank(text: Seq<char>) -> bool {
    forall|i: int| 0 <= i < text.len() ==> is_white_space(#[trigger] text[i])
}

/// Leading white space is dropped before anything else is looked at.
proof fn lemma_trimmed_start_pad(before: Seq<char>, text: Seq<char>)
    requires
        is_blank(before),
    ensures
        trimmed_start(before + text) == trimmed_start(text),
    decreases before.len(),
{
    if before.len() == 0 {
        assert(before + text =~= text);
    } else {
        let fewer = before.skip(1);
        assert forall|i: int| 0 <= i < fewer.len() implies is_white_space(#[trigger] fewer[i]) by {
            assert(fewer[i] == before[i + 1]);
        }
        assert((before + text)[0] == before[0]);
        assert((before + text).skip(1) =~= fewer + text);
        lemma_trimmed_start_pad(fewer, text);
    }
}

/// Trailing white space is dropped before anything else is looked at.
proof fn lemma_trimmed_end_pad(text: Seq<char>, after: Seq<char>)
    requires
        is_blank(after),
    ensures
        trimmed_end(text + after) == trimmed_end(text),
    decreases after.len(),
{
    if after.len() == 0 {
        assert(text + after =~= text);
    } else {
        let fewer = after.drop_last();
        assert forall|i: int| 0 <= i < fewer.len() implies is_white_space(#[trigger] fewer[i]) by {
            assert(fewer[i] == after[i]);
        }
        assert(after[after.len() - 1] == after.last());
        assert((text + after).last() == after.last());
        assert((text + after).drop_last() =~= text + fewer);
        lemma_trimmed_end_pad(text, fewer);
    }
}

/// Text after text that is not all white space stays when the start is trimmed.
proof fn lemma_trimmed_start_keeps(text: Seq<char>, after: Seq<char>)
    ensures
        trimmed_start(text + after) == if trimmed_start(text).len() > 0 {
            trimmed_start(text) + after
        } else {
            trimmed_start(after)
        },
    decreases text.len(),
{
    if text.len() == 0 {
        assert(text + after =~= after);
    } else if is_white_space(text[0]) {
        assert((text + after).skip(1) =~= text.skip(1) + after);
        lemma_trimmed_start_keeps(text.skip(1), after);
    }
}

/// White space around text makes no difference to what trimming leaves.
pub proof fn law_trimmed_ignores_padding(before: Seq<char>, text: Seq<char>, after: Seq<char>)
    requires
        is_blank(before),
        is_blank(after),
    ensures
        trimmed(before + text + after) == trimmed(text),
{
    assert(before + text + after =~= before + (text + after));
    lemma_trimmed_start_pad(before, text + after);
    lemma_trimmed_start_keeps(text, after);
    if trimmed_start(text).len() > 0 {
        lemma_trimmed_end_pad(trimmed_start(text), after);
    } else {
        let none = Seq::<char>::empty();
        assert(after + none =~= after);
        lemma_trimmed_start_pad(after, none);
        assert(trimmed_start(text) =~= none);
    }
}

/// Trimming cuts white space off both ends and nothing more: what is left
/// neither begins nor ends with white space, and what was cut off is blank.
pub proof fn law_trimmed_cuts_white_space_only(text: Seq<char>)
    ensures
        trimmed(text).len() > 0 ==> !is_white_space(trimmed(text)[0]) && !is_white_space(
            trimmed(text).last(),
        ),
        exists|from: int, to: int|
            0 <= from <= to <= text.len() && trimmed(text) == #[trigger] text.subrange(from, to)
                && (forall|i: int|
                0 <= i < text.len() && !(from <= i < to) ==> is_white_space(#[trigger] text[i])),
{
    let from = lemma_trimmed_start_at(text);
    let start = trimmed_start(text);
    let kept = lemma_trimmed_end_at(start);
    let to = from + kept;
    assert(text.subrange(from, to) =~= start.subrange(0, kept));
    assert forall|i: int| 0 <= i < text.len() && !(from <= i < to) implies is_white_space(
        #[trigger] text[i],
    ) by {
        if i >= to {
            assert(start[i - from] == text[i]);
        }
    }
    assert(trimmed(text).len() > 0 ==> trimmed(text)[0] == start[0]);
}

/// Where the text without leading white space begins.
proof fn lemma_trimmed_start_at(text: Seq<char>) -> (from: int)
    ensures
        0 <= from <= text.len(),
        trimmed_start(text) == text.subrange(from, text.len() as int),
        from < text.len() ==> !is_white_space(text[from]),
        forall|i: int| 0 <= i < from ==> is_white_space(#[trigger] text[i]),
    decreases text.len(),
{
    if text.len() > 0 && is_white_space(text[0]) {
        let rest = text.skip(1);
        let from = lemma_trimmed_start_at(rest) + 1;
        assert(rest.subrange(from - 1, rest.len() as int) =~= text.subrange(
            from,
            text.len() as int,
        ));
        assert forall|i: int| 0 <= i < from implies is_white_space(#[trigger] text[i]) by {
            if i > 0 {
                assert(rest[i - 1] == text[i]);
            }
        }
        assert(from < text.len() ==> rest[from - 1] == text[from]);
        from
    } else {
        assert(text.subrange(0, text.len() as int) =~= text);
        0
    }
}

/// Where the text without trailing white space ends.
proof fn lemma_trimmed_end_at(text: Seq<char>) -> (to: int)
    ensures
        0 <= to <= text.len(),
        trimmed_end(text) == text.subrange(0, to),
        to > 0 ==> !is_white_space(text[to - 1]),
        forall|i: int| to <= i < text.len() ==> is_white_space(#[trigger] text[i]),
    decreases text.len(),
{
    if text.len() > 0 && is_white_space(text.last()) {
        let rest = text.drop_last();
        let to = lemma_trimmed_end_at(rest);
        assert(rest.subrange(0, to) =~= text.subrange(0, to));
        assert forall|i: int| to <= i < text.len() implies is_white_space(#[trigger] text[i]) by {
            if i < rest.len() {
                assert(rest[i] == text[i]);
            }
        }
        to
    } else {
        assert(text.subrange(0, text.len() as int) =~= text);
        text.len() as int
    }
}

/// Spaces, tabs and line ends are white space; visible ASCII is not.
pub proof fn law_ascii_white_space(c: char)
    ensures
        c == ' ' || c == '\t' || c == '\n' || c == '\r' ==> is_white_space(c),
        '!' <= c <= '~' ==> !is_white_space(c),
{
}

/// The number that decimal digits stand for.
pub open spec fn decimal_value(digits: Seq<char>) -> int
    decreases digits.len(),
{
    if digits.len() == 0 {
        0
    } else {
        10 * decimal_value(digits.drop_last()) + (digits.last() as int - '0' as int)
    }
}

/// A number in decimal is digits that stand for that number, with no zero in
/// front unless that is all there is.
pub proof fn law_decimal_stands_for_its_number(value: nat)
    ensures
        decimal_value(decimal(value)) == value,
        decimal(value).len() > 0,
        forall|i: int| 0 <= i < decimal(value).len() ==> '0' <= #[trigger] decimal(value)[i] <= '9',
        decimal(value)[0] == '0' ==> value == 0 && decimal(value).len() == 1,
    decreases value,
{
    if value < 10 {
        reveal_with_fuel(decimal_value, 2);
        assert(decimal(value).drop_last() =~= Seq::empty());
    } else {
        let front = decimal(value / 10);
        law_decimal_stands_for_its_number(value / 10);
        assert(decimal(value).drop_last() =~= front);
        assert(decimal(value)[0] == front[0]);
        assert forall|i: int| 0 <= i < decimal(value).len() implies '0'
            <= #[trigger] decimal(value)[i] <= '9' by {
            if i < front.len() {
                assert(decimal(value)[i] == front[i]);
            }
        }
    }
}

} // verus!
