//! Text: the segments of a path, and numbers in decimal.

use vstd::prelude::*;
use vstd::string::*;

verus! {

/// Every string as its characters.
pub open spec fn texts(list: Seq<String>) -> Seq<Seq<char>> {
    list.map_values(|text: String| text@)
}

/// `text` cut at every `mark`: one part more than there are marks, some of them empty.
pub open spec fn cut_at(text: Seq<char>, mark: char) -> Seq<Seq<char>>
    decreases text.len(),
{
    if text.len() == 0 {
        seq![Seq::empty()]
    } else {
        let parts = cut_at(text.drop_last(), mark);
        if text.last() == mark {
            parts.push(Seq::empty())
        } else {
            parts.update(parts.len() - 1, parts.last().push(text.last()))
        }
    }
}

/// The parts of `path` between its slashes, without the empty ones.
pub open spec fn segments_of(path: Seq<char>) -> Seq<Seq<char>> {
    cut_at(path, '/').filter(|part: Seq<char>| part.len() > 0)
}

proof fn lemma_cut_is_not_empty(text: Seq<char>, mark: char)
    ensures
        cut_at(text, mark).len() > 0,
    decreases text.len(),
{
    if text.len() > 0 {
        lemma_cut_is_not_empty(text.drop_last(), mark);
    }
}

proof fn lemma_parts_hold_no_mark(text: Seq<char>, mark: char)
    ensures
        forall|i: int|
            0 <= i < cut_at(text, mark).len() ==> !(#[trigger] cut_at(text, mark)[i]).contains(mark),
    decreases text.len(),
{
    if text.len() > 0 {
        lemma_parts_hold_no_mark(text.drop_last(), mark);
        lemma_cut_is_not_empty(text.drop_last(), mark);
        let parts = cut_at(text.drop_last(), mark);
        assert forall|i: int| 0 <= i < cut_at(text, mark).len() implies !(#[trigger] cut_at(
            text,
            mark,
        )[i]).contains(mark) by {
            if text.last() != mark && i == parts.len() - 1 {
                let part = parts[i];
                assert forall|k: int| 0 <= k < part.push(text.last()).len() implies part.push(
                    text.last(),
                )[k] != mark by {
                    if k < part.len() {
                        assert(part.contains(part[k]));
                    }
                }
            }
        }
    }
}

/// No segment is empty and no segment holds a slash.
pub proof fn law_segments_are_plain(path: Seq<char>)
    ensures
        forall|i: int|
            0 <= i < segments_of(path).len() ==> (#[trigger] segments_of(path)[i]).len() > 0
                && !segments_of(path)[i].contains('/'),
{
    let parts = cut_at(path, '/');
    let kept = |part: Seq<char>| part.len() > 0;
    lemma_parts_hold_no_mark(path, '/');
    assert forall|i: int| 0 <= i < segments_of(path).len() implies (#[trigger] segments_of(
        path,
    )[i]).len() > 0 && !segments_of(path)[i].contains('/') by {
        let part = parts.filter(kept)[i];
        parts.lemma_filter_pred(kept, i);
        assert(parts.filter(kept).contains(part));
        parts.lemma_filter_contains_rev(kept, part);
    }
}

/// A slash at the end of a path, or one more of them, changes no segment.
pub proof fn law_trailing_slash_is_ignored(path: Seq<char>)
    ensures
        segments_of(path.push('/')) == segments_of(path),
{
    let parts = cut_at(path, '/');
    let kept = |part: Seq<char>| part.len() > 0;
    assert(path.push('/').drop_last() =~= path);
    let more = parts.push(Seq::empty());
    assert(cut_at(path.push('/'), '/') == more);
    assert(more.drop_last() =~= parts);
    reveal(Seq::filter);
}

/// The segments of `path`, in order.
pub fn segments(path: &str) -> (list: Vec<String>)
    ensures
        texts(list@) == segments_of(path@),
        list@.len() == segments_of(path@).len(),
        forall|i: int| 0 <= i < list@.len() ==> (#[trigger] list@[i])@ == segments_of(path@)[i],
{
    let ghost kept = |part: Seq<char>| part.len() > 0;
    let ghost whole = path@;
    let mut list: Vec<String> = Vec::new();
    let length: usize = path.unicode_len();
    let mut start: usize = 0;
    let mut i: usize = 0;
    proof {
        reveal(Seq::filter);
        assert(whole.take(0) =~= Seq::empty());
        assert(cut_at(whole.take(0), '/').drop_last() =~= Seq::empty());
        assert(texts(list@) =~= Seq::empty());
    }
    for c in chars: path.chars()
        invariant
            whole == path@,
            chars.seq() == whole,
            i == chars.index(),
            start <= i <= whole.len() <= usize::MAX,
            kept == (|part: Seq<char>| part.len() > 0),
            cut_at(whole.take(i as int), '/').len() > 0,
            cut_at(whole.take(i as int), '/').last() == whole.subrange(start as int, i as int),
            texts(list@) == cut_at(whole.take(i as int), '/').drop_last().filter(kept),
    {
        let ghost before = cut_at(whole.take(i as int), '/');
        let ghost list_before = list@;
        proof {
            assert(whole.take(i + 1).drop_last() =~= whole.take(i as int));
            assert(whole.take(i + 1).last() == whole[i as int]);
            reveal(Seq::filter);
        }
        if c == '/' {
            proof {
                let after = cut_at(whole.take(i + 1), '/');
                assert(after.drop_last() =~= before);
            }
            if start < i {
                let part: String = path.substring_char(start, i).to_owned();
                list.push(part);
                proof {
                    assert(texts(list@) =~= texts(list_before).push(part@));
                }
            }
            start = i + 1;
        } else {
            proof {
                let after = cut_at(whole.take(i + 1), '/');
                assert(after.drop_last() =~= before.drop_last());
                assert(whole.subrange(start as int, i as int).push(whole[i as int])
                    =~= whole.subrange(start as int, i + 1));
            }
        }
        i = i + 1;
    }
    let ghost list_before = list@;
    proof {
        assert(whole.take(length as int) =~= whole);
        reveal(Seq::filter);
    }
    if start < length {
        let part: String = path.substring_char(start, length).to_owned();
        list.push(part);
        proof {
            assert(texts(list@) =~= texts(list_before).push(part@));
        }
    }
    proof {
        assert(texts(list@).len() == list@.len());
        assert forall|i: int| 0 <= i < list@.len() implies (#[trigger] list@[i])@ == segments_of(
            path@,
        )[i] by {
            assert(texts(list@)[i] == list@[i]@);
        }
    }
    list
}

/// A path made of `list`: every segment after a slash of its own.
pub open spec fn path_of(list: Seq<Seq<char>>) -> Seq<char>
    decreases list.len(),
{
    if list.len() == 0 {
        Seq::empty()
    } else {
        path_of(list.drop_last()).push('/') + list.last()
    }
}

proof fn lemma_cut_after_mark(front: Seq<char>, back: Seq<char>, mark: char)
    requires
        !back.contains(mark),
    ensures
        cut_at(front.push(mark) + back, mark) == cut_at(front, mark).push(back),
    decreases back.len(),
{
    let text = front.push(mark) + back;
    if back.len() == 0 {
        assert(text.drop_last() =~= front);
        assert(back =~= Seq::empty());
    } else {
        let rest = back.drop_last();
        assert(back.contains(back.last()));
        assert(!rest.contains(mark)) by {
            if rest.contains(mark) {
                let k = choose|k: int| 0 <= k < rest.len() && rest[k] == mark;
                assert(back[k] == mark);
            }
        }
        lemma_cut_after_mark(front, rest, mark);
        assert(text.drop_last() =~= front.push(mark) + rest);
        assert(rest.push(back.last()) =~= back);
        let parts = cut_at(front, mark);
        assert(parts.push(rest).update(parts.len() as int, back) =~= parts.push(back));
    }
}

/// A path gives back the segments that it was made of.
pub proof fn law_segments_of_path(list: Seq<Seq<char>>)
    requires
        forall|i: int|
            0 <= i < list.len() ==> (#[trigger] list[i]).len() > 0 && !list[i].contains('/'),
    ensures
        segments_of(path_of(list)) == list,
    decreases list.len(),
{
    let kept = |part: Seq<char>| part.len() > 0;
    reveal(Seq::filter);
    if list.len() == 0 {
        let parts = cut_at(path_of(list), '/');
        assert(parts.drop_last().filter(kept) =~= Seq::empty());
        assert(parts.filter(kept) =~= list);
    } else {
        let front = list.drop_last();
        assert forall|i: int| 0 <= i < front.len() implies (#[trigger] front[i]).len() > 0
            && !front[i].contains('/') by {
            assert(front[i] == list[i]);
        }
        law_segments_of_path(front);
        lemma_cut_after_mark(path_of(front), list.last(), '/');
        let parts = cut_at(path_of(front), '/');
        assert(parts.push(list.last()).drop_last() =~= parts);
        assert(front.push(list.last()) =~= list);
    }
}

/// The number that a run of decimal digits stands for.
pub open spec fn decimal_value(digits: Seq<char>) -> nat
    decreases digits.len(),
{
    if digits.len() == 0 {
        0
    } else {
        10 * decimal_value(digits.drop_last()) + (digits.last() as nat - '0' as nat) as nat
    }
}

/// Whether there is at least one character and every one is a decimal digit.
pub open spec fn is_decimal(text: Seq<char>) -> bool {
    text.len() > 0 && forall|i: int| 0 <= i < text.len() ==> '0' <= #[trigger] text[i] <= '9'
}

/// The digits of an unsigned number: what follows a plus sign, or the whole text without one.
pub open spec fn unsigned_digits(text: Seq<char>) -> Seq<char> {
    if text.len() > 0 && text[0] == '+' {
        text.skip(1)
    } else {
        text
    }
}

/// The number that `text` writes, an unsigned decimal that may start with a plus sign.
pub open spec fn unsigned_value(text: Seq<char>) -> Option<nat> {
    let digits = unsigned_digits(text);
    if is_decimal(digits) {
        Some(decimal_value(digits))
    } else {
        None
    }
}

/// `number` in decimal, without leading zeros.
pub open spec fn decimal(number: nat) -> Seq<char>
    decreases number,
{
    let last = ('0' as nat + number % 10) as char;
    if number < 10 {
        seq![last]
    } else {
        decimal(number / 10).push(last)
    }
}

proof fn lemma_value_grows(digits: Seq<char>, count: int)
    requires
        0 <= count <= digits.len(),
    ensures
        decimal_value(digits.take(count)) <= decimal_value(digits),
    decreases digits.len() - count,
{
    if count < digits.len() {
        lemma_value_grows(digits, count + 1);
        assert(digits.take(count + 1).drop_last() =~= digits.take(count));
    } else {
        assert(digits.take(count) =~= digits);
    }
}

proof fn lemma_decimal_is_decimal(number: nat)
    ensures
        is_decimal(decimal(number)),
        decimal_value(decimal(number)) == number,
    decreases number,
{
    let last = ('0' as nat + number % 10) as char;
    assert('0' <= last <= '9');
    if number < 10 {
        assert(seq![last].drop_last() =~= Seq::empty());
        assert(decimal_value(Seq::<char>::empty()) == 0);
    } else {
        lemma_decimal_is_decimal(number / 10);
        assert(decimal(number / 10).push(last).drop_last() =~= decimal(number / 10));
    }
}

/// Reading a number gives back what was written.
pub proof fn law_value_of_decimal(number: nat)
    ensures
        unsigned_value(decimal(number)) == Some(number),
{
    lemma_decimal_is_decimal(number);
    assert('0' <= decimal(number)[0] <= '9');
}

/// Reads an unsigned number. There is none where the text is no unsigned decimal, and none where
/// the number does not fit.
pub fn parse_u64(text: &str) -> (number: Option<u64>)
    ensures
        number == (match unsigned_value(text@) {
            Some(value) if value <= u64::MAX => Some(value as u64),
            _ => None,
        }),
{
    let ghost whole = text@;
    let ghost digits = unsigned_digits(whole);
    let ghost offset: int = if whole.len() > 0 && whole[0] == '+' {
        1
    } else {
        0
    };
    let mut value: u64 = 0;
    let mut first: bool = true;
    let mut any_digit: bool = false;
    proof {
        assert(digits.take(0) =~= Seq::empty());
    }
    for c in chars: text.chars()
        invariant
            whole == text@,
            chars.seq() == whole,
            digits == unsigned_digits(whole),
            offset == (if whole.len() > 0 && whole[0] == '+' {
                1int
            } else {
                0int
            }),
            first == (chars.index() == 0),
            any_digit == (chars.index() > offset),
            chars.index() <= offset ==> value == 0,
            chars.index() > offset ==> {
                &&& is_decimal(digits.take(chars.index() - offset))
                &&& value == decimal_value(digits.take(chars.index() - offset))
            },
    {
        let ghost i = chars.index();
        if first && c == '+' {
            first = false;
        } else {
            let ghost k = i - offset;
            proof {
                assert(digits[k] == c);
                assert(digits.take(k + 1).drop_last() =~= digits.take(k));
                if k == 0 {
                    assert(digits.take(k) =~= Seq::empty());
                }
            }
            if c < '0' || '9' < c {
                return None;
            }
            let digit: u64 = (c as u32 - '0' as u32) as u64;
            proof {
                assert(digits.take(k + 1).last() == c);
                assert(decimal_value(digits.take(k)) == value);
                assert(decimal_value(digits.take(k + 1)) == 10 * value + digit);
                lemma_value_grows(digits, k + 1);
            }
            if value > (u64::MAX - digit) / 10 {
                return None;
            }
            value = value * 10 + digit;
            first = false;
            any_digit = true;
            proof {
                assert forall|j: int| 0 <= j < digits.take(k + 1).len() implies '0'
                    <= #[trigger] digits.take(k + 1)[j] <= '9' by {
                    if j < k {
                        assert(digits.take(k + 1)[j] == digits.take(k)[j]);
                    }
                }
            }
        }
    }
    proof {
        assert(digits.take(digits.len() as int) =~= digits);
    }
    if any_digit {
        Some(value)
    } else {
        None
    }
}

fn digit_text(digit: u64) -> (text: &'static str)
    requires
        digit < 10,
    ensures
        text@ == seq![('0' as nat + digit) as char],
{
    proof {
        reveal_strlit("0");
        reveal_strlit("1");
        reveal_strlit("2");
        reveal_strlit("3");
        reveal_strlit("4");
        reveal_strlit("5");
        reveal_strlit("6");
        reveal_strlit("7");
        reveal_strlit("8");
        reveal_strlit("9");
    }
    match digit {
        0 => "0",
        1 => "1",
        2 => "2",
        3 => "3",
        4 => "4",
        5 => "5",
        6 => "6",
        7 => "7",
        8 => "8",
        _ => "9",
    }
}

/// Writes a number in decimal.
pub fn decimal_text(number: u64) -> (text: String)
    ensures
        text@ == decimal(number as nat),
    decreases number,
{
    let mut text: String = if number < 10 {
        String::new()
    } else {
        decimal_text(number / 10)
    };
    text.append(digit_text(number % 10));
    proof {
        let last = ('0' as nat + number as nat % 10) as char;
        if number < 10 {
            assert(text@ =~= seq![last]);
        } else {
            assert(text@ =~= decimal(number as nat / 10).push(last));
        }
    }
    text
}

/// Whether two texts are the same.
pub fn same_text(left: &str, right: &str) -> (same: bool)
    ensures
        same == (left@ == right@),
{
    left.to_owned() == right.to_owned()
}

/// Whether two runs of bytes are the same.
pub fn same_bytes(left: &[u8], right: &[u8]) -> (same: bool)
    ensures
        same == (left@ == right@),
{
    if left.len() != right.len() {
        return false;
    }
    let mut i: usize = 0;
    while i < left.len()
        invariant
            left@.len() == right@.len(),
            i <= left@.len(),
            forall|k: int| 0 <= k < i ==> left@[k] == right@[k],
        decreases left@.len() - i,
    {
        if left[i] != right[i] {
            return false;
        }
        i = i + 1;
    }
    proof {
        assert(left@ =~= right@);
    }
    true
}

proof fn lemma_cut_joins(front: Seq<char>, back: Seq<char>, mark: char)
    ensures
        cut_at(front.push(mark) + back, mark) == cut_at(front, mark) + cut_at(back, mark),
    decreases back.len(),
{
    let text = front.push(mark) + back;
    if back.len() == 0 {
        assert(text.drop_last() =~= front);
        assert(cut_at(front, mark).push(Seq::empty()) =~= cut_at(front, mark) + cut_at(back, mark));
    } else {
        lemma_cut_joins(front, back.drop_last(), mark);
        lemma_cut_is_not_empty(back.drop_last(), mark);
        assert(text.drop_last() =~= front.push(mark) + back.drop_last());
        assert(cut_at(text, mark) =~= cut_at(front, mark) + cut_at(back, mark));
    }
}

/// A slash parts a path: its segments are those of what stands before the slash, followed by those
/// of what stands behind it.
pub proof fn law_slash_parts_segments(front: Seq<char>, back: Seq<char>)
    ensures
        segments_of(front.push('/') + back) == segments_of(front) + segments_of(back),
{
    let kept = |part: Seq<char>| part.len() > 0;
    lemma_cut_joins(front, back, '/');
    Seq::filter_distributes_over_add(cut_at(front, '/'), cut_at(back, '/'), kept);
}

proof fn lemma_cut_without_mark(text: Seq<char>, mark: char)
    requires
        !text.contains(mark),
    ensures
        cut_at(text, mark) == seq![text],
    decreases text.len(),
{
    if text.len() == 0 {
        assert(text =~= Seq::empty());
    } else {
        let front = text.drop_last();
        assert(text.contains(text.last()));
        assert forall|k: int| 0 <= k < front.len() implies front[k] != mark by {
            assert(text.contains(text[k]));
        }
        lemma_cut_without_mark(front, mark);
        assert(seq![front].update(0, front.push(text.last())) =~= seq![text]) by {
            assert(front.push(text.last()) =~= text);
        }
    }
}

/// A text without a slash is one segment, unless it is empty: then there is none.
pub proof fn law_text_without_slash_is_one_segment(text: Seq<char>)
    requires
        !text.contains('/'),
    ensures
        text.len() > 0 ==> segments_of(text) == seq![text],
        text.len() == 0 ==> segments_of(text).len() == 0,
{
    let kept = |part: Seq<char>| part.len() > 0;
    lemma_cut_without_mark(text, '/');
    reveal(Seq::filter);
    assert(seq![text].drop_last() =~= Seq::empty());
    assert(Seq::<Seq<char>>::empty().filter(kept) =~= Seq::empty());
    assert(seq![text].filter(kept) =~= if text.len() > 0 {
        seq![text]
    } else {
        Seq::empty()
    });
}

/// A number is read digit by digit: one more digit at the end makes it ten times what it was, and
/// adds that digit. A plus sign in front changes nothing.
pub proof fn law_numbers_are_read_by_digit(text: Seq<char>, c: char)
    requires
        '0' <= c <= '9',
    ensures
        unsigned_value(seq![c]) == Some((c as nat - '0' as nat) as nat),
        unsigned_value(seq!['+', c]) == Some((c as nat - '0' as nat) as nat),
        unsigned_value(text) matches Some(value) ==> unsigned_value(text.push(c)) == Some(
            (10 * value + (c as nat - '0' as nat)) as nat,
        ),
{
    let one = seq![c];
    assert(one.drop_last() =~= Seq::empty());
    assert(decimal_value(Seq::<char>::empty()) == 0);
    assert(is_decimal(one));
    assert(decimal_value(one) == (c as nat - '0' as nat) as nat);
    assert(seq!['+', c].skip(1) =~= one);
    if unsigned_value(text) is Some {
        let digits = unsigned_digits(text);
        assert(unsigned_digits(text.push(c)) =~= digits.push(c));
        assert(digits.push(c).drop_last() =~= digits);
        assert(is_decimal(digits.push(c)));
    }
}

/// A text writes a number exactly where it ends in a digit and holds nothing but digits, except
/// that its first character may be a plus sign.
pub proof fn law_what_writes_a_number(text: Seq<char>)
    ensures
        unsigned_value(text) is Some <==> {
            &&& text.len() > 0
            &&& '0' <= text[text.len() - 1] <= '9'
            &&& forall|i: int|
                0 <= i < text.len() ==> '0' <= #[trigger] text[i] <= '9' || (i == 0 && text[i]
                    == '+')
        },
{
    let digits = unsigned_digits(text);
    if unsigned_value(text) is Some {
        assert(digits.last() == text.last());
        assert forall|i: int| 0 <= i < text.len() implies '0' <= #[trigger] text[i] <= '9' || (i
            == 0 && text[i] == '+') by {
            if text[0] == '+' {
                if i > 0 {
                    assert(digits[i - 1] == text[i]);
                }
            } else {
                assert(digits[i] == text[i]);
            }
        }
    } else if text.len() > 0 && '0' <= text[text.len() - 1] <= '9' && (forall|i: int|
        0 <= i < text.len() ==> '0' <= #[trigger] text[i] <= '9' || (i == 0 && text[i] == '+')) {
        assert forall|i: int| 0 <= i < digits.len() implies '0' <= #[trigger] digits[i] <= '9' by {
            if text[0] == '+' {
                assert(digits[i] == text[i + 1]);
            } else {
                assert(digits[i] == text[i]);
            }
        }
        assert(is_decimal(digits));
    }
}

/// A number is written with digits alone and without a leading zero.
pub proof fn law_decimal_is_plain(number: nat)
    ensures
        decimal(number).len() > 0,
        forall|i: int|
            0 <= i < decimal(number).len() ==> '0' <= #[trigger] decimal(number)[i] <= '9',
        decimal(number)[0] == '0' ==> number == 0 && decimal(number).len() == 1,
    decreases number,
{
    lemma_decimal_is_decimal(number);
    if number >= 10 {
        law_decimal_is_plain(number / 10);
        assert(decimal(number)[0] == decimal(number / 10)[0]);
    }
}

/// The view of strings keeps their number, their order and every character.
pub proof fn law_text_views_are_whole(list: Seq<String>)
    ensures
        texts(list).len() == list.len(),
        forall|i: int| 0 <= i < list.len() ==> #[trigger] texts(list)[i] == list[i]@,
{
}

} // verus!
