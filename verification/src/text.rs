//! Text as sequences of characters: building, ordering, trimming and padding.

use vstd::prelude::*;
use vstd::string::StrSliceExecFns;
use vstd::string::StringExecFns;
use vstd::utf8::{decode_utf8, valid_utf8};

verus! {

/// The views of all the items of a sequence, in order.
pub open spec fn views<T: View>(items: Seq<T>) -> Seq<T::V> {
    Seq::new(items.len(), |i: int| items[i]@)
}

/// The view of an optional value.
pub open spec fn opt_view<T: View>(item: Option<T>) -> Option<T::V> {
    match item {
        Some(value) => Some(value@),
        None => None,
    }
}

/// `String::push` appends one character at the end.
pub assume_specification[ String::push ](text: &mut String, ch: char)
    ensures
        final(text)@ == old(text)@.push(ch),
;

/// `String::pop` takes the last character off, or returns `None` when there is none.
pub assume_specification[ String::pop ](text: &mut String) -> (last: Option<char>)
    ensures
        match last {
            Some(ch) => old(text)@.len() > 0 && ch == old(text)@.last() && final(text)@
                == old(text)@.drop_last(),
            None => old(text)@.len() == 0 && final(text)@ == old(text)@,
        },
;

/// Lexicographic order by code point.
pub open spec fn lex_less(a: Seq<char>, b: Seq<char>) -> bool
    decreases a.len(),
{
    if b.len() == 0 {
        false
    } else if a.len() == 0 {
        true
    } else if a[0] != b[0] {
        (a[0] as int) < (b[0] as int)
    } else {
        lex_less(a.drop_first(), b.drop_first())
    }
}

/// Lists the characters of `text`.
pub fn chars_of(text: &str) -> (chars: Vec<char>)
    ensures
        chars@ == text@,
{
    let mut chars: Vec<char> = Vec::new();
    for ch in it: text.chars()
        invariant
            it.seq() == text@,
            chars@ == text@.take(it.index() as int),
    {
        assert(text@.take(it.index() as int + 1) == text@.take(it.index() as int).push(ch));
        chars.push(ch);
    }
    assert(text@.take(text@.len() as int) == text@);
    chars
}

/// A copy of an optional text.
pub fn copy_text(text: &Option<String>) -> (copy: Option<String>)
    ensures
        opt_view(copy) == opt_view(*text),
{
    match text {
        Some(value) => Some(value.clone()),
        None => None,
    }
}

/// Whether two texts hold the same characters.
pub fn same_text(a: &str, b: &str) -> (same: bool)
    ensures
        same == (a@ == b@),
{
    a.to_owned() == b.to_owned()
}

/// Whether `a` comes before `b` in lexicographic order.
pub fn text_less(a: &str, b: &str) -> (less: bool)
    ensures
        less == lex_less(a@, b@),
{
    let mut left = a.chars();
    let mut right = b.chars();
    let ghost mut seen: int = 0;
    assert(a@.skip(0) == a@ && b@.skip(0) == b@);
    loop
        invariant
            0 <= seen <= a@.len(),
            seen <= b@.len(),
            vstd::std_specs::iter::IteratorSpec::remaining(&left) == a@.skip(seen),
            vstd::std_specs::iter::IteratorSpec::remaining(&right) == b@.skip(seen),
            lex_less(a@, b@) == lex_less(a@.skip(seen), b@.skip(seen)),
        decreases a@.len() - seen,
    {
        match right.next() {
            None => {
                return false;
            },
            Some(r) => {
                match left.next() {
                    None => {
                        return true;
                    },
                    Some(l) => {
                        if l != r {
                            return l < r;
                        }
                    },
                }
            },
        }
        proof {
            assert(a@.skip(seen).drop_first() == a@.skip(seen + 1));
            assert(b@.skip(seen).drop_first() == b@.skip(seen + 1));
            seen = seen + 1;
        }
    }
}

/// No text comes before itself.
pub proof fn lemma_lex_irreflexive(a: Seq<char>)
    ensures
        !lex_less(a, a),
    decreases a.len(),
{
    if a.len() > 0 {
        lemma_lex_irreflexive(a.drop_first());
    }
}

/// The order carries over from one pair to the next.
pub proof fn lemma_lex_transitive(a: Seq<char>, b: Seq<char>, c: Seq<char>)
    requires
        lex_less(a, b),
        lex_less(b, c),
    ensures
        lex_less(a, c),
    decreases a.len(),
{
    if a.len() > 0 && a[0] == b[0] && b[0] == c[0] {
        lemma_lex_transitive(a.drop_first(), b.drop_first(), c.drop_first());
    }
}

/// Two different texts are always ordered.
pub proof fn lemma_lex_total(a: Seq<char>, b: Seq<char>)
    ensures
        a == b || lex_less(a, b) || lex_less(b, a),
    decreases a.len(),
{
    if a.len() > 0 && b.len() > 0 && a[0] == b[0] {
        lemma_lex_total(a.drop_first(), b.drop_first());
        if a.drop_first() == b.drop_first() {
            assert(a == seq![a[0]] + a.drop_first());
            assert(b == seq![b[0]] + b.drop_first());
        }
    } else if a.len() == 0 && b.len() == 0 {
        assert(a == b);
    }
}

/// `str::to_lowercase`, which maps every character by the Unicode tables.
pub uninterp spec fn lowercase(text: Seq<char>) -> Seq<char>;

/// Calls `str::to_lowercase`. The contract claims that the result is a function of the text alone.
#[verifier::external_body]
pub(crate) fn to_lowercase(text: &str) -> (lower: String)
    ensures
        lower@ == lowercase(text@),
{
    text.to_lowercase()
}

/// `String::from_utf8_lossy`: the text of `bytes`, with replacement characters where they are not
/// UTF-8.
pub uninterp spec fn utf8_lossy(bytes: Seq<u8>) -> Seq<char>;

/// Calls `String::from_utf8_lossy`. The contract claims that the result is a function of the bytes
/// alone and that valid UTF-8 is decoded without change.
#[verifier::external_body]
pub(crate) fn decode_lossy(bytes: &[u8]) -> (text: String)
    ensures
        text@ == utf8_lossy(bytes@),
        valid_utf8(bytes@) ==> text@ == decode_utf8(bytes@),
{
    String::from_utf8_lossy(bytes).into_owned()
}

/// The character of a decimal digit.
pub open spec fn digit(value: nat) -> char {
    (value + 48) as char
}

/// A number in decimal notation, without leading zeros.
pub open spec fn decimal(value: nat) -> Seq<char>
    decreases value,
{
    if value < 10 {
        seq![digit(value)]
    } else {
        decimal(value / 10).push(digit(value % 10))
    }
}

/// Writes a number in decimal notation.
pub fn decimal_text(value: u64) -> (text: String)
    ensures
        text@ == decimal(value as nat),
    decreases value,
{
    let last: char = (48 + (value % 10) as u8) as char;
    if value < 10 {
        let mut text = String::new();
        text.push(last);
        assert(text@ == decimal(value as nat));
        text
    } else {
        let mut text = decimal_text(value / 10);
        text.push(last);
        text
    }
}

/// `count` spaces.
pub open spec fn spaces(count: nat) -> Seq<char> {
    Seq::new(count, |i: int| ' ')
}

/// The text, moved to the right end of a field of `width` characters.
pub open spec fn right_aligned(text: Seq<char>, width: nat) -> Seq<char> {
    if text.len() < width {
        spaces((width - text.len()) as nat) + text
    } else {
        text
    }
}

/// The first `width` characters of the text, filled up with spaces.
pub open spec fn fitted(text: Seq<char>, width: nat) -> Seq<char> {
    Seq::new(
        width,
        |i: int|
            if i < text.len() {
                text[i]
            } else {
                ' '
            },
    )
}

/// A run of spaces.
pub fn blank(count: usize) -> (text: String)
    ensures
        text@ == spaces(count as nat),
{
    let mut text = String::new();
    for i in 0..count
        invariant
            text@ == spaces(i as nat),
    {
        text.push(' ');
        assert(text@ == spaces((i + 1) as nat));
    }
    text
}

/// Moves a text to the right end of a field.
pub fn align_right(text: &str, width: usize) -> (field: String)
    ensures
        field@ == right_aligned(text@, width as nat),
{
    let length: usize = text.unicode_len();
    if length < width {
        blank(width - length).concat(text)
    } else {
        text.to_owned()
    }
}

/// Cuts or fills a text to exactly `width` characters.
pub fn fit_text(text: &str, width: usize) -> (output: String)
    ensures
        output@ == fitted(text@, width as nat),
{
    let chars = chars_of(text);
    let mut output = String::new();
    for i in 0..width
        invariant
            chars@ == text@,
            output@ == fitted(text@, i as nat),
    {
        if i < chars.len() {
            output.push(chars[i]);
        } else {
            output.push(' ');
        }
        assert(output@ == fitted(text@, (i + 1) as nat));
    }
    output
}

/// The characters with the Unicode property White_Space.
pub open spec fn white_space(ch: char) -> bool {
    let code = ch as int;
    ||| 0x9 <= code <= 0xd
    ||| code == 0x20
    ||| code == 0x85
    ||| code == 0xa0
    ||| code == 0x1680
    ||| 0x2000 <= code <= 0x200a
    ||| code == 0x2028
    ||| code == 0x2029
    ||| code == 0x202f
    ||| code == 0x205f
    ||| code == 0x3000
}

/// Whether a character is white space.
pub fn is_white_space(ch: char) -> (white: bool)
    ensures
        white == white_space(ch),
{
    let code = ch as u32;
    (0x9 <= code && code <= 0xd) || code == 0x20 || code == 0x85 || code == 0xa0 || code == 0x1680
        || (0x2000 <= code && code <= 0x200a) || code == 0x2028 || code == 0x2029 || code == 0x202f
        || code == 0x205f || code == 0x3000
}

/// The text without white space at its start.
pub open spec fn trimmed_start(text: Seq<char>) -> Seq<char>
    decreases text.len(),
{
    if text.len() > 0 && white_space(text[0]) {
        trimmed_start(text.drop_first())
    } else {
        text
    }
}

/// The text without white space at its end.
pub open spec fn trimmed_end(text: Seq<char>) -> Seq<char>
    decreases text.len(),
{
    if text.len() > 0 && white_space(text.last()) {
        trimmed_end(text.drop_last())
    } else {
        text
    }
}

/// The text without white space at either end.
pub open spec fn trimmed(text: Seq<char>) -> Seq<char> {
    trimmed_end(trimmed_start(text))
}

/// Takes white space off both ends.
pub fn trim(text: &str) -> (inner: String)
    ensures
        inner@ == trimmed(text@),
{
    let chars = chars_of(text);
    let mut start: usize = 0;
    assert(text@.skip(0) == text@);
    while start < chars.len() && is_white_space(chars[start])
        invariant
            chars@ == text@,
            start <= text@.len(),
            trimmed_start(text@.skip(start as int)) == trimmed_start(text@),
        decreases text@.len() - start,
    {
        assert(text@.skip(start as int).drop_first() == text@.skip(start + 1));
        start += 1;
    }
    let mut end: usize = chars.len();
    let ghost rest = text@.skip(start as int);
    assert(rest == trimmed_start(text@));
    assert(text@.subrange(start as int, end as int) == rest);
    while end > start && is_white_space(chars[end - 1])
        invariant
            chars@ == text@,
            start <= end <= text@.len(),
            trimmed_end(text@.subrange(start as int, end as int)) == trimmed_end(rest),
        decreases end,
    {
        assert(text@.subrange(start as int, end as int).drop_last() == text@.subrange(
            start as int,
            end - 1,
        ));
        end -= 1;
    }
    let mut inner = String::new();
    for i in start..end
        invariant
            chars@ == text@,
            start <= end <= text@.len(),
            inner@ == text@.subrange(start as int, i as int),
    {
        inner.push(chars[i]);
        assert(inner@ == text@.subrange(start as int, i + 1));
    }
    inner
}

/// Whether a text holds a character.
pub fn contains_char(text: &str, ch: char) -> (found: bool)
    ensures
        found == text@.contains(ch),
{
    let chars = chars_of(text);
    for i in 0..chars.len()
        invariant
            chars@ == text@,
            forall|k: int| 0 <= k < i ==> text@[k] != ch,
    {
        if chars[i] == ch {
            return true;
        }
    }
    false
}

/// The parts with a separator between each two.
pub open spec fn joined(parts: Seq<Seq<char>>, separator: Seq<char>) -> Seq<char>
    decreases parts.len(),
{
    if parts.len() == 0 {
        Seq::empty()
    } else if parts.len() == 1 {
        parts[0]
    } else {
        joined(parts.drop_last(), separator) + separator + parts.last()
    }
}

/// Joins parts with a separator.
pub fn join_texts(parts: &[String], separator: &str) -> (text: String)
    ensures
        text@ == joined(views(parts@), separator@),
{
    let mut text = String::new();
    for i in 0..parts.len()
        invariant
            text@ == joined(views(parts@).take(i as int), separator@),
    {
        let ghost shown = views(parts@).take(i + 1);
        assert(shown.drop_last() == views(parts@).take(i as int));
        if i > 0 {
            text.append(separator);
        }
        text.append(parts[i].as_str());
        assert(text@ == joined(shown, separator@));
    }
    assert(views(parts@).take(parts@.len() as int) == views(parts@));
    text
}

/// The pieces of the text between occurrences of a separator.
pub open spec fn split_on(text: Seq<char>, separator: char) -> Seq<Seq<char>>
    decreases text.len(),
{
    if text.len() == 0 {
        seq![Seq::empty()]
    } else {
        let pieces = split_on(text.drop_last(), separator);
        if text.last() == separator {
            pieces.push(Seq::empty())
        } else {
            pieces.drop_last().push(pieces.last().push(text.last()))
        }
    }
}

/// Splits a text at every occurrence of a separator.
pub fn split_text(text: &str, separator: char) -> (pieces: Vec<String>)
    ensures
        views(pieces@) == split_on(text@, separator),
{
    let chars = chars_of(text);
    let mut pieces: Vec<String> = Vec::new();
    let mut piece = String::new();
    assert(text@.take(0) == Seq::<char>::empty());
    assert(views(pieces@).push(piece@) == split_on(text@.take(0), separator));
    for i in 0..chars.len()
        invariant
            chars@ == text@,
            views(pieces@).push(piece@) == split_on(text@.take(i as int), separator),
    {
        let ghost before = views(pieces@);
        let ghost open = piece@;
        assert(text@.take(i + 1).drop_last() == text@.take(i as int));
        if chars[i] == separator {
            pieces.push(piece);
            piece = String::new();
            assert(views(pieces@) == before.push(open));
        } else {
            piece.push(chars[i]);
            assert(before.push(open).drop_last() == before);
        }
    }
    assert(text@.take(text@.len() as int) == text@);
    let ghost before = views(pieces@);
    let ghost last = piece@;
    pieces.push(piece);
    assert(views(pieces@) == before.push(last));
    pieces
}

/// Two texts are ordered by the first characters in which they differ, and a text comes before every
/// longer one that starts with it.
pub proof fn law_texts_are_ordered_at_the_first_difference(
    common: Seq<char>,
    a: Seq<char>,
    b: Seq<char>,
)
    ensures
        a.len() > 0 && b.len() > 0 && a[0] != b[0] ==> (lex_less(common + a, common + b) <==> (
        a[0] as int) < (b[0] as int)),
        b.len() > 0 ==> lex_less(common, common + b),
        !lex_less(common + b, common),
    decreases common.len(),
{
    if common.len() == 0 {
        assert(common + a == a);
        assert(common + b == b);
    } else {
        law_texts_are_ordered_at_the_first_difference(common.drop_first(), a, b);
        assert((common + a).drop_first() == common.drop_first() + a);
        assert((common + b).drop_first() == common.drop_first() + b);
    }
}

/// The number that decimal digits stand for.
pub open spec fn number_read(digits: Seq<char>) -> int
    decreases digits.len(),
{
    if digits.len() == 0 {
        0
    } else {
        10 * number_read(digits.drop_last()) + (digits.last() as int - '0' as int)
    }
}

/// Decimal notation is made of digits, has no leading zero, and reads back as the number.
pub proof fn law_decimal_notation_reads_back(value: nat)
    ensures
        decimal(value).len() > 0,
        forall|i: int| 0 <= i < decimal(value).len() ==> '0' <= #[trigger] decimal(value)[i] <= '9',
        value > 0 ==> decimal(value)[0] != '0',
        value == 0 ==> decimal(value) == seq!['0'],
        number_read(decimal(value)) == value,
    decreases value,
{
    if value < 10 {
        assert(decimal(value).drop_last() == Seq::<char>::empty());
        assert(number_read(Seq::<char>::empty()) == 0);
        assert(digit(value) as int == value + 48);
    } else {
        law_decimal_notation_reads_back(value / 10);
        assert(decimal(value).drop_last() == decimal(value / 10));
        assert(digit(value % 10) as int == value % 10 + 48);
    }
}

/// A fitted text has the width that was asked for: a long text is cut off, a short one is followed
/// by spaces.
pub proof fn law_fitted_text_fills_the_width(text: Seq<char>, width: nat)
    ensures
        fitted(text, width).len() == width,
        width <= text.len() ==> fitted(text, width) == text.take(width as int),
        text.len() <= width ==> fitted(text, width).take(text.len() as int) == text,
        forall|i: int| text.len() <= i < width ==> #[trigger] fitted(text, width)[i] == ' ',
{
}

/// A right-aligned text ends its field, after spaces only. A text that fills the field stays whole.
pub proof fn law_right_aligned_text_ends_the_field(text: Seq<char>, width: nat)
    ensures
        ({
            let field = right_aligned(text, width);
            let start = field.len() - text.len();
            &&& field.len() == if text.len() < width {
                width
            } else {
                text.len()
            }
            &&& field.skip(start) == text
            &&& forall|i: int| 0 <= i < start ==> #[trigger] field[i] == ' '
        }),
{
    let field = right_aligned(text, width);
    assert(field.skip(field.len() - text.len()) == text);
}

/// The white-space characters.
pub proof fn law_white_space_characters(ch: char)
    ensures
        white_space(ch) <==> seq![
            0x9int,
            0xa,
            0xb,
            0xc,
            0xd,
            0x20,
            0x85,
            0xa0,
            0x1680,
            0x2000,
            0x2001,
            0x2002,
            0x2003,
            0x2004,
            0x2005,
            0x2006,
            0x2007,
            0x2008,
            0x2009,
            0x200a,
            0x2028,
            0x2029,
            0x202f,
            0x205f,
            0x3000,
        ].contains(ch as int),
{
    let codes = seq![
        0x9int,
        0xa,
        0xb,
        0xc,
        0xd,
        0x20,
        0x85,
        0xa0,
        0x1680,
        0x2000,
        0x2001,
        0x2002,
        0x2003,
        0x2004,
        0x2005,
        0x2006,
        0x2007,
        0x2008,
        0x2009,
        0x200a,
        0x2028,
        0x2029,
        0x202f,
        0x205f,
        0x3000,
    ];
    assert(codes[0] == 0x9);
    assert(codes[1] == 0xa);
    assert(codes[2] == 0xb);
    assert(codes[3] == 0xc);
    assert(codes[4] == 0xd);
    assert(codes[5] == 0x20);
    assert(codes[6] == 0x85);
    assert(codes[7] == 0xa0);
    assert(codes[8] == 0x1680);
    assert(codes[9] == 0x2000);
    assert(codes[10] == 0x2001);
    assert(codes[11] == 0x2002);
    assert(codes[12] == 0x2003);
    assert(codes[13] == 0x2004);
    assert(codes[14] == 0x2005);
    assert(codes[15] == 0x2006);
    assert(codes[16] == 0x2007);
    assert(codes[17] == 0x2008);
    assert(codes[18] == 0x2009);
    assert(codes[19] == 0x200a);
    assert(codes[20] == 0x2028);
    assert(codes[21] == 0x2029);
    assert(codes[22] == 0x202f);
    assert(codes[23] == 0x205f);
    assert(codes[24] == 0x3000);
    assert(codes.len() == 25);
}

/// Whether a text holds white space only.
pub open spec fn all_white(text: Seq<char>) -> bool {
    forall|i: int| 0 <= i < text.len() ==> white_space(#[trigger] text[i])
}

/// Trimming takes off the white space around a text, all of it, and nothing else.
pub proof fn law_trimming_takes_off_the_surrounding_white_space(
    before: Seq<char>,
    inner: Seq<char>,
    after: Seq<char>,
)
    requires
        all_white(before),
        all_white(after),
        inner.len() > 0 ==> !white_space(inner[0]) && !white_space(inner.last()),
    ensures
        trimmed(before + inner + after) == inner,
{
    let rest = inner + after;
    lemma_white_start_is_taken_off(before, rest);
    assert(before + inner + after == before + rest);
    if inner.len() > 0 {
        assert(rest[0] == inner[0]);
        assert(trimmed_start(rest) == rest);
        lemma_white_end_is_taken_off(inner, after);
        assert(trimmed_end(inner) == inner);
    } else {
        assert(rest == after);
        let nothing = Seq::<char>::empty();
        lemma_white_start_is_taken_off(after, nothing);
        assert(after + nothing == after);
        assert(trimmed_start(nothing) == nothing);
        assert(trimmed_end(nothing) == nothing);
        assert(inner == nothing);
    }
}

/// White space at the start is taken off.
proof fn lemma_white_start_is_taken_off(before: Seq<char>, rest: Seq<char>)
    requires
        all_white(before),
    ensures
        trimmed_start(before + rest) == trimmed_start(rest),
    decreases before.len(),
{
    if before.len() > 0 {
        let shorter = before.drop_first();
        assert forall|i: int| 0 <= i < shorter.len() implies white_space(#[trigger] shorter[i]) by {
            assert(shorter[i] == before[i + 1]);
        }
        lemma_white_start_is_taken_off(shorter, rest);
        assert((before + rest)[0] == before[0]);
        assert((before + rest).drop_first() == shorter + rest);
    } else {
        assert(before + rest == rest);
    }
}

/// White space at the end is taken off.
proof fn lemma_white_end_is_taken_off(rest: Seq<char>, after: Seq<char>)
    requires
        all_white(after),
    ensures
        trimmed_end(rest + after) == trimmed_end(rest),
    decreases after.len(),
{
    if after.len() > 0 {
        let shorter = after.drop_last();
        assert forall|i: int| 0 <= i < shorter.len() implies white_space(#[trigger] shorter[i]) by {
            assert(shorter[i] == after[i]);
        }
        lemma_white_end_is_taken_off(rest, shorter);
        assert((rest + after).last() == after[after.len() - 1]);
        assert((rest + after).drop_last() == rest + shorter);
    } else {
        assert(rest + after == rest);
    }
}

/// Joining puts the separator between each two parts and nowhere else.
pub proof fn law_separator_stands_between_the_parts(
    first: Seq<Seq<char>>,
    second: Seq<Seq<char>>,
    separator: Seq<char>,
    part: Seq<char>,
)
    ensures
        joined(Seq::empty(), separator) == Seq::<char>::empty(),
        joined(seq![part], separator) == part,
        first.len() > 0 && second.len() > 0 ==> joined(first + second, separator) == joined(
            first,
            separator,
        ) + separator + joined(second, separator),
    decreases second.len(),
{
    if first.len() > 0 && second.len() > 0 {
        let all = first + second;
        assert(all.last() == second.last());
        if second.len() == 1 {
            assert(all.drop_last() == first);
        } else {
            let front = second.drop_last();
            law_separator_stands_between_the_parts(first, front, separator, part);
            assert(all.drop_last() == first + front);
            assert(joined(first, separator) + separator + joined(front, separator) + separator
                + second.last() == joined(first, separator) + separator + (joined(front, separator)
                + separator + second.last()));
        }
    }
}

/// Splitting cuts a text at every separator: no piece holds one, and the pieces joined again are the
/// text.
pub proof fn law_split_pieces_joined_are_the_text(text: Seq<char>, separator: char)
    ensures
        split_on(text, separator).len() > 0,
        forall|k: int|
            0 <= k < split_on(text, separator).len() ==> !(#[trigger] split_on(
                text,
                separator,
            )[k]).contains(separator),
        joined(split_on(text, separator), seq![separator]) == text,
    decreases text.len(),
{
    let pieces = split_on(text, separator);
    if text.len() > 0 {
        let shorter = text.drop_last();
        let before = split_on(shorter, separator);
        let between = seq![separator];
        law_split_pieces_joined_are_the_text(shorter, separator);
        if text.last() == separator {
            assert(pieces.drop_last() == before);
            assert(joined(pieces, between) == shorter + between + Seq::<char>::empty());
            assert forall|k: int| 0 <= k < pieces.len() implies !(#[trigger] pieces[k]).contains(
                separator,
            ) by {
                if k < before.len() {
                    assert(pieces[k] == before[k]);
                }
            }
        } else {
            assert(pieces.drop_last() == before.drop_last());
            assert forall|k: int| 0 <= k < pieces.len() implies !(#[trigger] pieces[k]).contains(
                separator,
            ) by {
                if k < before.len() - 1 {
                    assert(pieces[k] == before[k]);
                } else {
                    let piece = pieces[k];
                    assert(!before[k].contains(separator));
                    assert forall|i: int| 0 <= i < piece.len() implies piece[i] != separator by {
                        if i < piece.len() - 1 {
                            assert(piece[i] == before[k][i]);
                        }
                    }
                }
            }
            if before.len() > 1 {
                assert(joined(before, between) == joined(before.drop_last(), between) + between
                    + before.last());
                assert(joined(pieces, between) == joined(before.drop_last(), between) + between
                    + before.last().push(text.last()));
            } else {
                assert(pieces == seq![before[0].push(text.last())]);
            }
        }
        assert(shorter.push(text.last()) == text);
        assert(joined(pieces, between) == shorter.push(text.last()));
    } else {
        assert(text == Seq::<char>::empty());
        assert(pieces[0] == Seq::<char>::empty());
    }
}

} // verus!
