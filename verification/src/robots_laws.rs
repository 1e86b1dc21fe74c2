//! Which robots.txt can be read, said of its characters and lines.
use vstd::prelude::*;
use vstd::utf8::{
    encode_scalar, encode_utf8, encode_utf8_first_scalar, encode_utf8_valid_utf8,
    is_char_boundary, pop_first_scalar,
};

use crate::robots::{is_readable, place_behind, utf8_bytes};

verus! {

proof fn lemma_encode_concat(left: Seq<char>, right: Seq<char>)
    ensures
        encode_utf8(left + right) == encode_utf8(left) + encode_utf8(right),
    decreases left.len(),
{
    if left.len() == 0 {
        assert(left + right =~= right);
        assert(encode_utf8(left) + encode_utf8(right) =~= encode_utf8(right));
    } else {
        assert((left + right).drop_first() =~= left.drop_first() + right);
        lemma_encode_concat(left.drop_first(), right);
        assert(encode_utf8(left + right) =~= encode_utf8(left) + encode_utf8(right));
    }
}

proof fn lemma_boundary_behind(left: Seq<char>, right: Seq<char>)
    ensures
        is_char_boundary(encode_utf8(left + right), encode_utf8(left).len() as int),
    decreases left.len(),
{
    let all = left + right;
    let bytes = encode_utf8(all);
    encode_utf8_valid_utf8(all);
    if left.len() > 0 {
        encode_utf8_first_scalar(all);
        lemma_encode_concat(left, right);
        assert(all.drop_first() =~= left.drop_first() + right);
        assert(pop_first_scalar(bytes) =~= encode_utf8(all.drop_first()));
        lemma_boundary_behind(left.drop_first(), right);
    }
}

proof fn lemma_encoded_char(character: char)
    ensures
        encode_utf8(seq![character]).len() == encode_scalar(character as u32).len(),
        encode_utf8(seq![character]).len() == utf8_bytes(character),
{
    assert(seq![character].drop_first() =~= Seq::<char>::empty());
    assert(encode_utf8(Seq::<char>::empty()) =~= Seq::<u8>::empty());
    reveal_with_fuel(encode_utf8, 2);
}

proof fn lemma_encoded_part(text: Seq<char>, from: int, to: int)
    requires
        0 <= from <= to <= text.len(),
    ensures
        encode_utf8(text.take(to)).len() == encode_utf8(text.take(from)).len() + encode_utf8(
            text.subrange(from, to),
        ).len(),
        is_char_boundary(encode_utf8(text), encode_utf8(text.take(from)).len() as int),
{
    assert(text.take(to) =~= text.take(from) + text.subrange(from, to));
    lemma_encode_concat(text.take(from), text.subrange(from, to));
    assert(text =~= text.take(from) + text.skip(from));
    lemma_boundary_behind(text.take(from), text.skip(from));
}

/// Where the reader is right about the current line: it begins behind the first `from`
/// characters, and what was read of it ends behind the first `upto`.
spec fn is_right(text: Seq<char>, at: int, from: int, upto: int) -> bool {
    let place = place_behind(text.take(at));
    &&& 0 <= from <= upto <= at
    &&& place.start == encode_utf8(text.take(from)).len()
    &&& place.end == encode_utf8(text.take(upto)).len()
    &&& place.skipped == at - upto
    &&& upto < at ==> encode_utf8(text.subrange(from, upto)).len() >= 16_663
    &&& forall|k: int| from <= k < at ==> #[trigger] text[k] != '\n' && text[k] != '\r'
    &&& forall|k: int| upto <= k < at ==> #[trigger] text[k] <= '\u{7f}'
}

proof fn lemma_skipped_bytes(text: Seq<char>, from: int, to: int)
    requires
        0 <= from <= to <= text.len(),
        forall|k: int| from <= k < to ==> #[trigger] text[k] <= '\u{7f}',
    ensures
        encode_utf8(text.take(to)).len() == encode_utf8(text.take(from)).len() + (to - from),
    decreases to - from,
{
    if from < to {
        lemma_skipped_bytes(text, from, to - 1);
        lemma_encoded_part(text, to - 1, to);
        assert(text.subrange(to - 1, to) =~= seq![text[to - 1]]);
        lemma_encoded_char(text[to - 1]);
    }
}

proof fn lemma_is_right(text: Seq<char>, at: int) -> (place: (int, int))
    requires
        0 <= at <= text.len(),
        forall|i: int, j: int|
            #![trigger text.subrange(i, j)]
            0 <= i <= j < text.len() && (forall|k: int|
                i <= k < j ==> #[trigger] text[k] != '\n' && text[k] != '\r') && encode_utf8(
                text.subrange(i, j),
            ).len() >= 16_663 ==> text[j] <= '\u{7f}',
    ensures
        is_right(text, at, place.0, place.1),
    decreases at,
{
    if at == 0 {
        assert(text.take(0) =~= Seq::<char>::empty());
        assert(encode_utf8(text.take(0)).len() == 0);
        (0, 0)
    } else {
        let before = lemma_is_right(text, at - 1);
        let (from, upto) = before;
        let was = place_behind(text.take(at - 1));
        let character = text[at - 1];
        assert(text.take(at).drop_last() =~= text.take(at - 1));
        assert(text.take(at).last() == character);
        assert(text.subrange(at - 1, at) =~= seq![character]);
        lemma_encoded_char(character);
        lemma_encoded_part(text, at - 1, at);
        lemma_encoded_part(text, from, upto);
        if was.in_mark(character) {
            lemma_mark_is_at_once(text, at - 1);
            (at, at)
        } else if character == '\n' || character == '\r' {
            lemma_skipped_bytes(text, upto, at - 1);
            (at, at)
        } else if was.end - was.start < 16_663 {
            assert(upto == at - 1);
            (from, at)
        } else {
            lemma_encoded_part(text, upto, at - 1);
            lemma_encoded_part(text, from, at - 1);
            assert(text.subrange(from, at - 1) == text.subrange(from, at - 1));
            (from, upto)
        }
    }
}

/// While the mark is skipped, nothing else was read.
proof fn lemma_mark_is_at_once(text: Seq<char>, at: int)
    requires
        0 <= at <= text.len(),
    ensures
        place_behind(text.take(at)).mark < 3 ==> {
            let place = place_behind(text.take(at));
            &&& place.start == encode_utf8(text.take(at)).len()
            &&& place.end == place.start
            &&& place.skipped == 0
        },
    decreases at,
{
    if at == 0 {
        assert(text.take(0) =~= Seq::<char>::empty());
    } else {
        lemma_mark_is_at_once(text, at - 1);
        assert(text.take(at).drop_last() =~= text.take(at - 1));
        assert(text.take(at).last() == text[at - 1]);
        assert(text.subrange(at - 1, at) =~= seq![text[at - 1]]);
        lemma_encoded_char(text[at - 1]);
        lemma_encoded_part(text, at - 1, at);
    }
}

/// A robots.txt of fewer than 4,294,967,295 characters can be read where every character
/// that comes 16,663 bytes or more behind the beginning of its line is of ASCII; so can
/// one whose lines are shorter, and one of ASCII alone. A longer text can not be read.
pub proof fn law_ordinary_robots_are_readable(robots: Seq<char>)
    requires
        forall|i: int, j: int|
            #![trigger robots.subrange(i, j)]
            0 <= i <= j < robots.len() && (forall|k: int|
                i <= k < j ==> #[trigger] robots[k] != '\n' && robots[k] != '\r') && encode_utf8(
                robots.subrange(i, j),
            ).len() >= 16_663 ==> robots[j] <= '\u{7f}',
    ensures
        is_readable(robots) <==> robots.len() < 4_294_967_295,
{
    assert forall|at: int| 0 <= at <= robots.len() implies place_behind(
        #[trigger] robots.take(at),
    ).is_between_characters(robots) by {
        let (from, upto) = lemma_is_right(robots, at);
        lemma_encoded_part(robots, from, at);
        lemma_encoded_part(robots, upto, at);
    }
    assert(robots.take(robots.len() as int) =~= robots);
}

/// A robots.txt of ASCII characters can be read, however long its lines are.
pub proof fn law_ascii_robots_are_readable(robots: Seq<char>)
    requires
        robots.len() < 4_294_967_295,
        forall|i: int| 0 <= i < robots.len() ==> #[trigger] robots[i] <= '\u{7f}',
    ensures
        is_readable(robots),
{
    law_ordinary_robots_are_readable(robots);
}

/// A text of one character over and over.
spec fn repeated(character: char, count: nat) -> Seq<char> {
    Seq::new(count, |i: int| character)
}

proof fn lemma_repeated_bytes(character: char, count: nat, rest: Seq<char>)
    requires
        '\u{80}' <= character <= '\u{7ff}',
    ensures
        encode_utf8(repeated(character, count) + rest).len() == 2 * count + encode_utf8(rest).len(),
        forall|at: int|
            0 <= at <= 2 * count ==> (#[trigger] is_char_boundary(
                encode_utf8(repeated(character, count) + rest),
                at,
            ) <==> at % 2 == 0),
    decreases count,
{
    let text = repeated(character, count) + rest;
    let bytes = encode_utf8(text);
    encode_utf8_valid_utf8(text);
    if count == 0 {
        assert(text =~= rest);
    } else {
        let fewer = (count - 1) as nat;
        let others = repeated(character, fewer) + rest;
        assert(text.drop_first() =~= others);
        lemma_repeated_bytes(character, fewer, rest);
        encode_utf8_first_scalar(text);
        encode_utf8_valid_utf8(others);
        lemma_encoded_char(character);
        assert(pop_first_scalar(bytes) =~= encode_utf8(others));
        assert forall|at: int| 0 <= at <= 2 * count implies (#[trigger] is_char_boundary(bytes, at)
            <==> at % 2 == 0) by {
            if at == 1 {
                assert(!is_char_boundary(encode_utf8(others), -1));
            } else if at >= 2 {
                assert(is_char_boundary(encode_utf8(others), at - 2) <==> (at - 2) % 2 == 0);
            }
        }
    }
}

proof fn lemma_place_behind_repeated(character: char, count: nat)
    requires
        '\u{80}' <= character <= '\u{7ff}',
        character != '\u{ef}',
    ensures
        ({
            let place = place_behind(repeated(character, count));
            &&& place.start == 0
            &&& count <= 8332 ==> place.end == 2 * count
            &&& count > 8332 ==> place.end == 16664
            &&& count <= 8332 ==> place.skipped == 0
            &&& count > 8332 ==> place.skipped == count - 8332
            &&& !place.after_return
            &&& count == 0 ==> place.mark == 0
            &&& count > 0 ==> place.mark == 3
        }),
    decreases count,
{
    let text = repeated(character, count);
    if count > 0 {
        assert(text.drop_last() =~= repeated(character, (count - 1) as nat));
        assert(text.last() == character);
        lemma_place_behind_repeated(character, (count - 1) as nat);
    }
}

/// A line of nothing but characters of two bytes can be read as far as 8,332 of them. Each
/// one more puts the reader one byte off, so that a longer line can be read exactly where
/// there is an odd number of characters, and the next line is taken to begin between two
/// of them.
pub proof fn law_a_long_line_puts_the_reader_off(character: char, count: nat)
    requires
        '\u{80}' <= character <= '\u{7ff}',
        character != '\u{ef}',
        count < 4_294_967_294,
    ensures
        is_readable(Seq::new(count, |i: int| character).push('\n')) <==> count <= 8332 || count % 2
            == 1,
{
    let line = repeated(character, count);
    let text = line.push('\n');
    assert(text =~= line + seq!['\n']);
    assert(text == Seq::new(count, |i: int| character).push('\n'));
    lemma_repeated_bytes(character, count, seq!['\n']);
    lemma_encoded_char('\n');
    lemma_place_behind_repeated(character, count);
    assert(text.drop_last() =~= line);
    let behind = place_behind(text);
    assert(behind == place_behind(line).behind('\n'));
    assert(count <= 8332 ==> behind.start == 2 * count + 1);
    assert(count > 8332 ==> behind.start == count + 8333);
    assert(behind.is_between_characters(text) <==> count <= 8332 || count % 2 == 1) by {
        if count <= 8332 {
            assert(text.take(text.len() as int) =~= text);
            lemma_encoded_part(text, text.len() as int, text.len() as int);
        } else {
            assert(is_char_boundary(encode_utf8(text), behind.start as int) <==> behind.start % 2
                == 0);
        }
    }
    assert forall|i: int|
        0 <= i < text.len() && place_behind(#[trigger] text.take(i)).takes_line(
            text[i],
        ) implies place_behind(text.take(i)).is_between_characters(text) by {
        assert(text.take(i) =~= repeated(character, i as nat));
        if i == count {
            assert(is_char_boundary(encode_utf8(text), 0));
            assert(is_char_boundary(encode_utf8(text), place_behind(line).end as int));
        }
    }
}

} // verus!
