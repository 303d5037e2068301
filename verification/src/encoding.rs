//! Lines of text and lines of bytes: encoding a text and splitting it into lines
//! commute.
use vstd::prelude::*;
use vstd::utf8::{
    char_is_scalar, decode_utf8, decode_utf8_encode_utf8, encode_scalar, encode_utf8,
    encode_utf8_decode_utf8, encode_utf8_valid_utf8, has_width_1_encoding, last_continuation_byte,
    leading_byte_width_1, leading_byte_width_2, leading_byte_width_3, leading_byte_width_4,
    second_last_continuation_byte, third_last_continuation_byte, valid_utf8,
};

use crate::text::{
    lemma_pieces_free, lemma_split_add, lemma_split_nonempty, lines, lines_by, only, split_when,
    without_last,
};

verus! {

/// The encodings of several texts.
pub open spec fn encoded(parts: Seq<Seq<char>>) -> Seq<Seq<u8>> {
    parts.map_values(|p: Seq<char>| encode_utf8(p))
}

/// A character within ASCII is encoded as itself; any other as bytes beyond it.
pub proof fn lemma_scalar_bytes(c: char)
    ensures
        encode_scalar(c as u32).len() > 0,
        (c as u32) < 128 ==> encode_scalar(c as u32) == Seq::empty().push(c as u8),
        (c as u32) >= 128 ==> forall|i: int|
            0 <= i < encode_scalar(c as u32).len() ==> #[trigger] encode_scalar(c as u32)[i] >= 128,
{
    char_is_scalar(c);
    let s = c as u32;
    if has_width_1_encoding(s) {
        assert(leading_byte_width_1(s) == s as u8) by (bit_vector)
            requires
                has_width_1_encoding(s),
        ;
        assert(encode_scalar(s) =~= Seq::empty().push(c as u8));
    } else {
        assert(leading_byte_width_2(s) >= 128) by (bit_vector);
        assert(leading_byte_width_3(s) >= 128) by (bit_vector);
        assert(leading_byte_width_4(s) >= 128) by (bit_vector);
        assert(last_continuation_byte(s) >= 128) by (bit_vector);
        assert(second_last_continuation_byte(s) >= 128) by (bit_vector);
        assert(third_last_continuation_byte(s) >= 128) by (bit_vector);
    }
}

/// The encoding of a character holds the byte of no other ASCII character.
pub proof fn lemma_other_bytes(c: char, sep: char)
    requires
        c != sep,
        (sep as u32) < 128,
    ensures
        !encode_scalar(c as u32).contains(sep as u8),
{
    lemma_scalar_bytes(c);
    let more = encode_scalar(c as u32);
    if more.contains(sep as u8) {
        let k = choose|k: int| 0 <= k < more.len() && more[k] == sep as u8;
        assert(more[k] == sep as u8);
        if (c as u32) < 128 {
            assert(more[k] == c as u8);
        }
    }
}

/// One character more adds its encoding at the end.
pub proof fn lemma_encode_push(s: Seq<char>, c: char)
    ensures
        encode_utf8(s.push(c)) == encode_utf8(s) + encode_scalar(c as u32),
    decreases s.len(),
{
    if s.len() == 0 {
        reveal_with_fuel(encode_utf8, 2);
        assert(s.push(c).drop_first() =~= Seq::empty());
        assert(encode_utf8(s.push(c)) =~= encode_utf8(s) + encode_scalar(c as u32));
    } else {
        lemma_encode_push(s.drop_first(), c);
        assert(s.push(c).drop_first() =~= s.drop_first().push(c));
        assert(encode_utf8(s.push(c)) =~= encode_utf8(s) + encode_scalar(c as u32));
    }
}

/// A text that holds an ASCII character holds its byte when it is encoded.
pub proof fn lemma_encoded_contains(s: Seq<char>, c: char)
    requires
        s.contains(c),
        (c as u32) < 128,
    ensures
        encode_utf8(s).contains(c as u8),
    decreases s.len(),
{
    let start = s.drop_last();
    assert(s =~= start.push(s.last()));
    lemma_encode_push(start, s.last());
    let bytes = encode_utf8(s);
    if s.last() == c {
        lemma_scalar_bytes(c);
        assert(bytes[bytes.len() - 1] == c as u8);
    } else {
        let k = choose|k: int| 0 <= k < s.len() && s[k] == c;
        assert(start[k] == c);
        lemma_encoded_contains(start, c);
        let j = choose|j: int| 0 <= j < encode_utf8(start).len() && encode_utf8(start)[j] == c as u8;
        assert(bytes[j] == c as u8);
    }
}

/// No readable line of a table of bytes holds a line end.
pub proof fn lemma_decoded_line(table: Seq<u8>, i: int)
    requires
        0 <= i < lines_by(table, 10u8, 13u8).len(),
        valid_utf8(lines_by(table, 10u8, 13u8)[i]),
    ensures
        !decode_utf8(lines_by(table, 10u8, 13u8)[i]).contains('\n'),
{
    let line = lines_by(table, 10u8, 13u8)[i];
    let parts = split_when(table, only(10u8));
    lemma_split_nonempty(table, only(10u8));
    lemma_pieces_free(table, 10u8);
    assert(!parts[i].contains(10u8));
    assert(!line.contains(10u8)) by {
        if line.contains(10u8) {
            let k = choose|k: int| 0 <= k < line.len() && line[k] == 10u8;
            assert(parts[i][k] == 10u8);
        }
    }
    if decode_utf8(line).contains('\n') {
        lemma_encoded_contains(decode_utf8(line), '\n');
        decode_utf8_encode_utf8(line);
    }
}

/// Splitting at an ASCII character and encoding commute.
pub proof fn lemma_split_encoded(s: Seq<char>, sep: char)
    requires
        (sep as u32) < 128,
    ensures
        split_when(encode_utf8(s), only(sep as u8)) == encoded(split_when(s, only(sep))),
    decreases s.len(),
{
    let cut = only(sep);
    let byte_cut = only(sep as u8);
    lemma_split_nonempty(s, cut);
    if s.len() == 0 {
        assert(encode_utf8(s) =~= Seq::empty());
        assert(split_when(encode_utf8(s), byte_cut) =~= encoded(split_when(s, cut)));
    } else {
        let start = s.drop_last();
        let c = s.last();
        lemma_split_encoded(start, sep);
        lemma_split_nonempty(start, cut);
        assert(s =~= start.push(c));
        lemma_encode_push(start, c);
        lemma_scalar_bytes(c);
        let bytes = encode_utf8(start);
        let before = split_when(start, cut);
        if c == sep {
            assert(encode_utf8(s) =~= bytes.push(sep as u8));
            assert(bytes.push(sep as u8).drop_last() =~= bytes);
            assert(encode_utf8(Seq::<char>::empty()) =~= Seq::empty());
            assert(split_when(encode_utf8(s), byte_cut) =~= encoded(split_when(s, cut)));
        } else {
            let more = encode_scalar(c as u32);
            lemma_other_bytes(c, sep);
            lemma_split_add(bytes, more, sep as u8);
            lemma_encode_push(before.last(), c);
            assert(split_when(encode_utf8(s), byte_cut) =~= encoded(split_when(s, cut)));
        }
    }
}

/// A text without an ASCII character is encoded without its byte.
pub proof fn lemma_encoded_free(s: Seq<char>, c: char)
    requires
        !s.contains(c),
        (c as u32) < 128,
    ensures
        !encode_utf8(s).contains(c as u8),
    decreases s.len(),
{
    if s.len() == 0 {
        assert(encode_utf8(s) =~= Seq::empty());
    } else {
        let start = s.drop_last();
        assert(s =~= start.push(s.last()));
        assert(s[s.len() - 1] != c);
        assert(!start.contains(c)) by {
            if start.contains(c) {
                let k = choose|k: int| 0 <= k < start.len() && start[k] == c;
                assert(s[k] == c);
            }
        }
        lemma_encoded_free(start, c);
        lemma_encode_push(start, s.last());
        lemma_other_bytes(s.last(), c);
        let more = encode_scalar(s.last() as u32);
        let bytes = encode_utf8(s);
        if bytes.contains(c as u8) {
            let k = choose|k: int| 0 <= k < bytes.len() && bytes[k] == c as u8;
            if k < encode_utf8(start).len() {
                assert(encode_utf8(start)[k] == c as u8);
            } else {
                assert(more[k - encode_utf8(start).len()] == c as u8);
            }
        }
    }
}

/// A line that is appended to a table of bytes whose last line is complete is read
/// back behind those that were there, unless it ends in a carriage return.
pub proof fn law_appended_bytes(table: Seq<u8>, line: Seq<char>)
    requires
        table.len() == 0 || table.last() == 10u8,
        !line.contains('\n'),
        line.len() == 0 || line.last() != '\r',
    ensures
        lines_by(table + encode_utf8(line.push('\n')), 10u8, 13u8) == lines_by(
            table,
            10u8,
            13u8,
        ).push(encode_utf8(line)),
{
    let cut = only(10u8);
    let bytes = encode_utf8(line);
    let before = split_when(table, cut);
    lemma_split_nonempty(table, cut);
    lemma_encode_push(line, '\n');
    lemma_scalar_bytes('\n');
    assert(encode_utf8(line.push('\n')) =~= bytes.push(10u8));
    lemma_encoded_free(line, '\n');
    assert(before.last().len() == 0) by {
        if table.len() > 0 {
            assert(split_when(table, cut) == split_when(table.drop_last(), cut).push(Seq::empty()));
        }
    }
    lemma_split_add(table, bytes, 10u8);
    assert(before.last() + bytes =~= bytes);
    let whole = table + bytes;
    assert(table + bytes.push(10u8) =~= whole.push(10u8));
    assert(whole.push(10u8).drop_last() =~= whole);
    let after = split_when(whole.push(10u8), cut);
    assert(after == split_when(whole, cut).push(Seq::empty()));
    assert(after.drop_last() =~= before.drop_last().push(bytes));
    lemma_without_last_encoded(line, '\r');
    assert(lines_by(whole.push(10u8), 10u8, 13u8) =~= lines_by(table, 10u8, 13u8).push(bytes));
}

/// Dropping an ASCII character at the end and encoding commute.
proof fn lemma_without_last_encoded(l: Seq<char>, mark: char)
    requires
        (mark as u32) < 128,
    ensures
        without_last(encode_utf8(l), mark as u8) == encode_utf8(without_last(l, mark)),
{
    if l.len() > 0 {
        let start = l.drop_last();
        let c = l.last();
        assert(l =~= start.push(c));
        lemma_encode_push(start, c);
        lemma_scalar_bytes(c);
        let bytes = encode_utf8(l);
        let tail = encode_scalar(c as u32);
        assert(bytes.last() == tail[tail.len() - 1]);
        if c == mark {
            assert(bytes.drop_last() =~= encode_utf8(start));
        } else {
            lemma_other_bytes(c, mark);
            assert(tail.contains(tail[tail.len() - 1]));
        }
    }
}

/// The lines of the encoding of a text are the encodings of its lines.
pub proof fn law_lines_encoded(s: Seq<char>)
    ensures
        lines_by(encode_utf8(s), 10u8, 13u8) == encoded(lines(s)),
{
    lemma_split_encoded(s, '\n');
    let parts = split_when(s, only('\n'));
    lemma_split_nonempty(s, only('\n'));
    let last = parts.last();
    assert(encode_utf8(last).len() == 0 <==> last.len() == 0) by {
        if last.len() > 0 {
            assert(last =~= last.drop_last().push(last.last()));
            lemma_encode_push(last.drop_last(), last.last());
            lemma_scalar_bytes(last.last());
        }
    }
    assert forall|i: int| 0 <= i < parts.len() - 1 implies without_last(
        #[trigger] encoded(parts)[i],
        13u8,
    ) == encode_utf8(without_last(parts[i], '\r')) by {
        lemma_without_last_encoded(parts[i], '\r');
    }
    assert(lines_by(encode_utf8(s), 10u8, 13u8) =~= encoded(lines(s)));
}

/// Decoding the lines of the encoding of a text gives the lines of the text.
pub proof fn law_encoded_lines_decode(s: Seq<char>)
    ensures
        forall|i: int|
            0 <= i < lines_by(encode_utf8(s), 10u8, 13u8).len() ==> valid_utf8(
                #[trigger] lines_by(encode_utf8(s), 10u8, 13u8)[i],
            ),
        lines_by(encode_utf8(s), 10u8, 13u8).map_values(|l: Seq<u8>| decode_utf8(l)) == lines(s),
{
    law_lines_encoded(s);
    broadcast use {encode_utf8_valid_utf8, encode_utf8_decode_utf8};

    assert(encoded(lines(s)).map_values(|l: Seq<u8>| decode_utf8(l)) =~= lines(s));
}

} // verus!
