//! Text: splitting, trimming, numbers and padding.
//!
//! The spec functions say what each operation means on a sequence of
//! characters; the executable functions beside them are proved equal to those.
use vstd::prelude::*;
use vstd::slice::slice_to_vec;

verus! {

broadcast use vstd::string::group_string_axioms;

// ---------------------------------------------------------------- characters

/// `String::push` appends one character at the end of the string.
pub assume_specification[ String::push ](s: &mut String, c: char)
    ensures
        final(s)@ == old(s)@.push(c),
;

/// The characters with the Unicode property `White_Space`.
pub open spec fn is_blank(c: char) -> bool {
    let u = c as u32;
    ||| 0x9 <= u <= 0xd
    ||| u == 0x20
    ||| u == 0x85
    ||| u == 0xa0
    ||| u == 0x1680
    ||| 0x2000 <= u <= 0x200a
    ||| u == 0x2028
    ||| u == 0x2029
    ||| u == 0x202f
    ||| u == 0x205f
    ||| u == 0x3000
}

/// Tells whether a character is white space.
pub fn blank(c: char) -> (r: bool)
    ensures
        r == is_blank(c),
{
    let u: u32 = c as u32;
    (0x9 <= u && u <= 0xd) || u == 0x20 || u == 0x85 || u == 0xa0 || u == 0x1680 || (0x2000 <= u
        && u <= 0x200a) || u == 0x2028 || u == 0x2029 || u == 0x202f || u == 0x205f || u == 0x3000
}

/// The characters of a string, one by one.
pub fn chars_of(s: &str) -> (r: Vec<char>)
    ensures
        r@ == s@,
{
    let mut r: Vec<char> = Vec::new();
    for c in it: s.chars()
        invariant
            it.seq() == s@,
            r@ == s@.take(it.index() as int),
    {
        r.push(c);
    }
    r
}

/// The string made of the given characters.
pub fn string_of(chars: &[char]) -> (r: String)
    ensures
        r@ == chars@,
{
    let mut r: String = String::new();
    let mut i: usize = 0;
    while i < chars.len()
        invariant
            i <= chars@.len(),
            r@ == chars@.take(i as int),
        decreases chars@.len() - i,
    {
        r.push(chars[i]);
        i = i + 1;
    }
    r
}

/// The texts of a list of strings.
pub open spec fn texts(v: Seq<String>) -> Seq<Seq<char>> {
    v.map_values(|s: String| s@)
}

/// Pushing a string pushes its text.
pub proof fn lemma_texts_push(v: Seq<String>, s: String)
    ensures
        texts(v.push(s)) == texts(v).push(s@),
{
    assert(texts(v.push(s)) =~= texts(v).push(s@));
}

/// Copies a list of texts.
pub fn copy_texts(v: &[String]) -> (r: Vec<String>)
    ensures
        texts(r@) == texts(v@),
{
    let mut r: Vec<String> = Vec::new();
    let mut i: usize = 0;
    assert(texts(r@) =~= texts(v@).take(0));
    while i < v.len()
        invariant
            i <= v@.len(),
            texts(r@) == texts(v@).take(i as int),
        decreases v@.len() - i,
    {
        let s: String = v[i].clone();
        proof {
            lemma_texts_push(r@, s);
        }
        r.push(s);
        assert(texts(v@).take(i + 1) =~= texts(v@).take(i as int).push(texts(v@)[i as int]));
        i = i + 1;
    }
    assert(texts(v@).take(i as int) =~= texts(v@));
    r
}

/// Tells whether two texts are equal.
pub fn same(a: &str, b: &str) -> (r: bool)
    ensures
        r == (a@ == b@),
{
    let x: String = a.to_owned();
    let y: String = b.to_owned();
    x == y
}

/// Different texts behind a common start make different texts.
pub proof fn lemma_prefix_injective(p: Seq<char>, a: Seq<char>, b: Seq<char>)
    requires
        a != b,
    ensures
        p + a != p + b,
{
    if p + a == p + b {
        assert((p + a).skip(p.len() as int) =~= a);
        assert((p + b).skip(p.len() as int) =~= b);
    }
}

/// Different texts before a common end make different texts.
pub proof fn lemma_suffix_injective(a: Seq<char>, b: Seq<char>, s: Seq<char>)
    requires
        a != b,
    ensures
        a + s != b + s,
{
    if a + s == b + s {
        assert((a + s).len() == (b + s).len());
        assert((a + s).take(a.len() as int) =~= a);
        assert((b + s).take(b.len() as int) =~= b);
    }
}

// ------------------------------------------------------------------ splitting

/// The pieces between the elements that `cut` accepts; one more than there are
/// such elements.
pub open spec fn split_when<A>(s: Seq<A>, cut: spec_fn(A) -> bool) -> Seq<Seq<A>>
    decreases s.len(),
{
    if s.len() == 0 {
        Seq::empty().push(Seq::empty())
    } else {
        let before = split_when(s.drop_last(), cut);
        if cut(s.last()) {
            before.push(Seq::empty())
        } else {
            before.drop_last().push(before.last().push(s.last()))
        }
    }
}

/// Accepts one element only.
pub open spec fn only<A>(x: A) -> spec_fn(A) -> bool {
    |y: A| y == x
}

/// Accepts white space.
pub open spec fn blanks() -> spec_fn(char) -> bool {
    |c: char| is_blank(c)
}

/// Accepts sequences that hold something.
pub open spec fn filled() -> spec_fn(Seq<char>) -> bool {
    |p: Seq<char>| p.len() > 0
}

/// There is always at least one piece.
pub proof fn lemma_split_nonempty<A>(s: Seq<A>, cut: spec_fn(A) -> bool)
    ensures
        split_when(s, cut).len() >= 1,
    decreases s.len(),
{
    if s.len() > 0 {
        lemma_split_nonempty(s.drop_last(), cut);
    }
}

/// What holds no cut lengthens the last piece.
pub proof fn lemma_split_add<A>(s: Seq<A>, more: Seq<A>, sep: A)
    requires
        !more.contains(sep),
    ensures
        split_when(s + more, only(sep)) == split_when(s, only(sep)).drop_last().push(
            split_when(s, only(sep)).last() + more,
        ),
    decreases more.len(),
{
    let cut = only(sep);
    let before = split_when(s, cut);
    lemma_split_nonempty(s, cut);
    if more.len() == 0 {
        assert(s + more =~= s);
        assert(before.last() + more =~= before.last());
        assert(before.drop_last().push(before.last()) =~= before);
    } else {
        let less = more.drop_last();
        assert(!less.contains(sep)) by {
            if less.contains(sep) {
                let k = choose|k: int| 0 <= k < less.len() && less[k] == sep;
                assert(more[k] == sep);
            }
        }
        lemma_split_add(s, less, sep);
        assert((s + more).drop_last() =~= s + less);
        assert((s + more).last() == more.last());
        assert(more[more.len() - 1] == more.last());
        assert(!cut(more.last()));
        assert(split_when(s + less, cut).drop_last() =~= before.drop_last());
        assert((before.last() + less).push(more.last()) =~= before.last() + more);
    }
}

/// No piece holds the element at which it was cut.
pub proof fn lemma_pieces_free<A>(s: Seq<A>, sep: A)
    ensures
        forall|i: int|
            0 <= i < split_when(s, only(sep)).len() ==> !(#[trigger] split_when(
                s,
                only(sep),
            )[i]).contains(sep),
    decreases s.len(),
{
    let now = split_when(s, only(sep));
    if s.len() == 0 {
        assert(now[0] =~= Seq::empty());
    } else {
        let before = split_when(s.drop_last(), only(sep));
        lemma_pieces_free(s.drop_last(), sep);
        lemma_split_nonempty(s.drop_last(), only(sep));
        assert forall|i: int| 0 <= i < now.len() implies !(#[trigger] now[i]).contains(sep) by {
            if i < before.len() {
                assert(!before[i].contains(sep));
                if now[i].contains(sep) {
                    let k = choose|k: int| 0 <= k < now[i].len() && now[i][k] == sep;
                    assert(before[i][k] == sep);
                }
            }
        }
    }
}

/// The contents of a list of lists.
pub open spec fn inner<A>(v: Seq<Vec<A>>) -> Seq<Seq<A>> {
    v.map_values(|p: Vec<A>| p@)
}

/// Splits wherever a mark stands, given a mark for each element that `cut`
/// accepts.
fn split_marked<A: Copy>(
    s: &[A],
    marks: &Vec<bool>,
    Ghost(cut): Ghost<spec_fn(A) -> bool>,
) -> (r: Vec<Vec<A>>)
    requires
        marks@.len() == s@.len(),
        forall|j: int| 0 <= j < s@.len() ==> (#[trigger] marks@[j]) == cut(s@[j]),
    ensures
        inner(r@) == split_when(s@, cut),
{
    let mut done: Vec<Vec<A>> = Vec::new();
    let mut current: Vec<A> = Vec::new();
    let mut i: usize = 0;
    assert(inner(done@) =~= Seq::empty());
    assert(s@.take(0) =~= Seq::empty());
    assert(Seq::<Seq<A>>::empty().push(current@) =~= split_when(s@.take(0), cut));
    while i < s.len()
        invariant
            i <= s@.len(),
            marks@.len() == s@.len(),
            forall|j: int| 0 <= j < s@.len() ==> (#[trigger] marks@[j]) == cut(s@[j]),
            inner(done@).push(current@) == split_when(s@.take(i as int), cut),
        decreases s@.len() - i,
    {
        let x: A = s[i];
        proof {
            assert(s@.take(i + 1).drop_last() =~= s@.take(i as int));
            assert(s@.take(i + 1).last() == x);
            assert(inner(done@).push(current@).drop_last() =~= inner(done@));
        }
        if marks[i] {
            let ghost old_done = done@;
            let ghost old_current = current@;
            done.push(current);
            current = Vec::new();
            assert(inner(done@) =~= inner(old_done).push(old_current));
            assert(current@ =~= Seq::empty());
        } else {
            current.push(x);
        }
        i = i + 1;
    }
    assert(s@.take(s@.len() as int) =~= s@);
    let ghost before = done@;
    let ghost last = current@;
    done.push(current);
    assert(inner(done@) =~= inner(before).push(last));
    done
}

/// Splits at every `sep`.
fn split_at_char(s: &[char], sep: char) -> (r: Vec<Vec<char>>)
    ensures
        inner(r@) == split_when(s@, only(sep)),
{
    let mut marks: Vec<bool> = Vec::new();
    let mut i: usize = 0;
    while i < s.len()
        invariant
            i <= s@.len(),
            marks@.len() == i,
            forall|j: int| 0 <= j < i ==> (#[trigger] marks@[j]) == only(sep)(s@[j]),
        decreases s@.len() - i,
    {
        marks.push(s[i] == sep);
        i = i + 1;
    }
    split_marked(s, &marks, Ghost(only(sep)))
}

/// Splits at every white-space character.
fn split_at_blanks(s: &[char]) -> (r: Vec<Vec<char>>)
    ensures
        inner(r@) == split_when(s@, blanks()),
{
    let mut marks: Vec<bool> = Vec::new();
    let mut i: usize = 0;
    while i < s.len()
        invariant
            i <= s@.len(),
            marks@.len() == i,
            forall|j: int| 0 <= j < i ==> (#[trigger] marks@[j]) == blanks()(s@[j]),
        decreases s@.len() - i,
    {
        marks.push(blank(s[i]));
        i = i + 1;
    }
    split_marked(s, &marks, Ghost(blanks()))
}

/// Splits at every byte `sep`.
fn split_at_byte(s: &[u8], sep: u8) -> (r: Vec<Vec<u8>>)
    ensures
        inner(r@) == split_when(s@, only(sep)),
{
    let mut marks: Vec<bool> = Vec::new();
    let mut i: usize = 0;
    while i < s.len()
        invariant
            i <= s@.len(),
            marks@.len() == i,
            forall|j: int| 0 <= j < i ==> (#[trigger] marks@[j]) == only(sep)(s@[j]),
        decreases s@.len() - i,
    {
        marks.push(s[i] == sep);
        i = i + 1;
    }
    split_marked(s, &marks, Ghost(only(sep)))
}

/// The strings made of the given pieces.
fn strings_of(pieces: &Vec<Vec<char>>) -> (r: Vec<String>)
    ensures
        texts(r@) == inner(pieces@),
{
    let mut r: Vec<String> = Vec::new();
    let mut i: usize = 0;
    while i < pieces.len()
        invariant
            i <= pieces@.len(),
            texts(r@) =~= inner(pieces@).take(i as int),
        decreases pieces@.len() - i,
    {
        let s: String = string_of(pieces[i].as_slice());
        proof {
            lemma_texts_push(r@, s);
        }
        r.push(s);
        i = i + 1;
    }
    r
}

/// The fields of a text in which `sep` stands between one field and the next.
pub open spec fn fields(s: Seq<char>, sep: char) -> Seq<Seq<char>> {
    split_when(s, only(sep))
}

/// Splits a text at a separator.
pub fn split_fields(s: &str, sep: char) -> (r: Vec<String>)
    ensures
        texts(r@) == fields(s@, sep),
{
    let chars: Vec<char> = chars_of(s);
    let pieces: Vec<Vec<char>> = split_at_char(chars.as_slice(), sep);
    strings_of(&pieces)
}

/// The text in which `sep` stands between one of the given fields and the next.
pub open spec fn joined(parts: Seq<Seq<char>>, sep: char) -> Seq<char>
    decreases parts.len(),
{
    if parts.len() == 0 {
        Seq::empty()
    } else if parts.len() == 1 {
        parts[0]
    } else {
        joined(parts.drop_last(), sep).push(sep) + parts.last()
    }
}

/// Growing the last field grows the joined text.
proof fn lemma_joined_grow(parts: Seq<Seq<char>>, sep: char, c: char)
    requires
        parts.len() >= 1,
    ensures
        joined(parts.drop_last().push(parts.last().push(c)), sep) == joined(parts, sep).push(c),
{
    let grown = parts.drop_last().push(parts.last().push(c));
    assert(grown.drop_last() =~= parts.drop_last());
    assert(joined(grown, sep) =~= joined(parts, sep).push(c));
}

/// Splitting a text and joining the fields gives the text back, and no field
/// holds the separator.
pub proof fn law_fields_join(s: Seq<char>, sep: char)
    ensures
        joined(fields(s, sep), sep) == s,
        forall|i: int| 0 <= i < fields(s, sep).len() ==> !(#[trigger] fields(s, sep)[i]).contains(sep),
    decreases s.len(),
{
    lemma_pieces_free(s, sep);
    lemma_split_nonempty(s, only(sep));
    if s.len() > 0 {
        let start = s.drop_last();
        let before = fields(start, sep);
        law_fields_join(start, sep);
        lemma_split_nonempty(start, only(sep));
        assert(s =~= start.push(s.last()));
        if s.last() == sep {
            let now = before.push(Seq::empty());
            assert(fields(s, sep) == now);
            assert(now.drop_last() =~= before);
            assert(joined(now, sep) =~= s);
        } else {
            lemma_joined_grow(before, sep, s.last());
        }
    }
}

/// A separator ends the last field and starts an empty one.
pub proof fn lemma_fields_push_sep(s: Seq<char>, sep: char)
    ensures
        fields(s.push(sep), sep) == fields(s, sep).push(Seq::empty()),
{
    assert(s.push(sep).drop_last() =~= s);
}

/// Joining fields that hold no separator and splitting gives the fields back.
pub proof fn law_join_fields(parts: Seq<Seq<char>>, sep: char)
    requires
        parts.len() >= 1,
        forall|i: int| 0 <= i < parts.len() ==> !(#[trigger] parts[i]).contains(sep),
    ensures
        fields(joined(parts, sep), sep) == parts,
    decreases parts.len(),
{
    let nothing = Seq::<char>::empty();
    if parts.len() == 1 {
        lemma_split_add(nothing, parts[0], sep);
        assert(nothing + parts[0] =~= parts[0]);
        assert(fields(nothing, sep) =~= Seq::empty().push(nothing));
        assert(fields(parts[0], sep) =~= parts);
    } else {
        let less = parts.drop_last();
        assert forall|i: int| 0 <= i < less.len() implies !(#[trigger] less[i]).contains(sep) by {
            assert(!parts[i].contains(sep));
        }
        law_join_fields(less, sep);
        let start = joined(less, sep);
        lemma_fields_push_sep(start, sep);
        assert(!parts[parts.len() - 1].contains(sep));
        lemma_split_add(start.push(sep), parts.last(), sep);
        assert(less.push(nothing).drop_last() =~= less);
        assert(nothing + parts.last() =~= parts.last());
        assert(less.push(parts.last()) =~= parts);
    }
}

/// The words of a text: the longest runs without white space.
pub open spec fn words(s: Seq<char>) -> Seq<Seq<char>> {
    split_when(s, blanks()).filter(filled())
}

/// Splits a text into words.
pub fn split_words(s: &str) -> (r: Vec<String>)
    ensures
        texts(r@) == words(s@),
{
    let chars: Vec<char> = chars_of(s);
    let pieces: Vec<Vec<char>> = split_at_blanks(chars.as_slice());
    let all: Vec<String> = strings_of(&pieces);
    let mut r: Vec<String> = Vec::new();
    let mut i: usize = 0;
    reveal(Seq::filter);
    assert(texts(r@) =~= texts(all@).take(0).filter(filled()));
    while i < all.len()
        invariant
            i <= all@.len(),
            texts(r@) == texts(all@).take(i as int).filter(filled()),
        decreases all@.len() - i,
    {
        reveal(Seq::filter);
        assert(texts(all@).take(i + 1).drop_last() =~= texts(all@).take(i as int));
        assert(texts(all@).take(i + 1).last() == all@[i as int]@);
        if !all[i].as_str().is_empty() {
            let s: String = all[i].clone();
            proof {
                lemma_texts_push(r@, s);
            }
            r.push(s);
        }
        i = i + 1;
    }
    assert(texts(all@).take(all@.len() as int) =~= texts(all@));
    r
}

/// A line without the mark `cr` that may precede its end.
pub open spec fn without_last<A>(line: Seq<A>, cr: A) -> Seq<A> {
    if line.len() > 0 && line.last() == cr {
        line.drop_last()
    } else {
        line
    }
}

/// The lines of a sequence: each ends in `nl`, or in `cr` and `nl`; the end of
/// the last one may be missing.
pub open spec fn lines_by<A>(s: Seq<A>, nl: A, cr: A) -> Seq<Seq<A>> {
    let parts = split_when(s, only(nl));
    let ended = parts.drop_last().map_values(|l: Seq<A>| without_last(l, cr));
    if parts.last().len() == 0 {
        ended
    } else {
        ended.push(parts.last())
    }
}

/// The lines of a text.
pub open spec fn lines(s: Seq<char>) -> Seq<Seq<char>> {
    lines_by(s, '\n', '\r')
}

/// The list without its last element.
fn without_end<A: Copy>(v: &Vec<A>) -> (r: Vec<A>)
    requires
        v@.len() > 0,
    ensures
        r@ == v@.drop_last(),
{
    let mut r: Vec<A> = Vec::new();
    let mut i: usize = 0;
    while i < v.len() - 1
        invariant
            v@.len() > 0,
            i <= v@.len() - 1,
            r@ == v@.take(i as int),
        decreases v@.len() - 1 - i,
    {
        r.push(v[i]);
        i = i + 1;
    }
    assert(r@ =~= v@.drop_last());
    r
}

/// Splits a text into lines.
pub fn split_lines(s: &str) -> (r: Vec<String>)
    ensures
        texts(r@) == lines(s@),
{
    let chars: Vec<char> = chars_of(s);
    let parts: Vec<Vec<char>> = split_at_char(chars.as_slice(), '\n');
    let ghost ps = inner(parts@);
    proof {
        lemma_split_nonempty(s@, only('\n'));
        assert(ps.len() == parts@.len());
    }
    let n: usize = parts.len() - 1;
    let mut r: Vec<String> = Vec::new();
    let mut i: usize = 0;
    let ghost ended = ps.drop_last().map_values(|l: Seq<char>| without_last(l, '\r'));
    while i < n
        invariant
            i <= n,
            n == parts@.len() - 1,
            ps == inner(parts@),
            ended == ps.drop_last().map_values(|l: Seq<char>| without_last(l, '\r')),
            texts(r@) =~= ended.take(i as int),
        decreases n - i,
    {
        let k: usize = parts[i].len();
        assert(ps.drop_last()[i as int] == parts@[i as int]@);
        let line: String = if k > 0 && parts[i][k - 1] == '\r' {
            let short: Vec<char> = without_end(&parts[i]);
            string_of(short.as_slice())
        } else {
            string_of(parts[i].as_slice())
        };
        proof {
            lemma_texts_push(r@, line);
        }
        r.push(line);
        i = i + 1;
    }
    assert(ended.take(n as int) =~= ended);
    if parts[n].len() > 0 {
        let line: String = string_of(parts[n].as_slice());
        proof {
            lemma_texts_push(r@, line);
        }
        r.push(line);
    }
    r
}

/// Splits bytes into lines.
pub fn split_byte_lines(s: &[u8]) -> (r: Vec<Vec<u8>>)
    ensures
        inner(r@) == lines_by(s@, 10u8, 13u8),
{
    let mut parts: Vec<Vec<u8>> = split_at_byte(s, 10u8);
    let ghost ps = inner(parts@);
    proof {
        lemma_split_nonempty(s@, only(10u8));
        assert(ps.len() == parts@.len());
    }
    let last: Option<Vec<u8>> = parts.pop();
    let mut r: Vec<Vec<u8>> = Vec::new();
    let mut i: usize = 0;
    let ghost ended = ps.drop_last().map_values(|l: Seq<u8>| without_last(l, 13u8));
    while i < parts.len()
        invariant
            i <= parts@.len(),
            parts@.len() == ps.len() - 1,
            inner(parts@) == ps.drop_last(),
            ended == ps.drop_last().map_values(|l: Seq<u8>| without_last(l, 13u8)),
            inner(r@) =~= ended.take(i as int),
        decreases parts@.len() - i,
    {
        let k: usize = parts[i].len();
        assert(ps.drop_last()[i as int] == parts@[i as int]@);
        let ghost before = r@;
        if k > 0 && parts[i][k - 1] == 13u8 {
            r.push(without_end(&parts[i]));
        } else {
            r.push(slice_to_vec(parts[i].as_slice()));
        }
        assert(inner(r@) =~= inner(before).push(ended[i as int]));
        i = i + 1;
    }
    assert(ended.take(parts@.len() as int) =~= ended);
    match last {
        Some(l) => {
            if l.len() > 0 {
                let ghost before = r@;
                r.push(l);
                assert(inner(r@) =~= inner(before).push(l@));
            }
        },
        None => {},
    }
    r
}

// ------------------------------------------------------------------- trimming

/// A text without the white space at its end.
pub open spec fn end_trimmed(s: Seq<char>) -> Seq<char>
    decreases s.len(),
{
    if s.len() > 0 && is_blank(s.last()) {
        end_trimmed(s.drop_last())
    } else {
        s
    }
}

/// A text without the white space at its start.
pub open spec fn start_trimmed(s: Seq<char>) -> Seq<char>
    decreases s.len(),
{
    if s.len() > 0 && is_blank(s[0]) {
        start_trimmed(s.drop_first())
    } else {
        s
    }
}

/// A text without the white space at either end.
pub open spec fn trimmed(s: Seq<char>) -> Seq<char> {
    end_trimmed(start_trimmed(s))
}

/// Strips white space from both ends of a text.
pub fn trim(s: &str) -> (r: String)
    ensures
        r@ == trimmed(s@),
{
    let chars: Vec<char> = chars_of(s);
    let n: usize = chars.len();
    let mut a: usize = 0;
    assert(s@.skip(0) =~= s@);
    while a < n && blank(chars[a])
        invariant
            a <= n,
            n == chars@.len(),
            chars@ == s@,
            start_trimmed(s@) == start_trimmed(s@.skip(a as int)),
        decreases n - a,
    {
        assert(s@.skip(a as int).drop_first() =~= s@.skip(a + 1));
        a = a + 1;
    }
    let ghost rest = s@.skip(a as int);
    assert(start_trimmed(s@) == rest);
    let mut b: usize = n;
    assert(rest.take(n - a) =~= rest);
    while a < b && blank(chars[b - 1])
        invariant
            a <= b <= n,
            n == chars@.len(),
            chars@ == s@,
            rest == s@.skip(a as int),
            end_trimmed(rest) == end_trimmed(rest.take(b - a)),
        decreases b,
    {
        assert(rest.take(b - a).drop_last() =~= rest.take(b - 1 - a));
        b = b - 1;
    }
    assert(end_trimmed(rest) == rest.take(b - a));
    let mut r: String = String::new();
    let mut i: usize = a;
    while i < b
        invariant
            a <= i <= b <= n,
            n == chars@.len(),
            chars@ == s@,
            rest == s@.skip(a as int),
            r@ == rest.take(i - a),
        decreases b - i,
    {
        r.push(chars[i]);
        i = i + 1;
        assert(r@ =~= rest.take(i - a));
    }
    r
}

// -------------------------------------------------------------------- numbers

/// The digit that stands for a value below sixteen.
pub open spec fn digit(d: nat) -> char {
    if d == 0 {
        '0'
    } else if d == 1 {
        '1'
    } else if d == 2 {
        '2'
    } else if d == 3 {
        '3'
    } else if d == 4 {
        '4'
    } else if d == 5 {
        '5'
    } else if d == 6 {
        '6'
    } else if d == 7 {
        '7'
    } else if d == 8 {
        '8'
    } else if d == 9 {
        '9'
    } else if d == 10 {
        'a'
    } else if d == 11 {
        'b'
    } else if d == 12 {
        'c'
    } else if d == 13 {
        'd'
    } else if d == 14 {
        'e'
    } else {
        'f'
    }
}

/// Computes a digit.
fn digit_of(d: u8) -> (r: char)
    requires
        d < 16,
    ensures
        r == digit(d as nat),
{
    match d {
        0 => '0',
        1 => '1',
        2 => '2',
        3 => '3',
        4 => '4',
        5 => '5',
        6 => '6',
        7 => '7',
        8 => '8',
        9 => '9',
        10 => 'a',
        11 => 'b',
        12 => 'c',
        13 => 'd',
        14 => 'e',
        _ => 'f',
    }
}

/// A number in the given base, which is at most sixteen, without leading zeros.
pub open spec fn numeral(n: nat, base: nat) -> Seq<char>
    decreases n,
{
    if base < 2 || n < base {
        Seq::empty().push(digit(n))
    } else {
        proof {
            assert(n / base < n) by (nonlinear_arith)
                requires
                    n >= base,
                    base >= 2,
            ;
        }
        numeral(n / base, base).push(digit(n % base))
    }
}

/// A number in decimal.
pub open spec fn decimal(n: nat) -> Seq<char> {
    numeral(n, 10)
}

/// Writes a number in the given base.
fn format_numeral(n: u128, base: u128) -> (r: String)
    requires
        2 <= base <= 16,
    ensures
        r@ == numeral(n as nat, base as nat),
    decreases n,
{
    if n < base {
        let mut r: String = String::new();
        r.push(digit_of(n as u8));
        r
    } else {
        assert(n / base < n) by (nonlinear_arith)
            requires
                n >= base,
                base >= 2,
        ;
        let mut r: String = format_numeral(n / base, base);
        r.push(digit_of((n % base) as u8));
        r
    }
}

/// Writes a number in decimal.
pub fn format_decimal(n: u32) -> (r: String)
    ensures
        r@ == decimal(n as nat),
{
    format_numeral(n as u128, 10)
}

/// A number in hexadecimal, with a leading zero where it has one digit.
pub open spec fn hex_octet(n: nat) -> Seq<char> {
    if n < 16 {
        Seq::empty().push('0') + numeral(n, 16)
    } else {
        numeral(n, 16)
    }
}

/// Writes a number in hexadecimal, at least two digits wide.
pub fn format_hex_octet(n: u128) -> (r: String)
    ensures
        r@ == hex_octet(n as nat),
{
    let digits: String = format_numeral(n, 16);
    if n < 16 {
        let mut r: String = String::new();
        r.push('0');
        r.concat(digits.as_str())
    } else {
        digits
    }
}

/// A decimal digit.
pub open spec fn is_digit(c: char) -> bool {
    '0' <= c && c <= '9'
}

/// Decimal digits only.
pub open spec fn all_digits(s: Seq<char>) -> bool {
    forall|i: int| 0 <= i < s.len() ==> is_digit(#[trigger] s[i])
}

/// The value of a sequence of decimal digits.
pub open spec fn digits_value(s: Seq<char>) -> int
    decreases s.len(),
{
    if s.len() == 0 {
        0
    } else {
        digits_value(s.drop_last()) * 10 + (s.last() as int - '0' as int)
    }
}

/// The number that a text denotes: one decimal digit or more, after an optional
/// plus sign, of a value that fits in 32 bits.
pub open spec fn number(s: Seq<char>) -> Option<u32> {
    let digits = if s.len() > 0 && s[0] == '+' {
        s.drop_first()
    } else {
        s
    };
    if digits.len() > 0 && all_digits(digits) && digits_value(digits) <= u32::MAX {
        Some(digits_value(digits) as u32)
    } else {
        None
    }
}

/// Reads a 32-bit number.
pub fn parse_u32(s: &str) -> (r: Option<u32>)
    ensures
        r == number(s@),
{
    let chars: Vec<char> = chars_of(s);
    let n: usize = chars.len();
    let start: usize = if n > 0 && chars[0] == '+' {
        1
    } else {
        0
    };
    let ghost digits = if s@.len() > 0 && s@[0] == '+' {
        s@.drop_first()
    } else {
        s@
    };
    assert(digits =~= s@.skip(start as int));
    if start >= n {
        return None;
    }
    let mut value: u64 = 0;
    let mut over: bool = false;
    let mut i: usize = start;
    assert(digits.take(0) =~= Seq::empty());
    while i < n
        invariant
            start <= i <= n,
            n == chars@.len(),
            chars@ == s@,
            digits == s@.skip(start as int),
            digits == (if s@.len() > 0 && s@[0] == '+' {
                s@.drop_first()
            } else {
                s@
            }),
            all_digits(digits.take(i - start)),
            !over ==> value == digits_value(digits.take(i - start)) && value <= u32::MAX,
            over ==> digits_value(digits.take(i - start)) > u32::MAX,
        decreases n - i,
    {
        let c: char = chars[i];
        assert(digits[i - start] == c);
        if c < '0' || c > '9' {
            assert(!is_digit(digits[i - start]));
            return None;
        }
        let d: u64 = (c as u32 - '0' as u32) as u64;
        proof {
            let now = digits.take(i - start + 1);
            assert(now.drop_last() =~= digits.take(i - start));
            assert(now.last() == c);
            assert forall|j: int| 0 <= j < now.len() implies is_digit(#[trigger] now[j]) by {
                if j < i - start {
                    assert(is_digit(digits.take(i - start)[j]));
                }
            }
        }
        if !over {
            value = value * 10 + d;
            if value > u32::MAX as u64 {
                over = true;
            }
        }
        i = i + 1;
    }
    assert(digits.take(n - start) =~= digits);
    if over {
        None
    } else {
        Some(value as u32)
    }
}

/// Decimal numerals consist of digits, have at least one, and have the value
/// that they were written for.
pub proof fn lemma_decimal(n: nat)
    ensures
        decimal(n).len() > 0,
        all_digits(decimal(n)),
        digits_value(decimal(n)) == n,
    decreases n,
{
    reveal_with_fuel(digits_value, 2);
    if n < 10 {
        assert(decimal(n) =~= Seq::empty().push(digit(n)));
        assert(decimal(n).drop_last() =~= Seq::empty());
    } else {
        lemma_decimal(n / 10);
        let high = decimal(n / 10);
        assert(decimal(n) == high.push(digit(n % 10)));
        assert(decimal(n).drop_last() =~= high);
        assert(decimal(n).last() == digit(n % 10));
        assert forall|i: int| 0 <= i < decimal(n).len() implies is_digit(
            #[trigger] decimal(n)[i],
        ) by {
            if i < high.len() {
                assert(is_digit(high[i]));
            }
        }
    }
}

/// Reading back a number that was written in decimal gives that number, and
/// there is no white space to trim from it.
pub proof fn law_decimal_reads_back(n: u32)
    ensures
        number(decimal(n as nat)) == Some(n),
        trimmed(decimal(n as nat)) == decimal(n as nat),
{
    lemma_decimal(n as nat);
    let s = decimal(n as nat);
    assert(is_digit(s[0]));
    assert(is_digit(s[s.len() - 1]));
    assert(!is_blank(s[0]));
    assert(!is_blank(s.last()));
}

/// Different numbers have different decimal numerals.
pub proof fn law_decimal_injective(m: nat, n: nat)
    requires
        decimal(m) == decimal(n),
    ensures
        m == n,
{
    lemma_decimal(m);
    lemma_decimal(n);
}

// ------------------------------------------------------------------ searching

/// `needle` stands in `s` at position `i`.
pub open spec fn stands_at(s: Seq<char>, needle: Seq<char>, i: int) -> bool {
    0 <= i && i + needle.len() <= s.len() && s.subrange(i, i + needle.len()) == needle
}

/// `needle` stands somewhere in `s`.
pub open spec fn holds(s: Seq<char>, needle: Seq<char>) -> bool {
    exists|i: int| stands_at(s, needle, i)
}

/// `s` starts with `prefix`.
pub open spec fn begins(s: Seq<char>, prefix: Seq<char>) -> bool {
    stands_at(s, prefix, 0)
}

/// Tells whether `needle` stands at position `at`.
pub fn matches_at(s: &Vec<char>, needle: &Vec<char>, at: usize) -> (r: bool)
    requires
        at <= s@.len(),
    ensures
        r == stands_at(s@, needle@, at as int),
{
    let n: usize = s.len();
    if needle.len() > n - at {
        return false;
    }
    let mut i: usize = 0;
    while i < needle.len()
        invariant
            i <= needle@.len(),
            n == s@.len(),
            at + needle@.len() <= n,
            forall|j: int| 0 <= j < i ==> s@[at + j] == needle@[j],
        decreases needle@.len() - i,
    {
        if s[at + i] != needle[i] {
            assert(s@.subrange(at as int, at + needle@.len())[i as int] != needle@[i as int]);
            return false;
        }
        i = i + 1;
    }
    assert(s@.subrange(at as int, at + needle@.len()) =~= needle@);
    true
}

/// Tells whether a text holds another.
pub fn contains(s: &str, needle: &str) -> (r: bool)
    ensures
        r == holds(s@, needle@),
{
    let hay: Vec<char> = chars_of(s);
    let pin: Vec<char> = chars_of(needle);
    let mut at: usize = 0;
    loop
        invariant
            hay@ == s@,
            pin@ == needle@,
            at <= hay@.len(),
            forall|i: int| 0 <= i < at ==> !stands_at(s@, needle@, i),
        decreases hay@.len() - at,
    {
        if matches_at(&hay, &pin, at) {
            return true;
        }
        if at >= hay.len() {
            return false;
        }
        at = at + 1;
    }
}

/// Tells whether a text starts with another.
pub fn starts_with(s: &str, prefix: &str) -> (r: bool)
    ensures
        r == begins(s@, prefix@),
{
    let hay: Vec<char> = chars_of(s);
    let pin: Vec<char> = chars_of(prefix);
    matches_at(&hay, &pin, 0)
}

/// A text that ends in `c`.
pub open spec fn ends(s: Seq<char>, c: char) -> bool {
    s.len() > 0 && s.last() == c
}

/// Tells whether a text ends in a character.
pub fn ends_with(s: &str, c: char) -> (r: bool)
    ensures
        r == ends(s@, c),
{
    let chars: Vec<char> = chars_of(s);
    let n: usize = chars.len();
    n > 0 && chars[n - 1] == c
}

/// A text stands before another in a dictionary: at the first place where they
/// differ it has ended, or has the smaller character.
pub open spec fn precedes(a: Seq<char>, b: Seq<char>) -> bool
    decreases b.len(),
{
    if b.len() == 0 {
        false
    } else if a.len() == 0 {
        true
    } else {
        a[0] < b[0] || (a[0] == b[0] && precedes(a.skip(1), b.skip(1)))
    }
}

/// Tells whether a text stands before another.
pub fn is_before(a: &str, b: &str) -> (r: bool)
    ensures
        r == precedes(a@, b@),
{
    let left: Vec<char> = chars_of(a);
    let right: Vec<char> = chars_of(b);
    let mut i: usize = 0;
    assert(a@.skip(0) =~= a@);
    assert(b@.skip(0) =~= b@);
    while i < left.len() && i < right.len()
        invariant
            i <= left@.len(),
            i <= right@.len(),
            left@ == a@,
            right@ == b@,
            precedes(a@, b@) == precedes(a@.skip(i as int), b@.skip(i as int)),
        decreases left@.len() - i,
    {
        assert(a@.skip(i as int).skip(1) =~= a@.skip(i + 1));
        assert(b@.skip(i as int).skip(1) =~= b@.skip(i + 1));
        if left[i] < right[i] {
            return true;
        }
        if left[i] != right[i] {
            return false;
        }
        i = i + 1;
    }
    i < right.len()
}

/// The order of texts is an order: no text stands before itself, and what stands
/// before a text stands before all that follow it. Of two texts one stands before
/// the other, unless they are the same.
pub proof fn law_texts_are_ordered(a: Seq<char>, b: Seq<char>, c: Seq<char>)
    ensures
        !precedes(a, a),
        precedes(a, b) && precedes(b, c) ==> precedes(a, c),
        precedes(a, b) || precedes(b, a) || a == b,
    decreases a.len() + b.len() + c.len(),
{
    if a.len() > 0 && b.len() > 0 {
        let rest = if c.len() > 0 {
            c.skip(1)
        } else {
            c
        };
        law_texts_are_ordered(a.skip(1), b.skip(1), rest);
        if a[0] == b[0] && a.skip(1) == b.skip(1) {
            assert(a =~= Seq::empty().push(a[0]) + a.skip(1));
            assert(b =~= Seq::empty().push(b[0]) + b.skip(1));
        }
    } else if a.len() > 0 {
        law_texts_are_ordered(a.skip(1), b, c);
    } else if b.len() == 0 {
        assert(a =~= b);
    }
}

/// Tells whether a text holds a character.
pub fn has_char(s: &str, c: char) -> (r: bool)
    ensures
        r == s@.contains(c),
{
    let chars: Vec<char> = chars_of(s);
    let mut i: usize = 0;
    while i < chars.len()
        invariant
            chars@ == s@,
            i <= chars@.len(),
            forall|j: int| 0 <= j < i ==> chars@[j] != c,
        decreases chars@.len() - i,
    {
        if chars[i] == c {
            assert(s@[i as int] == c);
            return true;
        }
        i = i + 1;
    }
    false
}

// -------------------------------------------------------------------- Unicode

/// Decodes bytes by `std::str::from_utf8`, which accepts exactly the bytes that
/// are UTF-8 and hands them back as text.
#[verifier::external_body]
pub(crate) fn decode(bytes: &[u8]) -> (r: Option<String>)
    ensures
        r is Some == vstd::utf8::valid_utf8(bytes@),
        r matches Some(s) ==> s@ == vstd::utf8::decode_utf8(bytes@),
{
    match std::str::from_utf8(bytes) {
        Ok(s) => Some(s.to_owned()),
        Err(_) => None,
    }
}

/// What `String::from_utf8_lossy` makes of bytes.
pub uninterp spec fn lossy_text(bytes: Seq<u8>) -> Seq<char>;

/// Decodes bytes by `String::from_utf8_lossy`: bytes that are UTF-8 become the
/// text they encode; what stands for other bytes is given a name only.
#[verifier::external_body]
pub(crate) fn decode_lossy(bytes: &[u8]) -> (r: String)
    ensures
        r@ == lossy_text(bytes@),
        vstd::utf8::valid_utf8(bytes@) ==> r@ == vstd::utf8::decode_utf8(bytes@),
{
    String::from_utf8_lossy(bytes).into_owned()
}

/// What `str::to_lowercase` makes of a text.
pub uninterp spec fn lowercase(s: Seq<char>) -> Seq<char>;

/// A text of ASCII characters.
pub open spec fn is_ascii_text(s: Seq<char>) -> bool {
    forall|i: int| 0 <= i < s.len() ==> (#[trigger] s[i] as u32) < 128
}

/// The small letter for a capital one of ASCII, and any other character itself.
pub open spec fn small(c: char) -> char {
    if 'A' <= c && c <= 'Z' {
        ((c as u32) + 32) as char
    } else {
        c
    }
}

/// Puts a text in lower case by `str::to_lowercase`: capital letters of an ASCII
/// text become small ones and nothing else changes; the Unicode tables that decide
/// beyond ASCII are given a name only.
#[verifier::external_body]
pub(crate) fn to_lower(s: &str) -> (r: String)
    ensures
        r@ == lowercase(s@),
        is_ascii_text(s@) ==> r@ == s@.map_values(|c: char| small(c)),
{
    s.to_lowercase()
}

/// What `char::is_alphanumeric` says of a character.
pub uninterp spec fn unicode_alphanumeric(c: char) -> bool;

/// Asks `char::is_alphanumeric`; the Unicode tables behind it are given a name
/// only.
#[verifier::external_body]
fn ask_alphanumeric(c: char) -> (r: bool)
    ensures
        r == unicode_alphanumeric(c),
{
    c.is_alphanumeric()
}

/// A letter or a digit: within ASCII these are `0`-`9`, `A`-`Z` and `a`-`z`;
/// beyond it the Unicode tables decide.
pub open spec fn is_alphanumeric(c: char) -> bool {
    if (c as u32) < 128 {
        is_digit(c) || ('A' <= c && c <= 'Z') || ('a' <= c && c <= 'z')
    } else {
        unicode_alphanumeric(c)
    }
}

/// Tells whether a character is a letter or a digit.
pub fn alphanumeric(c: char) -> (r: bool)
    ensures
        r == is_alphanumeric(c),
{
    if (c as u32) < 128 {
        ('0' <= c && c <= '9') || ('A' <= c && c <= 'Z') || ('a' <= c && c <= 'z')
    } else {
        ask_alphanumeric(c)
    }
}

// -------------------------------------------------------------------- padding

/// A text followed by as many spaces as make it `width` characters long.
pub open spec fn padded(s: Seq<char>, width: nat) -> Seq<char>
    decreases width,
{
    if s.len() >= width {
        s
    } else {
        padded(s, (width - 1) as nat).push(' ')
    }
}

/// Pads a text with spaces on the right.
pub fn pad(s: &str, width: usize) -> (r: String)
    ensures
        r@ == padded(s@, width as nat),
{
    let n: usize = s.unicode_len();
    let mut r: String = s.to_owned();
    let mut k: usize = n;
    assert(padded(s@, n as nat) == s@);
    while k < width
        invariant
            n == s@.len(),
            n <= k,
            k <= width || r@ == padded(s@, width as nat),
            r@ == padded(s@, k as nat),
        decreases width - k,
    {
        r.push(' ');
        k = k + 1;
    }
    if n >= width {
        assert(padded(s@, width as nat) == s@);
    }
    r
}

/// Padding keeps the text in front and reaches the width.
pub proof fn law_padded(s: Seq<char>, width: nat)
    ensures
        padded(s, width).len() == if s.len() >= width {
            s.len()
        } else {
            width
        },
        padded(s, width).take(s.len() as int) == s,
        forall|i: int| s.len() <= i < padded(s, width).len() ==> padded(s, width)[i] == ' ',
    decreases width,
{
    if s.len() < width {
        law_padded(s, (width - 1) as nat);
        assert(padded(s, width).take(s.len() as int) =~= s);
    } else {
        assert(s.take(s.len() as int) =~= s);
    }
}

/// `s` ends with `suffix`.
pub open spec fn closes(s: Seq<char>, suffix: Seq<char>) -> bool {
    suffix.len() <= s.len() && s.skip(s.len() - suffix.len()) == suffix
}

/// What is put together is found again: each part at its place.
pub proof fn law_parts_are_found(a: Seq<char>, m: Seq<char>, b: Seq<char>)
    ensures
        begins(m + b, m),
        closes(a + m, m),
        holds(a + m + b, m),
        holds(m + b, m),
        holds(a + m, m),
{
    assert((m + b).subrange(0, m.len() as int) =~= m);
    assert((a + m).skip((a + m).len() - m.len()) =~= m);
    assert((a + m + b).subrange(a.len() as int, (a + m).len() as int) =~= m);
    assert((a + m).subrange(a.len() as int, (a + m).len() as int) =~= m);
    assert(stands_at(a + m + b, m, a.len() as int));
    assert(stands_at(m + b, m, 0));
    assert(stands_at(a + m, m, a.len() as int));
}

/// White space only.
pub open spec fn all_blank(s: Seq<char>) -> bool {
    forall|i: int| 0 <= i < s.len() ==> is_blank(#[trigger] s[i])
}

/// Trimming takes away white space at both ends, all of it, and nothing else.
pub proof fn law_trimmed(s: Seq<char>) -> (ends: (Seq<char>, Seq<char>))
    ensures
        s == ends.0 + trimmed(s) + ends.1,
        all_blank(ends.0),
        all_blank(ends.1),
        trimmed(s).len() > 0 ==> !is_blank(trimmed(s)[0]) && !is_blank(trimmed(s).last()),
{
    let front = lemma_start_trimmed(s);
    let back = lemma_end_trimmed(start_trimmed(s));
    assert(s =~= front + trimmed(s) + back);
    if trimmed(s).len() > 0 {
        assert(trimmed(s)[0] == start_trimmed(s)[0]);
    }
    (front, back)
}

proof fn lemma_start_trimmed(s: Seq<char>) -> (front: Seq<char>)
    ensures
        s == front + start_trimmed(s),
        all_blank(front),
        start_trimmed(s).len() > 0 ==> !is_blank(start_trimmed(s)[0]),
    decreases s.len(),
{
    if s.len() > 0 && is_blank(s[0]) {
        let rest = lemma_start_trimmed(s.drop_first());
        let front = Seq::empty().push(s[0]) + rest;
        assert(s =~= Seq::empty().push(s[0]) + s.drop_first());
        assert(front + start_trimmed(s) =~= Seq::empty().push(s[0]) + (rest + start_trimmed(s)));
        front
    } else {
        assert(s =~= Seq::empty() + s);
        Seq::empty()
    }
}

proof fn lemma_end_trimmed(s: Seq<char>) -> (back: Seq<char>)
    ensures
        s == end_trimmed(s) + back,
        all_blank(back),
        end_trimmed(s).len() > 0 ==> !is_blank(end_trimmed(s).last()),
    decreases s.len(),
{
    if s.len() > 0 && is_blank(s.last()) {
        let rest = lemma_end_trimmed(s.drop_last());
        let back = rest.push(s.last());
        assert(s =~= s.drop_last().push(s.last()));
        assert(end_trimmed(s) + back =~= (end_trimmed(s) + rest).push(s.last()));
        back
    } else {
        assert(s =~= s + Seq::<char>::empty());
        Seq::empty()
    }
}

/// Joining two lists of fields is joining each and putting a separator between them.
pub proof fn lemma_joined_add(a: Seq<Seq<char>>, b: Seq<Seq<char>>, sep: char)
    requires
        a.len() >= 1,
        b.len() >= 1,
    ensures
        joined(a + b, sep) == joined(a, sep).push(sep) + joined(b, sep),
    decreases b.len(),
{
    let all = a + b;
    assert(all.drop_last() =~= a + b.drop_last());
    if b.len() == 1 {
        assert(a + b.drop_last() =~= a);
    } else {
        lemma_joined_add(a, b.drop_last(), sep);
        assert(joined(all, sep) =~= joined(a, sep).push(sep) + joined(b, sep));
    }
}

/// Fields that stand in front of a text, each with a separator behind it, are the first
/// fields of the whole.
pub proof fn lemma_fields_behind(front: Seq<Seq<char>>, rest: Seq<char>, sep: char)
    requires
        front.len() >= 1,
        forall|i: int| 0 <= i < front.len() ==> !(#[trigger] front[i]).contains(sep),
    ensures
        fields(joined(front, sep).push(sep) + rest, sep) == front + fields(rest, sep),
{
    let back = fields(rest, sep);
    lemma_split_nonempty(rest, only(sep));
    law_fields_join(rest, sep);
    lemma_joined_add(front, back, sep);
    let all = front + back;
    assert forall|i: int| 0 <= i < all.len() implies !(#[trigger] all[i]).contains(sep) by {
        if i < front.len() {
            assert(!front[i].contains(sep));
        } else {
            assert(!back[i - front.len()].contains(sep));
        }
    }
    law_join_fields(all, sep);
}

// ------------------------------------------------------------- what texts mean

/// What is put behind a text that ends in a separator starts fields of its own.
proof fn lemma_split_behind(s: Seq<char>, cut: spec_fn(char) -> bool, c: char, rest: Seq<char>)
    requires
        cut(c),
    ensures
        split_when(s.push(c) + rest, cut) == split_when(s, cut) + split_when(rest, cut),
    decreases rest.len(),
{
    let front = split_when(s, cut);
    lemma_split_nonempty(s, cut);
    lemma_split_nonempty(rest, cut);
    if rest.len() == 0 {
        assert(s.push(c) + rest =~= s.push(c));
        assert(s.push(c).drop_last() =~= s);
        assert(split_when(rest, cut) =~= Seq::empty().push(Seq::empty()));
        assert(front.push(Seq::empty()) =~= front + split_when(rest, cut));
    } else {
        let less = rest.drop_last();
        lemma_split_behind(s, cut, c, less);
        lemma_split_nonempty(less, cut);
        let whole = s.push(c) + rest;
        assert(whole.drop_last() =~= s.push(c) + less);
        assert(whole.last() == rest.last());
        let before = front + split_when(less, cut);
        if cut(rest.last()) {
            assert(before.push(Seq::empty()) =~= front + split_when(less, cut).push(Seq::empty()));
        } else {
            assert(before.last() == split_when(less, cut).last());
            assert(before.drop_last().push(before.last().push(rest.last())) =~= front + split_when(
                less,
                cut,
            ).drop_last().push(split_when(less, cut).last().push(rest.last())));
        }
    }
}

/// A text without white space is one piece.
proof fn lemma_split_whole(s: Seq<char>, cut: spec_fn(char) -> bool)
    requires
        forall|i: int| 0 <= i < s.len() ==> !cut(#[trigger] s[i]),
    ensures
        split_when(s, cut) == Seq::empty().push(s),
    decreases s.len(),
{
    if s.len() > 0 {
        lemma_split_whole(s.drop_last(), cut);
        let before = split_when(s.drop_last(), cut);
        assert(before.last().push(s.last()) =~= s);
        assert(before.drop_last() =~= Seq::empty());
    } else {
        assert(s =~= Seq::empty());
    }
}

/// Words are parted by white space and by nothing else: a text without any is one word,
/// unless it is empty; and what stands before white space and what stands behind it have
/// their words each for itself.
pub proof fn law_words_are_parted_by_blanks(a: Seq<char>, c: char, b: Seq<char>)
    requires
        is_blank(c),
    ensures
        words(a.push(c) + b) == words(a) + words(b),
        (forall|i: int| 0 <= i < a.len() ==> !is_blank(#[trigger] a[i])) ==> words(a) == if a.len()
            == 0 {
            Seq::<Seq<char>>::empty()
        } else {
            Seq::empty().push(a)
        },
{
    lemma_split_behind(a, blanks(), c, b);
    let x = split_when(a, blanks());
    let y = split_when(b, blanks());
    Seq::filter_distributes_over_add(x, y, filled());
    if forall|i: int| 0 <= i < a.len() ==> !is_blank(#[trigger] a[i]) {
        lemma_split_whole(a, blanks());
        let one = Seq::empty().push(a);
        reveal_with_fuel(Seq::filter, 2);
        assert(one.drop_last() =~= Seq::empty());
        assert(one.last() == a);
    }
}

/// Lines are parted by line ends: a line with its end, in front of a text, is the first
/// line, without a carriage return before its end; and a text without a line end is a
/// line of its own, unless it is empty.
pub proof fn law_lines_are_parted_by_ends(a: Seq<char>, b: Seq<char>)
    requires
        !a.contains('\n'),
    ensures
        a.len() > 0 && a.last() == '\r' ==> lines(a.push('\n') + b) == Seq::empty().push(
            a.drop_last(),
        ) + lines(b),
        a.len() == 0 || a.last() != '\r' ==> lines(a.push('\n') + b) == Seq::empty().push(a)
            + lines(b),
        a.len() > 0 ==> lines(a) == Seq::empty().push(a),
        lines(Seq::empty()) == Seq::<Seq<char>>::empty(),
{
    let cut = only('\n');
    lemma_split_behind(a, cut, '\n', b);
    assert forall|i: int| 0 <= i < a.len() implies !cut(#[trigger] a[i]) by {
        assert(a.contains(a[i]));
    }
    lemma_split_whole(a, cut);
    lemma_split_nonempty(b, cut);
    let parts = split_when(a.push('\n') + b, cut);
    let back = split_when(b, cut);
    assert(parts =~= Seq::empty().push(a) + back);
    assert(parts.last() == back.last());
    assert(parts.drop_last() =~= Seq::empty().push(a) + back.drop_last());
    let first = without_last(a, '\r');
    let strip = |l: Seq<char>| without_last(l, '\r');
    assert(parts.drop_last().map_values(strip) =~= Seq::empty().push(first)
        + back.drop_last().map_values(strip));
    assert(lines(a.push('\n') + b) =~= Seq::empty().push(first) + lines(b));
    assert(split_when(a, cut).drop_last().map_values(strip) =~= Seq::empty());
    assert(a.len() > 0 ==> lines(a) =~= Seq::empty().push(a));
    assert(split_when(Seq::<char>::empty(), cut).drop_last().map_values(strip) =~= Seq::empty());
    assert(split_when(Seq::<char>::empty(), cut).last().len() == 0);
}

/// Digits have no negative value.
proof fn lemma_digits_value(s: Seq<char>)
    requires
        all_digits(s),
    ensures
        digits_value(s) >= 0,
    decreases s.len(),
{
    if s.len() > 0 {
        assert(all_digits(s.drop_last()));
        lemma_digits_value(s.drop_last());
        assert(is_digit(s[s.len() - 1]));
    }
}

/// A number is read digit by digit, the last digit counting least; a plus sign may stand
/// before it, and nothing else may stand in it.
pub proof fn law_numbers_are_decimal(s: Seq<char>, c: char)
    ensures
        number(Seq::empty()) is None,
        is_digit(c) ==> number(Seq::empty().push(c)) == Some((c as u32 - '0' as u32) as u32),
        !is_digit(c) ==> number(s.push(c)) is None || s.len() == 0,
        c != '+' && !is_digit(c) ==> number(s.push(c)) is None,
        number(Seq::empty().push('+')) is None,
        s.len() > 0 && is_digit(s.last()) && is_digit(c) ==> match number(s) {
            Some(n) => if n * 10 + (c as u32 - '0' as u32) <= u32::MAX {
                number(s.push(c)) == Some((n * 10 + (c as u32 - '0' as u32)) as u32)
            } else {
                number(s.push(c)) is None
            },
            None => true,
        },
{
    reveal_with_fuel(digits_value, 2);
    let one = Seq::<char>::empty().push(c);
    assert(one.drop_last() =~= Seq::empty());
    assert(one.last() == c);
    assert(Seq::<char>::empty().push('+').drop_first() =~= Seq::empty());
    let more = s.push(c);
    assert(more.drop_last() =~= s);
    assert(more.last() == c);
    if s.len() > 0 {
        if s[0] == '+' {
            let d = s.drop_first();
            assert(more.drop_first() =~= d.push(c));
            assert(d.push(c).drop_last() =~= d);
            if is_digit(c) {
                assert(all_digits(d) ==> all_digits(d.push(c)));
                if all_digits(d) {
                    lemma_digits_value(d);
                    assert(digits_value(d.push(c)) == digits_value(d) * 10 + (c as int
                        - '0' as int));
                }
            } else {
                assert(d.push(c)[d.len() as int] == c);
            }
        } else {
            if is_digit(c) {
                assert(all_digits(s) ==> all_digits(more));
                if all_digits(s) {
                    lemma_digits_value(s);
                    assert(digits_value(more) == digits_value(s) * 10 + (c as int - '0' as int));
                }
            } else {
                assert(more[s.len() as int] == c);
            }
        }
    } else {
        assert(s =~= Seq::empty());
        if !is_digit(c) {
            assert(more[0] == c);
        }
    }
}

/// Numerals are positional, and their digits are the usual ones.
pub proof fn law_numerals_are_positional(n: nat, base: nat, d: nat)
    requires
        base == 10 || base == 16,
        d < base,
    ensures
        n > 0 ==> numeral(n * base + d, base) == numeral(n, base).push(digit(d)),
        numeral(d, base) == Seq::empty().push(digit(d)),
        digit(d) == "0123456789abcdef"@[d as int],
{
    reveal_strlit("0123456789abcdef");
    if n > 0 {
        if base == 10 {
            assert((n * 10 + d) / 10 == n && (n * 10 + d) % 10 == d);
        } else {
            assert((n * 16 + d) / 16 == n && (n * 16 + d) % 16 == d);
        }
    }
}

/// An octet is two hexadecimal digits, the first for the sixteens.
pub proof fn law_octets_have_two_digits(n: nat)
    requires
        n < 256,
    ensures
        hex_octet(n) == Seq::empty().push("0123456789abcdef"@[(n / 16) as int]).push(
            "0123456789abcdef"@[(n % 16) as int],
        ),
{
    law_numerals_are_positional(n / 16, 16, n % 16);
    law_numerals_are_positional(0, 16, n / 16);
    law_numerals_are_positional(0, 16, n % 16);
    if n < 16 {
        reveal_strlit("0123456789abcdef");
        assert(hex_octet(n) =~= Seq::empty().push('0').push(digit(n)));
    } else {
        assert(n / 16 * 16 + n % 16 == n);
    }
}

/// The order of texts is that of a dictionary: a start comes before what is longer, and
/// behind a common start the smaller character comes first.
pub proof fn law_dictionary_order(start: Seq<char>, c: char, x: Seq<char>, d: char, y: Seq<char>)
    ensures
        precedes(start, start.push(c) + x),
        c < d ==> precedes(start.push(c) + x, start.push(d) + y),
        c > d ==> !precedes(start.push(c) + x, start.push(d) + y),
    decreases start.len(),
{
    let a = start.push(c) + x;
    let b = start.push(d) + y;
    if start.len() > 0 {
        let rest = start.skip(1);
        law_dictionary_order(rest, c, x, d, y);
        assert(a.skip(1) =~= rest.push(c) + x);
        assert(b.skip(1) =~= rest.push(d) + y);
        assert(a[0] == start[0] && b[0] == start[0]);
    } else {
        assert(a[0] == c && b[0] == d);
    }
}

/// A text that neither starts nor ends in white space is what is left of it when white
/// space is put around it and trimmed away again.
pub proof fn law_trimming_undoes_blanks(a: Seq<char>, s: Seq<char>, b: Seq<char>)
    requires
        all_blank(a),
        all_blank(b),
        s.len() > 0,
        !is_blank(s[0]),
        !is_blank(s.last()),
    ensures
        trimmed(a + s + b) == s,
{
    let whole = a + s + b;
    let (x, y) = law_trimmed(whole);
    let t = trimmed(whole);
    assert(whole == x + t + y);
    let p = a.len() as int;
    let q = a.len() + s.len() - 1;
    assert(whole[p] == s[0] && whole[q] == s.last());
    assert(x.len() <= p) by {
        if x.len() > p {
            assert(x[p] == whole[p]);
            assert(is_blank(x[p]));
        }
    }
    assert(t.len() > 0) by {
        if t.len() == 0 {
            assert(whole[p] == y[p - x.len()]);
            assert(is_blank(y[p - x.len()]));
        }
    }
    assert(x.len() >= p) by {
        if x.len() < p {
            assert(whole[x.len() as int] == t[0]);
            assert(a[x.len() as int] == whole[x.len() as int]);
            assert(is_blank(a[x.len() as int]));
        }
    }
    let e = x.len() + t.len() - 1;
    assert(whole[e] == t.last());
    assert(e >= q) by {
        if e < q {
            assert(whole[q] == y[q - x.len() - t.len()]);
            assert(is_blank(y[q - x.len() - t.len()]));
        }
    }
    assert(e <= q) by {
        if e > q {
            assert(whole[e] == b[e - a.len() - s.len()]);
            assert(is_blank(b[e - a.len() - s.len()]));
        }
    }
    assert(t =~= s) by {
        assert forall|i: int| 0 <= i < t.len() implies t[i] == s[i] by {
            assert(whole[p + i] == t[i]);
            assert(whole[p + i] == s[i]);
        }
    }
}

/// What a text holds, starts with or ends with is a part of it, and the rest stands around
/// that part.
pub proof fn law_what_is_found_is_there(s: Seq<char>, needle: Seq<char>)
    ensures
        holds(s, needle) <==> exists|a: Seq<char>, b: Seq<char>| s == #[trigger] (a + needle + b),
        begins(s, needle) <==> exists|b: Seq<char>| s == #[trigger] (needle + b),
        closes(s, needle) <==> exists|a: Seq<char>| s == #[trigger] (a + needle),
        forall|c: char| ends(s, c) <==> closes(s, #[trigger] Seq::empty().push(c)),
{
    let n = needle.len() as int;
    if holds(s, needle) {
        let i = choose|i: int| stands_at(s, needle, i);
        assert(s =~= s.take(i) + needle + s.skip(i + n)) by {
            assert forall|k: int| i <= k < i + n implies s[k] == needle[k - i] by {
                assert(s.subrange(i, i + n)[k - i] == s[k]);
            }
        }
    }
    if exists|a: Seq<char>, b: Seq<char>| s == #[trigger] (a + needle + b) {
        let (a, b) = choose|a: Seq<char>, b: Seq<char>| s == #[trigger] (a + needle + b);
        law_parts_are_found(a, needle, b);
    }
    if begins(s, needle) {
        assert(s =~= needle + s.skip(n)) by {
            assert forall|k: int| 0 <= k < n implies s[k] == needle[k] by {
                assert(s.subrange(0, n)[k] == s[k]);
            }
        }
    }
    if exists|b: Seq<char>| s == #[trigger] (needle + b) {
        let b = choose|b: Seq<char>| s == #[trigger] (needle + b);
        law_parts_are_found(Seq::empty(), needle, b);
    }
    if closes(s, needle) {
        let k = s.len() - n;
        assert(s =~= s.take(k) + needle) by {
            assert forall|j: int| k <= j < s.len() implies s[j] == needle[j - k] by {
                assert(s.skip(k)[j - k] == s[j]);
            }
        }
    }
    if exists|a: Seq<char>| s == #[trigger] (a + needle) {
        let a = choose|a: Seq<char>| s == #[trigger] (a + needle);
        law_parts_are_found(a, needle, Seq::empty());
    }
    assert forall|c: char| ends(s, c) <==> closes(s, #[trigger] Seq::empty().push(c)) by {
        let one = Seq::<char>::empty().push(c);
        if ends(s, c) {
            assert(s.skip(s.len() - 1) =~= one);
        }
        if closes(s, one) {
            assert(s.skip(s.len() - 1)[0] == s.last());
        }
    }
}

/// Within ASCII, white space is the space and the characters from the tab to the carriage
/// return; beyond it there are a few more. Letters and digits within ASCII are just those,
/// and none of them is white space.
pub proof fn law_kinds_of_characters(c: char)
    ensures
        (c as u32) < 128 ==> (is_blank(c) <==> c == ' ' || 9 <= c as u32 <= 13),
        (c as u32) >= 128 && is_blank(c) ==> {
            let u = c as u32;
            u == 133 || u == 160 || u == 5760 || 8192 <= u <= 8202 || u == 8232 || u == 8233 || u
                == 8239 || u == 8287 || u == 12288
        },
        c as u32 == 133 || c as u32 == 160 || c as u32 == 5760 || 8192 <= c as u32 <= 8202
            || c as u32 == 8232 || c as u32 == 8233 || c as u32 == 8239 || c as u32 == 8287
            || c as u32 == 12288 ==> is_blank(c),
        (c as u32) < 128 ==> (is_alphanumeric(c) <==> 48 <= c as u32 <= 57 || 65 <= c as u32 <= 90
            || 97 <= c as u32 <= 122),
        is_digit(c) <==> 48 <= c as u32 <= 57,
{
}

/// The texts of a list are those of its strings, one for one.
pub proof fn law_texts_are_those_of_the_strings(v: Seq<String>)
    ensures
        texts(v).len() == v.len(),
        forall|i: int| 0 <= i < v.len() ==> #[trigger] texts(v)[i] == v[i]@,
{
}

} // verus!
