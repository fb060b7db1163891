//! Text as sequences of characters: comparison, joining, lines and trimming.

use vstd::prelude::*;
use vstd::string::*;
use vstd::utf8::{decode_utf8, encode_utf8, encode_utf8_decode_utf8};

verus! {

/// Two texts with the same UTF-8 bytes are the same text.
pub proof fn lemma_encode_utf8_injective(a: Seq<char>, b: Seq<char>)
    requires
        encode_utf8(a) == encode_utf8(b),
    ensures
        a == b,
{
    encode_utf8_decode_utf8(a);
    encode_utf8_decode_utf8(b);
    assert(decode_utf8(encode_utf8(a)) == decode_utf8(encode_utf8(b)));
}

/// Whether `a` and `b` hold the same characters.
pub fn same_text(a: &str, b: &str) -> (r: bool)
    ensures
        r == (a@ == b@),
{
    let x: &[u8] = a.as_bytes();
    let y: &[u8] = b.as_bytes();
    if x.len() != y.len() {
        return false;
    }
    for i in 0..x.len()
        invariant
            x@.len() == y@.len(),
            x@ == encode_utf8(a@),
            y@ == encode_utf8(b@),
            forall|j: int| 0 <= j < i ==> x@[j] == y@[j],
    {
        if x[i] != y[i] {
            return false;
        }
    }
    proof {
        assert(x@ =~= y@);
        lemma_encode_utf8_injective(a@, b@);
    }
    true
}

/// The characters of `s`, in order.
pub fn characters(s: &str) -> (r: Vec<char>)
    ensures
        r@ == s@,
{
    let mut out: Vec<char> = Vec::new();
    for c in it: s.chars()
        invariant
            it.seq() == s@,
            out@ == s@.take(it.index() as int),
    {
        out.push(c);
        assert(s@.take(it.index() + 1) =~= s@.take(it.index() as int).push(c));
    }
    assert(s@.take(s@.len() as int) =~= s@);
    out
}

/// The parts one after another, with `sep` between every two of them.
pub open spec fn joined(parts: Seq<Seq<char>>, sep: Seq<char>) -> Seq<char>
    decreases parts.len(),
{
    if parts.len() == 0 {
        Seq::empty()
    } else {
        let before = joined(parts.drop_last(), sep);
        if parts.len() == 1 {
            parts.last()
        } else {
            before + sep + parts.last()
        }
    }
}

/// `text` as an optional part: `None` where there is nothing to show.
pub open spec fn nonempty(text: Option<Seq<char>>) -> Option<Seq<char>> {
    match text {
        Some(t) => if t.len() > 0 {
            Some(t)
        } else {
            None
        },
        None => None,
    }
}

/// The Unicode property `White_Space`.
pub open spec fn is_white_space(c: char) -> bool {
    let u = c as u32;
    ||| 0x9 <= u <= 0xd
    ||| u == 0x20
    ||| u == 0x85
    ||| u == 0xa0
    ||| u == 0x1680
    ||| 0x2000 <= u <= 0x200a
    ||| u == 0x2028
    ||| u == 0x2029
    ||| u == 0x202f
    ||| u == 0x205f
    ||| u == 0x3000
}

/// Whether `c` is white space.
pub fn white_space(c: char) -> (r: bool)
    ensures
        r == is_white_space(c),
{
    let u: u32 = c as u32;
    (0x9 <= u && u <= 0xd) || u == 0x20 || u == 0x85 || u == 0xa0 || u == 0x1680 || (0x2000 <= u
        && u <= 0x200a) || u == 0x2028 || u == 0x2029 || u == 0x202f || u == 0x205f || u == 0x3000
}

/// `text` without the white space at its two ends.
pub open spec fn trimmed(text: Seq<char>) -> Seq<char>
    decreases text.len(),
{
    if text.len() == 0 {
        text
    } else if is_white_space(text.first()) {
        trimmed(text.drop_first())
    } else if is_white_space(text.last()) {
        trimmed(text.drop_last())
    } else {
        text
    }
}

/// `line` without a carriage return at its end.
pub open spec fn without_return(line: Seq<char>) -> Seq<char> {
    if line.len() > 0 && line.last() == '\r' {
        line.drop_last()
    } else {
        line
    }
}

/// The lines of `text`. A line feed ends a line, with a carriage return before
/// it or without; the last line needs no end.
pub open spec fn lines(text: Seq<char>) -> Seq<Seq<char>>
    decreases text.len(),
{
    proof {
        text.index_of_first_ensures('\n');
    }
    match text.index_of_first('\n') {
        Some(i) => seq![without_return(text.take(i))] + lines(text.skip(i + 1)),
        None => if text.len() == 0 {
            Seq::empty()
        } else {
            seq![text]
        },
    }
}

/// What follows `prefix` on the first of `lines` that begins with it, trimmed.
pub open spec fn first_field(lines: Seq<Seq<char>>, prefix: Seq<char>) -> Option<Seq<char>>
    decreases lines.len(),
{
    if lines.len() == 0 {
        None
    } else if prefix.is_prefix_of(lines[0]) {
        Some(trimmed(lines[0].skip(prefix.len() as int)))
    } else {
        first_field(lines.drop_first(), prefix)
    }
}

/// Trims the part of `chars` from `from` to `to`: the bounds of what is left.
fn trim_range(chars: &Vec<char>, from: usize, to: usize) -> (r: (usize, usize))
    requires
        from <= to <= chars@.len(),
    ensures
        from <= r.0 <= r.1 <= to,
        chars@.subrange(r.0 as int, r.1 as int) == trimmed(
            chars@.subrange(from as int, to as int),
        ),
{
    let mut lo: usize = from;
    let mut hi: usize = to;
    let ghost whole = chars@.subrange(from as int, to as int);
    while lo < hi && white_space(chars[lo])
        invariant
            from <= lo <= hi == to <= chars@.len(),
            trimmed(whole) == trimmed(chars@.subrange(lo as int, hi as int)),
        decreases hi - lo,
    {
        assert(chars@.subrange(lo as int, hi as int).drop_first() =~= chars@.subrange(
            lo + 1,
            hi as int,
        ));
        lo = lo + 1;
    }
    while lo < hi && white_space(chars[hi - 1])
        invariant
            from <= lo <= hi <= to <= chars@.len(),
            lo < hi ==> !is_white_space(chars@[lo as int]),
            trimmed(whole) == trimmed(chars@.subrange(lo as int, hi as int)),
        decreases hi - lo,
    {
        assert(chars@.subrange(lo as int, hi as int).drop_last() =~= chars@.subrange(
            lo as int,
            hi - 1,
        ));
        hi = hi - 1;
    }
    (lo, hi)
}

/// Whether the part of `chars` from `from` to `to` begins with `prefix`.
fn begins_with(chars: &Vec<char>, from: usize, to: usize, prefix: &Vec<char>) -> (r: bool)
    requires
        from <= to <= chars@.len(),
    ensures
        r == prefix@.is_prefix_of(chars@.subrange(from as int, to as int)),
{
    let ghost part = chars@.subrange(from as int, to as int);
    if to - from < prefix.len() {
        return false;
    }
    for i in 0..prefix.len()
        invariant
            part == chars@.subrange(from as int, to as int),
            from <= to <= chars@.len(),
            prefix@.len() <= to - from,
            forall|j: int| 0 <= j < i ==> prefix@[j] == part[j],
    {
        assert(part[i as int] == chars@[from + i]);
        if chars[from + i] != prefix[i] {
            return false;
        }
    }
    assert(prefix@ =~= part.take(prefix@.len() as int));
    true
}

/// What follows `prefix` on the first line of `text` that begins with it,
/// trimmed; `None` where no line does.
pub fn field(text: &str, prefix: &str) -> (r: Option<String>)
    ensures
        r.deep_view() == first_field(lines(text@), prefix@),
{
    let chars: Vec<char> = characters(text);
    let wanted: Vec<char> = characters(prefix);
    let mut start: usize = 0;
    let ghost all = text@;
    assert(all.skip(0) =~= all);
    for i in 0..chars.len()
        invariant
            chars@ == all,
            all == text@,
            wanted@ == prefix@,
            start <= i,
            forall|j: int| start <= j < i ==> all[j] != '\n',
            first_field(lines(all), prefix@) == first_field(lines(all.skip(start as int)), prefix@),
    {
        if chars[i] == '\n' {
            let end: usize = if start < i && chars[i - 1] == '\r' {
                i - 1
            } else {
                i
            };
            let ghost left = all.skip(start as int);
            let ghost line = all.subrange(start as int, end as int);
            proof {
                left.index_of_first_ensures('\n');
                assert(left[i - start] == '\n');
                assert(left.contains('\n'));
                assert(left.index_of_first('\n') == Some(i - start));
                assert(left.take(i - start) =~= all.subrange(start as int, i as int));
                assert(without_return(left.take(i - start)) =~= line);
                assert(left.skip(i - start + 1) =~= all.skip(i + 1));
                assert(lines(left)[0] == line);
                assert(lines(left).drop_first() =~= lines(all.skip(i + 1)));
            }
            if begins_with(&chars, start, end, &wanted) {
                let (lo, hi) = trim_range(&chars, start + wanted.len(), end);
                assert(line.skip(prefix@.len() as int) =~= all.subrange(
                    start + prefix@.len(),
                    end as int,
                ));
                return Some(text.substring_char(lo, hi).to_owned());
            }
            start = i + 1;
        }
    }
    let end: usize = chars.len();
    let ghost left = all.skip(start as int);
    proof {
        left.index_of_first_ensures('\n');
        assert(left =~= all.subrange(start as int, end as int));
    }
    if start < end && begins_with(&chars, start, end, &wanted) {
        let (lo, hi) = trim_range(&chars, start + wanted.len(), end);
        assert(left.skip(prefix@.len() as int) =~= all.subrange(
            start + prefix@.len(),
            end as int,
        ));
        return Some(text.substring_char(lo, hi).to_owned());
    }
    proof {
        reveal_with_fuel(first_field, 2);
    }
    None
}

/// Joining puts the separator between every two parts and nowhere else: a
/// single part stands alone, and two lists joined are their joined texts with
/// one separator between them.
pub proof fn lemma_joined_lists(a: Seq<Seq<char>>, b: Seq<Seq<char>>, sep: Seq<char>)
    ensures
        joined(Seq::empty(), sep) == Seq::<char>::empty(),
        a.len() == 1 ==> joined(a, sep) == a[0],
        a.len() > 0 && b.len() > 0 ==> joined(a + b, sep) == joined(a, sep) + sep + joined(b, sep),
    decreases b.len(),
{
    if a.len() > 0 && b.len() > 0 {
        let shorter = b.drop_last();
        assert((a + b).drop_last() =~= a + shorter);
        assert((a + b).last() == b.last());
        if b.len() == 1 {
            assert(a + shorter =~= a);
        } else {
            lemma_joined_lists(a, shorter, sep);
            assert(joined(a + b, sep) =~= joined(a, sep) + sep + joined(b, sep));
        }
    }
}

/// A text counts exactly where it has a character in it.
pub proof fn lemma_nonempty(text: Option<Seq<char>>, shown: Seq<char>)
    ensures
        nonempty(text) == Some(shown) <==> text == Some(shown) && shown != Seq::<char>::empty(),
{
    if shown.len() == 0 {
        assert(shown =~= Seq::empty());
    }
}

/// `text` is white space from `from` to `to`.
#[verifier::opaque]
spec fn all_white(text: Seq<char>, from: int, to: int) -> bool {
    forall|i: int| from <= i < to ==> is_white_space(#[trigger] text[i])
}

proof fn lemma_white_before(text: Seq<char>, to: int)
    requires
        text.len() > 0,
        0 <= to < text.len(),
        is_white_space(text[0]),
        all_white(text.drop_first(), 0, to),
    ensures
        all_white(text, 0, to + 1),
{
    reveal(all_white);
    assert forall|i: int| 0 <= i < to + 1 implies is_white_space(#[trigger] text[i]) by {
        if i > 0 {
            assert(text.drop_first()[i - 1] == text[i]);
        }
    }
}

proof fn lemma_white_shifted(text: Seq<char>, from: int, to: int)
    requires
        text.len() > 0,
        0 <= from <= to < text.len(),
        all_white(text.drop_first(), from, to),
    ensures
        all_white(text, from + 1, to + 1),
{
    reveal(all_white);
    assert forall|i: int| from + 1 <= i < to + 1 implies is_white_space(#[trigger] text[i]) by {
        assert(text.drop_first()[i - 1] == text[i]);
    }
}

proof fn lemma_white_kept(text: Seq<char>, from: int, to: int)
    requires
        text.len() > 0,
        0 <= from <= to < text.len(),
        all_white(text.drop_last(), from, to),
    ensures
        all_white(text, from, to),
{
    reveal(all_white);
    assert forall|i: int| from <= i < to implies is_white_space(#[trigger] text[i]) by {
        assert(text.drop_last()[i] == text[i]);
    }
}

proof fn lemma_white_behind(text: Seq<char>, from: int)
    requires
        text.len() > 0,
        is_white_space(text.last()),
        all_white(text, from, text.len() - 1),
    ensures
        all_white(text, from, text.len() as int),
{
    reveal(all_white);
}

proof fn lemma_white_none(text: Seq<char>, at: int)
    ensures
        all_white(text, at, at),
{
    reveal(all_white);
}

proof fn lemma_piece_of_the_rest(text: Seq<char>, from: int, to: int)
    requires
        0 <= from <= to < text.len(),
    ensures
        text.drop_first().subrange(from, to) == text.subrange(from + 1, to + 1),
        text.drop_last().subrange(from, to) == text.subrange(from, to),
{
    assert(text.drop_first().subrange(from, to) =~= text.subrange(from + 1, to + 1));
    assert(text.drop_last().subrange(from, to) =~= text.subrange(from, to));
}

/// `text` from `from` to `to` is left of it.
spec fn is_left(text: Seq<char>, from: int, to: int) -> bool {
    &&& 0 <= from <= to <= text.len()
    &&& trimmed(text) == text.subrange(from, to)
    &&& all_white(text, 0, from)
    &&& all_white(text, to, text.len() as int)
}

proof fn lemma_left_behind_white(text: Seq<char>, from: int, to: int)
    requires
        text.len() > 0,
        is_white_space(text.first()),
        is_left(text.drop_first(), from, to),
    ensures
        is_left(text, from + 1, to + 1),
{
    lemma_piece_of_the_rest(text, from, to);
    lemma_white_before(text, from);
    lemma_white_shifted(text, to, text.len() - 1);
}

proof fn lemma_left_before_white(text: Seq<char>, from: int, to: int)
    requires
        text.len() > 0,
        !is_white_space(text.first()),
        is_white_space(text.last()),
        is_left(text.drop_last(), from, to),
    ensures
        is_left(text, from, to),
{
    lemma_piece_of_the_rest(text, from, to);
    lemma_white_kept(text, 0, from);
    lemma_white_kept(text, to, text.len() - 1);
    lemma_white_behind(text, to);
}

proof fn lemma_all_is_left(text: Seq<char>)
    requires
        text.len() > 0 ==> !is_white_space(text.first()) && !is_white_space(text.last()),
    ensures
        is_left(text, 0, text.len() as int),
{
    assert(text =~= text.subrange(0, text.len() as int));
    lemma_white_none(text, 0);
    lemma_white_none(text, text.len() as int);
}

/// The bounds of what is left of a text.
proof fn lemma_trimmed_bounds(text: Seq<char>) -> (ends: (int, int))
    ensures
        is_left(text, ends.0, ends.1),
    decreases text.len(),
{
    if text.len() > 0 && is_white_space(text.first()) {
        let ends = lemma_trimmed_bounds(text.drop_first());
        lemma_left_behind_white(text, ends.0, ends.1);
        (ends.0 + 1, ends.1 + 1)
    } else if text.len() > 0 && is_white_space(text.last()) {
        let ends = lemma_trimmed_bounds(text.drop_last());
        lemma_left_before_white(text, ends.0, ends.1);
        (ends.0, ends.1)
    } else {
        lemma_all_is_left(text);
        (0, text.len() as int)
    }
}

/// What is left of a text has something else than white space at its two ends.
proof fn lemma_trimmed_ends(text: Seq<char>)
    ensures
        trimmed(text).len() > 0 ==> !is_white_space(trimmed(text).first()) && !is_white_space(
            trimmed(text).last(),
        ),
    decreases text.len(),
{
    if text.len() > 0 {
        if is_white_space(text.first()) {
            lemma_trimmed_ends(text.drop_first());
        } else if is_white_space(text.last()) {
            lemma_trimmed_ends(text.drop_last());
        }
    }
}

/// Trimming takes white space off the two ends of a text, and nothing else:
/// what is left is one piece of it, with nothing but white space before and
/// behind, and with none at its own ends.
pub proof fn lemma_trimming_takes_white_space_alone(text: Seq<char>)
    ensures
        exists|from: int, to: int|
            0 <= from <= to <= text.len() && trimmed(text) == #[trigger] text.subrange(from, to) && (
            forall|i: int| 0 <= i < from || to <= i < text.len() ==> is_white_space(
                #[trigger] text[i],
            )),
        trimmed(text).len() > 0 ==> !is_white_space(trimmed(text).first()) && !is_white_space(
            trimmed(text).last(),
        ),
{
    let ends = lemma_trimmed_bounds(text);
    lemma_trimmed_ends(text);
    reveal(all_white);
    assert(trimmed(text) == text.subrange(ends.0, ends.1));
}

/// Lines are counted up to their ends: the lines of a text that is cut behind
/// a line feed are those of its two pieces.
pub proof fn lemma_lines_of_pieces(first: Seq<char>, second: Seq<char>)
    requires
        first.len() > 0,
        first.last() == '\n',
    ensures
        lines(first + second) == lines(first) + lines(second),
    decreases first.len(),
{
    let whole = first + second;
    first.index_of_first_ensures('\n');
    whole.index_of_first_ensures('\n');
    assert(first.contains('\n')) by {
        assert(first[first.len() - 1] == '\n');
    }
    let i = first.index_of_first('\n')->0;
    assert(whole[i] == '\n');
    assert(whole.contains('\n'));
    let k = whole.index_of_first('\n')->0;
    assert(k == i) by {
        if k < i {
            assert(whole[k] == first[k]);
        }
    }
    assert(whole.take(i) =~= first.take(i));
    let rest = first.skip(i + 1);
    assert(whole.skip(i + 1) =~= rest + second);
    if rest.len() == 0 {
        assert(rest + second =~= second);
        rest.index_of_first_ensures('\n');
        assert(lines(rest) =~= Seq::empty());
        assert(lines(whole) =~= lines(first) + lines(second));
    } else {
        assert(rest.last() == first.last());
        lemma_lines_of_pieces(rest, second);
        assert(lines(whole) =~= lines(first) + lines(second));
    }
}

/// A text without a line feed is one line, and none where it is empty; with a
/// line feed behind it, it is one line too, less a carriage return at its end.
pub proof fn lemma_one_line(text: Seq<char>)
    requires
        !text.contains('\n'),
    ensures
        text.len() == 0 ==> lines(text).len() == 0,
        text.len() > 0 ==> lines(text) == seq![text],
        text.len() > 0 && text.last() == '\r' ==> lines(text.push('\n')) == seq![text.drop_last()],
        text.len() == 0 || text.last() != '\r' ==> lines(text.push('\n')) == seq![text],
{
    let ended = text.push('\n');
    text.index_of_first_ensures('\n');
    ended.index_of_first_ensures('\n');
    assert(ended[text.len() as int] == '\n');
    assert(ended.contains('\n'));
    let i = ended.index_of_first('\n')->0;
    if i < text.len() {
        assert(text[i] == '\n');
    }
    assert(ended.take(i) =~= text);
    assert(ended.skip(i + 1) =~= Seq::empty());
    Seq::<char>::empty().index_of_first_ensures('\n');
    assert(lines(Seq::<char>::empty()) =~= Seq::empty());
    assert(lines(ended) =~= seq![without_return(text)]);
}

/// A field is on the first line that begins with its prefix: its text is what
/// follows, trimmed.
pub proof fn lemma_first_line_with_the_prefix_counts(
    lines: Seq<Seq<char>>,
    prefix: Seq<char>,
    at: int,
)
    requires
        0 <= at < lines.len(),
        prefix.is_prefix_of(lines[at]),
        forall|j: int| 0 <= j < at ==> !prefix.is_prefix_of(#[trigger] lines[j]),
    ensures
        first_field(lines, prefix) == Some(trimmed(lines[at].skip(prefix.len() as int))),
    decreases at,
{
    if at > 0 {
        assert(!prefix.is_prefix_of(lines[0]));
        let rest = lines.drop_first();
        assert forall|j: int| 0 <= j < at - 1 implies !prefix.is_prefix_of(#[trigger] rest[j]) by {
            assert(!prefix.is_prefix_of(lines[j + 1]));
        }
        lemma_first_line_with_the_prefix_counts(rest, prefix, at - 1);
    }
}

/// Where no line begins with the prefix there is no field.
pub proof fn lemma_no_line_no_field(lines: Seq<Seq<char>>, prefix: Seq<char>)
    requires
        forall|j: int| 0 <= j < lines.len() ==> !prefix.is_prefix_of(#[trigger] lines[j]),
    ensures
        first_field(lines, prefix) is None,
    decreases lines.len(),
{
    if lines.len() > 0 {
        assert(!prefix.is_prefix_of(lines[0]));
        let rest = lines.drop_first();
        assert forall|j: int| 0 <= j < rest.len() implies !prefix.is_prefix_of(
            #[trigger] rest[j],
        ) by {
            assert(!prefix.is_prefix_of(lines[j + 1]));
        }
        lemma_no_line_no_field(rest, prefix);
    }
}

} // verus!
