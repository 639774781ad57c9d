//! Building blocks for assembling text one character at a time.

use vstd::prelude::*;

verus! {

/// A run of `n` copies of `c`.
pub open spec fn spec_repeat(c: char, n: nat) -> Seq<char> {
    Seq::new(n, |i: int| c)
}

/// The texts of `parts` written one after the other.
pub open spec fn spec_concat(parts: Seq<Seq<char>>) -> Seq<char>
    decreases parts.len(),
{
    if parts.len() == 0 {
        Seq::empty()
    } else {
        spec_concat(parts.drop_last()) + parts.last()
    }
}

/// Writing one more text after `parts` appends it to what `parts` wrote.
pub proof fn lemma_concat_push(parts: Seq<Seq<char>>, last: Seq<char>)
    ensures
        spec_concat(parts.push(last)) == spec_concat(parts) + last,
{
    assert(parts.push(last).drop_last() =~= parts);
}

/// The texts of `parts` written one after the other with `sep` between
/// each two of them.
pub open spec fn spec_joined(parts: Seq<Seq<char>>, sep: char) -> Seq<char>
    decreases parts.len(),
{
    if parts.len() == 0 {
        Seq::empty()
    } else if parts.len() == 1 {
        parts[0]
    } else {
        spec_joined(parts.drop_last(), sep).push(sep) + parts.last()
    }
}

/// What has been written of `parts` joined by `sep` once the first `done`
/// parts are out: those parts joined, and the separator that follows them
/// where more parts are to come.
pub open spec fn spec_joined_so_far(parts: Seq<Seq<char>>, sep: char, done: int) -> Seq<char> {
    if 0 < done < parts.len() {
        spec_joined(parts.take(done), sep).push(sep)
    } else {
        spec_joined(parts.take(done), sep)
    }
}

/// Nothing has been written before the first part is out, and once all
/// parts are out, they stand joined.
pub proof fn lemma_joined_ends(parts: Seq<Seq<char>>, sep: char)
    ensures
        spec_joined_so_far(parts, sep, 0) == Seq::<char>::empty(),
        spec_joined_so_far(parts, sep, parts.len() as int) == spec_joined(parts, sep),
{
    assert(parts.take(0).len() == 0);
    assert(parts.take(parts.len() as int) =~= parts);
}

/// Writing part `done` after the first `done` parts, and a separator where
/// it is not the last, gives what is written of the first `done + 1` parts.
pub proof fn lemma_joined_step(parts: Seq<Seq<char>>, sep: char, done: int)
    requires
        0 <= done < parts.len(),
    ensures
        spec_joined_so_far(parts, sep, done + 1) == if done + 1 < parts.len() {
            (spec_joined_so_far(parts, sep, done) + parts[done]).push(sep)
        } else {
            spec_joined_so_far(parts, sep, done) + parts[done]
        },
{
    let longer = parts.take(done + 1);
    assert(longer.drop_last() =~= parts.take(done));
    assert(longer.last() == parts[done]);
    if done == 0 {
        assert(parts.take(0).len() == 0);
        assert(spec_joined(longer, sep) =~= parts[0]);
        assert(spec_joined(parts.take(0), sep) + parts[0] =~= parts[0]);
    }
}

/// The combined length of `parts`.
pub open spec fn spec_total_len(parts: Seq<Seq<char>>) -> nat
    decreases parts.len(),
{
    if parts.len() == 0 {
        0
    } else {
        spec_total_len(parts.drop_last()) + parts.last().len()
    }
}

/// Parts joined by a separator are as long as the parts together and one
/// separator for each part but the first.
pub proof fn lemma_joined_len(parts: Seq<Seq<char>>, sep: char)
    ensures
        spec_joined(parts, sep).len() == spec_total_len(parts) + if parts.len() > 0 {
            parts.len() - 1
        } else {
            0
        },
    decreases parts.len(),
{
    if parts.len() > 1 {
        lemma_joined_len(parts.drop_last(), sep);
    } else if parts.len() == 1 {
        assert(spec_total_len(parts.drop_last()) == 0);
    }
}

/// Whether `text` is a single line: it holds no line feed.
pub open spec fn spec_is_line(text: Seq<char>) -> bool {
    forall|i: int| 0 <= i < text.len() ==> #[trigger] text[i] != '\n'
}

/// The number of line feeds in `text`.
pub open spec fn spec_line_feeds(text: Seq<char>) -> nat
    decreases text.len(),
{
    if text.len() == 0 {
        0
    } else if text.last() == '\n' {
        spec_line_feeds(text.drop_last()) + 1
    } else {
        spec_line_feeds(text.drop_last())
    }
}

/// A single line holds no line feed.
pub proof fn lemma_line_has_no_line_feed(text: Seq<char>)
    requires
        spec_is_line(text),
    ensures
        spec_line_feeds(text) == 0,
    decreases text.len(),
{
    if text.len() > 0 {
        assert(text.last() == text[text.len() - 1]);
        assert forall|i: int| 0 <= i < text.drop_last().len() implies #[trigger] text.drop_last()[i]
            != '\n' by {
            assert(text.drop_last()[i] == text[i]);
        }
        lemma_line_has_no_line_feed(text.drop_last());
    }
}

/// Two texts one after the other hold the line feeds of both.
pub proof fn lemma_line_feeds_add(first: Seq<char>, second: Seq<char>)
    ensures
        spec_line_feeds(first + second) == spec_line_feeds(first) + spec_line_feeds(second),
    decreases second.len(),
{
    if second.len() == 0 {
        assert(first + second =~= first);
    } else {
        lemma_line_feeds_add(first, second.drop_last());
        assert((first + second).drop_last() =~= first + second.drop_last());
        assert((first + second).last() == second.last());
    }
}

/// Single lines joined by a separator that is no line feed are a single
/// line.
pub proof fn lemma_joined_is_line(parts: Seq<Seq<char>>, sep: char)
    requires
        sep != '\n',
        forall|p: int| 0 <= p < parts.len() ==> spec_is_line(#[trigger] parts[p]),
    ensures
        spec_is_line(spec_joined(parts, sep)),
    decreases parts.len(),
{
    if parts.len() > 1 {
        let before = parts.drop_last();
        assert forall|p: int| 0 <= p < before.len() implies spec_is_line(#[trigger] before[p]) by {
            assert(before[p] == parts[p]);
        }
        lemma_joined_is_line(before, sep);
        assert(spec_is_line(parts.last()));
    } else if parts.len() == 1 {
        assert(spec_is_line(parts[0]));
    }
}

/// Texts that hold one line feed each hold, written one after the other,
/// as many line feeds as there are texts.
pub proof fn lemma_line_feeds_of_lines(lines: Seq<Seq<char>>)
    requires
        forall|l: int| 0 <= l < lines.len() ==> spec_line_feeds(#[trigger] lines[l]) == 1,
    ensures
        spec_line_feeds(spec_concat(lines)) == lines.len(),
    decreases lines.len(),
{
    if lines.len() > 0 {
        let before = lines.drop_last();
        assert forall|l: int| 0 <= l < before.len() implies spec_line_feeds(#[trigger] before[l])
            == 1 by {
            assert(before[l] == lines[l]);
        }
        lemma_line_feeds_of_lines(before);
        lemma_line_feeds_add(spec_concat(before), lines.last());
        assert(spec_line_feeds(lines.last()) == 1);
    }
}

/// The texts that a list of strings holds.
pub open spec fn spec_texts(strings: Seq<String>) -> Seq<Seq<char>> {
    Seq::new(strings.len(), |i: int| strings[i]@)
}

/// The pieces of `s` between the occurrences of `sep`. There is one piece
/// more than there are separators, and a piece may be empty.
pub open spec fn spec_split(s: Seq<char>, sep: char) -> Seq<Seq<char>>
    decreases s.len(),
{
    if s.len() == 0 {
        seq![Seq::empty()]
    } else {
        let before = spec_split(s.drop_last(), sep);
        if s.last() == sep {
            before.push(Seq::empty())
        } else {
            before.drop_last().push(before.last().push(s.last()))
        }
    }
}

/// Splitting always yields at least one piece.
pub proof fn lemma_split_not_empty(s: Seq<char>, sep: char)
    ensures
        spec_split(s, sep).len() >= 1,
    decreases s.len(),
{
    if s.len() > 0 {
        lemma_split_not_empty(s.drop_last(), sep);
    }
}

/// The pieces of a split text hold no separator, and joined by the
/// separator they are the text again.
pub proof fn lemma_split_joins_back(s: Seq<char>, sep: char)
    ensures
        spec_joined(spec_split(s, sep), sep) == s,
        forall|p: int, i: int|
            0 <= p < spec_split(s, sep).len() && 0 <= i < spec_split(s, sep)[p].len()
                ==> #[trigger] spec_split(s, sep)[p][i] != sep,
    decreases s.len(),
{
    if s.len() > 0 {
        let before = spec_split(s.drop_last(), sep);
        lemma_split_joins_back(s.drop_last(), sep);
        lemma_split_not_empty(s.drop_last(), sep);
        let pieces = spec_split(s, sep);
        if s.last() == sep {
            assert(pieces.drop_last() =~= before);
            assert(spec_joined(pieces, sep) =~= s.drop_last().push(sep));
        } else {
            let grown = before.last().push(s.last());
            if before.len() == 1 {
                assert(spec_joined(pieces, sep) =~= spec_joined(before, sep).push(s.last()));
            } else {
                assert(pieces.drop_last() =~= before.drop_last());
                assert(spec_joined(pieces, sep) =~= spec_joined(before, sep).push(s.last()));
            }
        }
        assert(s.drop_last().push(s.last()) =~= s);
    } else {
        assert(spec_joined(spec_split(s, sep), sep) =~= s);
    }
}

/// Appends one character to a string.
///
/// Trusted: `String::push` is documented to append the given `char` to the
/// end of the string and to leave what was there untouched.
#[verifier::external_body]
pub(crate) fn push_char(s: &mut String, c: char)
    ensures
        final(s)@ == old(s)@.push(c),
{
    s.push(c)
}

/// Appends `n` copies of `c` to `s`.
pub fn push_repeated(s: &mut String, c: char, n: usize)
    ensures
        final(s)@ == old(s)@ + spec_repeat(c, n as nat),
{
    let mut i: usize = 0;
    while i < n
        invariant
            i <= n,
            s@ == old(s)@ + spec_repeat(c, i as nat),
        decreases n - i,
    {
        push_char(s, c);
        i += 1;
    }
}

/// A string made of `n` copies of `c`.
pub fn repeat_char(c: char, n: usize) -> (res: String)
    ensures
        res@ == spec_repeat(c, n as nat),
{
    let mut s = String::new();
    push_repeated(&mut s, c, n);
    s
}

/// Splits `s` at every occurrence of `sep`.
pub fn split(s: &str, sep: char) -> (res: Vec<String>)
    ensures
        spec_texts(res@) == spec_split(s@, sep),
{
    let mut pieces: Vec<String> = Vec::new();
    let mut current: String = String::new();
    for c in it: s.chars()
        invariant
            it.seq() == s@,
            spec_texts(pieces@).push(current@) == spec_split(s@.take(it.index() as int), sep),
    {
        proof {
            let seen = s@.take(it.index() + 1);
            assert(seen.drop_last() =~= s@.take(it.index() as int));
            assert(seen.last() == c);
            assert(spec_texts(pieces@).push(current@).drop_last() =~= spec_texts(pieces@));
        }
        if c == sep {
            let ghost before = spec_texts(pieces@).push(current@);
            pieces.push(current);
            current = String::new();
            assert(spec_texts(pieces@) =~= before);
        } else {
            let ghost before = spec_texts(pieces@);
            push_char(&mut current, c);
            assert(spec_texts(pieces@) =~= before);
        }
    }
    proof {
        assert(s@.take(s@.len() as int) =~= s@);
    }
    let ghost before = spec_texts(pieces@).push(current@);
    pieces.push(current);
    assert(spec_texts(pieces@) =~= before);
    pieces
}

} // verus!
