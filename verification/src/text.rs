//! Conversions between strings and sequences of characters.

use vstd::prelude::*;

verus! {

/// Taken on trust, not proved: `String::push` of the standard library puts
/// the character `c` at the end of the string and leaves the characters
/// before it as they were.
pub assume_specification[ String::push ](s: &mut String, c: char)
    ensures
        final(s)@ == old(s)@.push(c),
;

/// The characters of `s`, in order.
pub fn to_chars(s: &str) -> (out: Vec<char>)
    ensures
        out@ == s@,
{
    let mut out: Vec<char> = Vec::new();
    let chars = s.chars();
    for c in it: chars
        invariant
            it.seq() == s@,
            out@ == it.history(),
    {
        out.push(c);
    }
    assert(out@ =~= s@);
    out
}

/// The string made of the characters of `chars`, in order.
pub fn to_text(chars: &[char]) -> (out: String)
    ensures
        out@ == chars@,
{
    let mut out = String::new();
    let mut i: usize = 0;
    while i < chars.len()
        invariant
            i <= chars.len(),
            out@ == chars@.take(i as int),
        decreases chars.len() - i,
    {
        out.push(chars[i]);
        i += 1;
    }
    out
}

/// What each element of `pieces` holds.
pub open spec fn views(pieces: Seq<Vec<char>>) -> Seq<Seq<char>> {
    pieces.map_values(|p: Vec<char>| p@)
}

/// Whether `s` begins with `prefix`.
pub open spec fn has_prefix(s: Seq<char>, prefix: Seq<char>) -> bool {
    prefix.len() <= s.len() && s.take(prefix.len() as int) == prefix
}

/// The pieces into which the occurrences of `sep` cut `s`. There is always
/// one piece more than there are separators: an empty `s` gives one empty
/// piece, and a separator at either end gives an empty piece there.
pub open spec fn split(s: Seq<char>, sep: char) -> Seq<Seq<char>>
    decreases s.len(),
{
    if s.len() == 0 {
        seq![Seq::empty()]
    } else {
        let before = split(s.drop_last(), sep);
        if s.last() == sep {
            before.push(Seq::empty())
        } else {
            before.drop_last().push(before.last().push(s.last()))
        }
    }
}

/// How often `c` occurs in `s`.
pub open spec fn count_of(s: Seq<char>, c: char) -> nat
    decreases s.len(),
{
    if s.len() == 0 {
        0
    } else if s.last() == c {
        count_of(s.drop_last(), c) + 1
    } else {
        count_of(s.drop_last(), c)
    }
}

/// `s` without one carriage return at its end, if it has one there.
pub open spec fn strip_cr(s: Seq<char>) -> Seq<char> {
    if s.len() > 0 && s.last() == '\r' {
        s.drop_last()
    } else {
        s
    }
}

/// The lines of `s`. A line ends at a line feed, or at the end of `s`; the
/// line feed is not part of the line, and neither is a carriage return
/// directly before it. Nothing follows a final line feed: a text that ends
/// with one has the same lines as the text without it.
pub open spec fn lines_of(s: Seq<char>) -> Seq<Seq<char>> {
    let pieces = split(s, '\n');
    let ended = Seq::new((pieces.len() - 1) as nat, |i: int| strip_cr(pieces[i]));
    if pieces.last().len() == 0 {
        ended
    } else {
        ended.push(pieces.last())
    }
}

/// The text made of `lines` with one line feed between each two of them, and
/// none at the end.
pub open spec fn join_lines(lines: Seq<Seq<char>>) -> Seq<char>
    decreases lines.len(),
{
    if lines.len() == 0 {
        Seq::empty()
    } else if lines.len() == 1 {
        lines[0]
    } else {
        join_lines(lines.drop_last()) + seq!['\n'] + lines.last()
    }
}

/// The lines that begin with `marker`.
pub open spec fn marked_by(marker: Seq<char>) -> spec_fn(Seq<char>) -> bool {
    |line: Seq<char>| has_prefix(line, marker)
}

/// The position of the first line that satisfies `p`: the number of lines
/// before it. Where no line satisfies `p`, this is the number of lines.
pub open spec fn first_where(lines: Seq<Seq<char>>, p: spec_fn(Seq<char>) -> bool) -> int
    decreases lines.len(),
{
    if lines.len() == 0 || p(lines[0]) {
        0
    } else {
        1 + first_where(lines.drop_first(), p)
    }
}

/// `first_where` is a position in `lines` or their number; no line before it
/// satisfies `p`, and the line at it, if there is one, does.
pub proof fn lemma_first_where(lines: Seq<Seq<char>>, p: spec_fn(Seq<char>) -> bool)
    ensures
        0 <= first_where(lines, p) <= lines.len(),
        forall|j: int| 0 <= j < first_where(lines, p) ==> !p(#[trigger] lines[j]),
        first_where(lines, p) < lines.len() ==> p(lines[first_where(lines, p)]),
    decreases lines.len(),
{
    if !(lines.len() == 0 || p(lines[0])) {
        let rest = lines.drop_first();
        lemma_first_where(rest, p);
        assert forall|j: int| 0 <= j < first_where(lines, p) implies !p(#[trigger] lines[j]) by {
            if j > 0 {
                assert(lines[j] == rest[j - 1]);
            }
        }
    }
}

/// The position `k` is `first_where` as soon as no line before `k` satisfies
/// `p` and the line at `k`, if there is one, does.
pub proof fn lemma_first_where_is(lines: Seq<Seq<char>>, p: spec_fn(Seq<char>) -> bool, k: int)
    requires
        0 <= k <= lines.len(),
        forall|j: int| 0 <= j < k ==> !p(#[trigger] lines[j]),
        k < lines.len() ==> p(lines[k]),
    ensures
        first_where(lines, p) == k,
    decreases lines.len(),
{
    if k > 0 {
        let rest = lines.drop_first();
        assert(!p(lines[0]));
        assert forall|j: int| 0 <= j < k - 1 implies !p(#[trigger] rest[j]) by {
            assert(rest[j] == lines[j + 1]);
        }
        lemma_first_where_is(rest, p, k - 1);
    }
}

/// A text without the separator is one piece.
pub proof fn lemma_split_whole(s: Seq<char>, sep: char)
    requires
        forall|i: int| 0 <= i < s.len() ==> s[i] != sep,
    ensures
        split(s, sep) == seq![s],
    decreases s.len(),
{
    if s.len() == 0 {
        assert(s =~= Seq::<char>::empty());
    } else {
        lemma_split_whole(s.drop_last(), sep);
        let before = split(s.drop_last(), sep);
        assert(before.last().push(s.last()) =~= s);
        assert(before.drop_last().push(s) =~= seq![s]);
    }
}

/// The pieces of two texts joined by a separator are the pieces of the first
/// followed by the pieces of the second.
pub proof fn lemma_split_joined(a: Seq<char>, b: Seq<char>, sep: char)
    ensures
        split(a + seq![sep] + b, sep) == split(a, sep) + split(b, sep),
    decreases b.len(),
{
    let s = a + seq![sep] + b;
    if b.len() == 0 {
        assert(s.drop_last() =~= a);
        assert(split(a, sep).push(Seq::empty()) =~= split(a, sep) + split(b, sep));
    } else {
        assert(s.drop_last() =~= a + seq![sep] + b.drop_last());
        lemma_split_joined(a, b.drop_last(), sep);
        lemma_split_nonempty(b.drop_last(), sep);
        let pa = split(a, sep);
        let pb = split(b.drop_last(), sep);
        assert(s.last() == b.last());
        if b.last() == sep {
            assert((pa + pb).push(Seq::empty()) =~= pa + pb.push(Seq::empty()));
        } else {
            assert((pa + pb).drop_last().push((pa + pb).last().push(b.last())) =~= pa
                + pb.drop_last().push(pb.last().push(b.last())));
        }
    }
}

/// No piece of a split holds the separator.
pub proof fn lemma_split_pieces_clean(s: Seq<char>, sep: char)
    ensures
        forall|i: int, j: int|
            0 <= i < split(s, sep).len() && 0 <= j < split(s, sep)[i].len() ==> split(
                s,
                sep,
            )[i][j] != sep,
    decreases s.len(),
{
    if s.len() > 0 {
        lemma_split_pieces_clean(s.drop_last(), sep);
        lemma_split_nonempty(s.drop_last(), sep);
    }
}

/// Whether none of `lines` holds a line feed.
pub open spec fn no_line_feeds(lines: Seq<Seq<char>>) -> bool {
    forall|i: int, j: int|
        0 <= i < lines.len() && 0 <= j < lines[i].len() ==> #[trigger] lines[i][j] != '\n'
}

/// The lines of a text hold no line feed.
pub proof fn lemma_lines_clean(s: Seq<char>)
    ensures
        no_line_feeds(lines_of(s)),
{
    let pieces = split(s, '\n');
    let lines = lines_of(s);
    lemma_split_pieces_clean(s, '\n');
    lemma_split_nonempty(s, '\n');
    assert forall|i: int, j: int| 0 <= i < lines.len() && 0 <= j < lines[i].len() implies
        #[trigger] lines[i][j] != '\n' by {
        if i < pieces.len() - 1 {
            assert(lines[i] == strip_cr(pieces[i]));
            assert(lines[i][j] == pieces[i][j]);
        } else {
            assert(lines[i] == pieces[i]);
            assert(lines[i][j] == pieces[i][j]);
        }
    }
}

/// Cutting joined lines at the line feeds gives the lines back.
pub proof fn lemma_split_of_join(lines: Seq<Seq<char>>)
    requires
        lines.len() >= 1,
        no_line_feeds(lines),
    ensures
        split(join_lines(lines), '\n') == lines,
    decreases lines.len(),
{
    if lines.len() == 1 {
        assert forall|j: int| 0 <= j < lines[0].len() implies lines[0][j] != '\n' by {
            assert(lines[0][j] != '\n');
        }
        lemma_split_whole(lines[0], '\n');
        assert(seq![lines[0]] =~= lines);
    } else {
        let front = lines.drop_last();
        let back = lines.last();
        assert forall|i: int, j: int| 0 <= i < front.len() && 0 <= j < front[i].len() implies
            #[trigger] front[i][j] != '\n' by {
            assert(front[i] == lines[i]);
            assert(lines[i][j] != '\n');
        }
        lemma_split_of_join(front);
        assert forall|j: int| 0 <= j < back.len() implies back[j] != '\n' by {
            assert(lines[lines.len() - 1][j] != '\n');
        }
        lemma_split_whole(back, '\n');
        lemma_split_joined(join_lines(front), back, '\n');
        assert(front + seq![back] =~= lines);
    }
}

/// What the lines of joined lines are: the lines themselves, each but the
/// last without a carriage return at its end, and without the last if it is
/// empty.
pub proof fn lemma_lines_of_join(lines: Seq<Seq<char>>)
    requires
        no_line_feeds(lines),
    ensures
        lines.len() == 0 ==> lines_of(join_lines(lines)).len() == 0,
        lines.len() > 0 ==> lines_of(join_lines(lines)).len() == (if lines.last().len() == 0 {
            lines.len() - 1
        } else {
            lines.len() as int
        }),
        forall|i: int|
            0 <= i < lines.len() - 1 ==> #[trigger] lines_of(join_lines(lines))[i] == strip_cr(
                lines[i],
            ),
        lines.len() > 0 && lines.last().len() > 0 ==> lines_of(join_lines(lines)).last()
            == lines.last(),
{
    if lines.len() == 0 {
        assert(split(join_lines(lines), '\n') =~= seq![Seq::<char>::empty()]);
    } else {
        lemma_split_of_join(lines);
    }
}

/// A split always yields at least one piece.
pub proof fn lemma_split_nonempty(s: Seq<char>, sep: char)
    ensures
        split(s, sep).len() >= 1,
    decreases s.len(),
{
    if s.len() > 0 {
        lemma_split_nonempty(s.drop_last(), sep);
    }
}

/// Whether `s` begins with `prefix`.
pub fn starts_with(s: &[char], prefix: &[char]) -> (r: bool)
    ensures
        r == has_prefix(s@, prefix@),
{
    if prefix.len() > s.len() {
        return false;
    }
    let mut i: usize = 0;
    while i < prefix.len()
        invariant
            i <= prefix.len() <= s.len(),
            s@.take(i as int) == prefix@.take(i as int),
        decreases prefix.len() - i,
    {
        if s[i] != prefix[i] {
            proof {
                assert(s@.take(prefix.len() as int)[i as int] != prefix@[i as int]);
            }
            return false;
        }
        proof {
            assert(s@.take(i + 1) =~= s@.take(i as int).push(s@[i as int]));
            assert(prefix@.take(i + 1) =~= prefix@.take(i as int).push(prefix@[i as int]));
        }
        i += 1;
    }
    proof {
        assert(prefix@.take(i as int) =~= prefix@);
    }
    true
}

/// The characters of `s` from position `from` on.
pub fn tail(s: &[char], from: usize) -> (out: Vec<char>)
    requires
        from <= s.len(),
    ensures
        out@ == s@.skip(from as int),
{
    let mut out: Vec<char> = Vec::new();
    let mut i: usize = from;
    while i < s.len()
        invariant
            from <= i <= s.len(),
            out@ == s@.subrange(from as int, i as int),
        decreases s.len() - i,
    {
        out.push(s[i]);
        proof {
            assert(out@ =~= s@.subrange(from as int, i + 1));
        }
        i += 1;
    }
    proof {
        assert(out@ =~= s@.skip(from as int));
    }
    out
}

/// Cuts `s` at each occurrence of `sep`.
pub fn split_chars(s: &[char], sep: char) -> (out: Vec<Vec<char>>)
    ensures
        views(out@) == split(s@, sep),
{
    let mut out: Vec<Vec<char>> = Vec::new();
    let mut piece: Vec<char> = Vec::new();
    let mut i: usize = 0;
    proof {
        assert(views(out@).push(piece@) =~= split(s@.take(0), sep));
    }
    while i < s.len()
        invariant
            i <= s.len(),
            views(out@).push(piece@) == split(s@.take(i as int), sep),
        decreases s.len() - i,
    {
        let c = s[i];
        proof {
            assert(s@.take(i + 1).drop_last() =~= s@.take(i as int));
            assert(s@.take(i + 1).last() == c);
        }
        let ghost before = views(out@).push(piece@);
        if c == sep {
            out.push(piece);
            piece = Vec::new();
            proof {
                assert(views(out@) =~= before);
                assert(views(out@).push(piece@) =~= before.push(Seq::empty()));
            }
        } else {
            piece.push(c);
            proof {
                assert(views(out@).push(piece@) =~= before.drop_last().push(
                    before.last().push(c),
                ));
            }
        }
        i += 1;
    }
    proof {
        assert(s@.take(i as int) =~= s@);
        assert(views(out@.push(piece)) =~= views(out@).push(piece@));
    }
    out.push(piece);
    out
}

/// The position of the first of `lines` that begins with `marker`, or their
/// number if none does.
pub fn find_marked(lines: &Vec<Vec<char>>, marker: &[char]) -> (k: usize)
    ensures
        k == first_where(views(lines@), marked_by(marker@)),
        k <= lines.len(),
        k < lines.len() ==> has_prefix(lines@[k as int]@, marker@),
{
    let mut k: usize = 0;
    while k < lines.len()
        invariant
            k <= lines.len(),
            forall|j: int| 0 <= j < k ==> !has_prefix(#[trigger] views(lines@)[j], marker@),
        decreases lines.len() - k,
    {
        if starts_with(lines[k].as_slice(), marker) {
            proof {
                assert(views(lines@)[k as int] == lines@[k as int]@);
                lemma_first_where_is(views(lines@), marked_by(marker@), k as int);
            }
            return k;
        }
        proof {
            assert(views(lines@)[k as int] == lines@[k as int]@);
        }
        k += 1;
    }
    proof {
        lemma_first_where_is(views(lines@), marked_by(marker@), k as int);
    }
    k
}

/// Cuts `s` into its lines.
pub fn split_lines(s: &[char]) -> (out: Vec<Vec<char>>)
    ensures
        views(out@) == lines_of(s@),
{
    let mut out: Vec<Vec<char>> = Vec::new();
    let mut piece: Vec<char> = Vec::new();
    let mut i: usize = 0;
    proof {
        assert(views(out@) =~= Seq::new(0, |j: int| strip_cr(split(s@.take(0), '\n')[j])));
    }
    while i < s.len()
        invariant
            i <= s.len(),
            split(s@.take(i as int), '\n').len() >= 1,
            views(out@) == Seq::new(
                (split(s@.take(i as int), '\n').len() - 1) as nat,
                |j: int| strip_cr(split(s@.take(i as int), '\n')[j]),
            ),
            piece@ == split(s@.take(i as int), '\n').last(),
        decreases s.len() - i,
    {
        let c = s[i];
        let ghost before = split(s@.take(i as int), '\n');
        let ghost after = split(s@.take(i + 1), '\n');
        proof {
            assert(s@.take(i + 1).drop_last() =~= s@.take(i as int));
            assert(s@.take(i + 1).last() == c);
        }
        if c == '\n' {
            let n = piece.len();
            if n > 0 && piece[n - 1] == '\r' {
                piece.pop();
            }
            proof {
                assert(piece@ =~= strip_cr(before.last()));
                assert(after =~= before.push(Seq::empty()));
                let ghost grown = views(out@.push(piece));
                assert(views(out@).len() == before.len() - 1);
                assert(after.len() == before.len() + 1);
                assert(grown.len() == out@.len() + 1);
                assert(grown.len() == after.len() - 1);
                assert forall|j: int| 0 <= j < grown.len() implies grown[j] == strip_cr(
                    after[j],
                ) by {
                    if j < out@.len() {
                        assert(grown[j] == views(out@)[j]);
                        assert(after[j] == before[j]);
                    } else {
                        assert(after[j] == before.last());
                    }
                }
                assert(views(out@.push(piece)) =~= Seq::new(
                    (after.len() - 1) as nat,
                    |j: int| strip_cr(after[j]),
                ));
            }
            out.push(piece);
            piece = Vec::new();
        } else {
            piece.push(c);
            proof {
                assert(after =~= before.drop_last().push(before.last().push(c)));
                assert(views(out@) =~= Seq::new(
                    (after.len() - 1) as nat,
                    |j: int| strip_cr(after[j]),
                ));
            }
        }
        i += 1;
    }
    proof {
        assert(s@.take(i as int) =~= s@);
    }
    if piece.len() > 0 {
        proof {
            assert(views(out@.push(piece)) =~= views(out@).push(piece@));
        }
        out.push(piece);
    }
    out
}

/// Joins `lines` with one line feed between each two of them.
pub fn join_chars(lines: &Vec<Vec<char>>) -> (out: Vec<char>)
    ensures
        out@ == join_lines(views(lines@)),
{
    let mut out: Vec<char> = Vec::new();
    let mut i: usize = 0;
    while i < lines.len()
        invariant
            i <= lines.len(),
            out@ == join_lines(views(lines@).take(i as int)),
        decreases lines.len() - i,
    {
        let ghost sofar = views(lines@).take(i as int);
        let ghost next = views(lines@).take(i + 1);
        proof {
            assert(next.drop_last() =~= sofar);
            assert(next.last() == lines@[i as int]@);
        }
        if i > 0 {
            out.push('\n');
        }
        let line = &lines[i];
        let mut k: usize = 0;
        let ghost start = out@;
        while k < line.len()
            invariant
                k <= line.len(),
                out@ == start + line@.take(k as int),
            decreases line.len() - k,
        {
            out.push(line[k]);
            proof {
                assert(line@.take(k + 1) =~= line@.take(k as int).push(line@[k as int]));
                assert(out@ =~= start + line@.take(k + 1));
            }
            k += 1;
        }
        proof {
            assert(line@.take(k as int) =~= line@);
            if i == 0 {
                assert(sofar.len() == 0);
                assert(start =~= Seq::<char>::empty());
                assert(out@ =~= next[0]);
            } else {
                assert(out@ =~= join_lines(sofar) + seq!['\n'] + next.last());
            }
        }
        i += 1;
    }
    proof {
        assert(views(lines@).take(i as int) =~= views(lines@));
    }
    out
}

} // verus!
