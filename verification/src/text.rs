//! Strings as vectors of characters, and how they are cut into pieces.

use vstd::prelude::*;

verus! {

/// `String::push` appends the given character to the end of the string.
pub assume_specification[ String::push ](s: &mut String, c: char)
    ensures
        final(s)@ == old(s)@.push(c),
;

/// The characters of `s`, in order.
pub fn chars_of(s: &str) -> (v: Vec<char>)
    ensures
        v@ == s@,
{
    let mut v: Vec<char> = Vec::new();
    for c in it: s.chars()
        invariant
            it.seq() == s@,
            v@ == s@.take(it.index() as int),
    {
        v.push(c);
    }
    v
}

/// The string made of the characters `v[from..to]`.
pub(crate) fn string_of(v: &Vec<char>, from: usize, to: usize) -> (s: String)
    requires
        from <= to <= v.len(),
    ensures
        s@ == v@.subrange(from as int, to as int),
{
    let mut s = String::new();
    let mut i: usize = from;
    while i < to
        invariant
            from <= i <= to <= v.len(),
            s@ == v@.subrange(from as int, i as int),
        decreases to - i,
    {
        s.push(v[i]);
        i += 1;
        assert(v@.subrange(from as int, i as int) =~= v@.subrange(from as int, i - 1).push(
            v@[i - 1],
        ));
    }
    s
}

/// The characters `v[from..to]`.
pub(crate) fn chars_between(v: &Vec<char>, from: usize, to: usize) -> (r: Vec<char>)
    requires
        from <= to <= v.len(),
    ensures
        r@ == v@.subrange(from as int, to as int),
{
    let mut r: Vec<char> = Vec::new();
    let mut i: usize = from;
    while i < to
        invariant
            from <= i <= to <= v.len(),
            r@ == v@.subrange(from as int, i as int),
        decreases to - i,
    {
        r.push(v[i]);
        i += 1;
        assert(v@.subrange(from as int, i as int) =~= v@.subrange(from as int, i - 1).push(
            v@[i - 1],
        ));
    }
    r
}

/// `c` is white space: a character with the Unicode property `White_Space`.
pub open spec fn is_space(c: char) -> bool {
    ||| c == ' '
    ||| ('\u{9}' <= c && c <= '\u{d}')
    ||| c == '\u{85}'
    ||| c == '\u{a0}'
    ||| c == '\u{1680}'
    ||| ('\u{2000}' <= c && c <= '\u{200a}')
    ||| c == '\u{2028}'
    ||| c == '\u{2029}'
    ||| c == '\u{202f}'
    ||| c == '\u{205f}'
    ||| c == '\u{3000}'
}

/// Tells whether `c` is white space.
pub fn is_white_space(c: char) -> (r: bool)
    ensures
        r == is_space(c),
{
    c == ' ' || ('\u{9}' <= c && c <= '\u{d}') || c == '\u{85}' || c == '\u{a0}' || c
        == '\u{1680}' || ('\u{2000}' <= c && c <= '\u{200a}') || c == '\u{2028}' || c
        == '\u{2029}' || c == '\u{202f}' || c == '\u{205f}' || c == '\u{3000}'
}

/// What cuts a text into pieces.
#[derive(Debug, Clone, Copy)]
pub enum Separator {
    /// One given character.
    Mark(char),
    /// Any white space character.
    Space,
}

impl Separator {
    /// `c` is a separator of this kind.
    pub open spec fn cuts(self, c: char) -> bool {
        match self {
            Separator::Mark(m) => c == m,
            Separator::Space => is_space(c),
        }
    }

    /// Tells whether `c` is a separator of this kind.
    pub fn is_cut(&self, c: char) -> (r: bool)
        ensures
            r == self.cuts(c),
    {
        match self {
            Separator::Mark(m) => c == *m,
            Separator::Space => is_white_space(c),
        }
    }
}

/// The pieces of `s` between its separators. There is always at least one
/// piece, and a piece may be empty.
pub open spec fn split_on(s: Seq<char>, sep: Separator) -> Seq<Seq<char>>
    decreases s.len(),
{
    if s.len() == 0 {
        seq![Seq::empty()]
    } else {
        let before = split_on(s.drop_last(), sep);
        if sep.cuts(s.last()) {
            before.push(Seq::empty())
        } else {
            before.drop_last().push(before.last().push(s.last()))
        }
    }
}

/// The characters of each vector of `parts`.
pub open spec fn views_of(parts: Seq<Vec<char>>) -> Seq<Seq<char>> {
    parts.map_values(|p: Vec<char>| p@)
}

/// Cuts `v` at every separator.
pub fn split_chars(v: &Vec<char>, sep: Separator) -> (parts: Vec<Vec<char>>)
    ensures
        views_of(parts@) == split_on(v@, sep),
{
    let mut parts: Vec<Vec<char>> = Vec::new();
    let mut piece: Vec<char> = Vec::new();
    let mut i: usize = 0;
    assert(v@.take(0) =~= Seq::empty());
    assert(views_of(parts@).push(piece@) =~= split_on(v@.take(0), sep));
    while i < v.len()
        invariant
            i <= v.len(),
            views_of(parts@).push(piece@) == split_on(v@.take(i as int), sep),
        decreases v.len() - i,
    {
        let c = v[i];
        let ghost before = split_on(v@.take(i as int), sep);
        let ghost old_parts = views_of(parts@);
        let ghost old_piece = piece@;
        proof {
            let t = v@.take(i + 1);
            assert(t.drop_last() =~= v@.take(i as int));
            assert(t.last() == c);
            assert(before.last() == old_piece);
            assert(before.drop_last() =~= old_parts);
        }
        if sep.is_cut(c) {
            parts.push(piece);
            piece = Vec::new();
            assert(views_of(parts@) =~= old_parts.push(old_piece));
        } else {
            piece.push(c);
        }
        i += 1;
    }
    assert(v@.take(i as int) =~= v@);
    let ghost old_parts = views_of(parts@);
    let ghost old_piece = piece@;
    parts.push(piece);
    assert(views_of(parts@) =~= old_parts.push(old_piece));
    parts
}

/// The pieces `parts`, with `sep` between each two of them.
pub open spec fn join(parts: Seq<Seq<char>>, sep: char) -> Seq<char>
    decreases parts.len(),
{
    if parts.len() == 0 {
        Seq::empty()
    } else if parts.len() == 1 {
        parts[0]
    } else {
        join(parts.drop_last(), sep) + seq![sep] + parts.last()
    }
}

/// A text falls into at least one piece, and its pieces with the separator
/// between them make up the text.
pub proof fn lemma_join_split(s: Seq<char>, sep: char)
    ensures
        split_on(s, Separator::Mark(sep)).len() >= 1,
        join(split_on(s, Separator::Mark(sep)), sep) == s,
    decreases s.len(),
{
    let parts = split_on(s, Separator::Mark(sep));
    if s.len() == 0 {
        assert(join(parts, sep) =~= s);
    } else {
        let before = split_on(s.drop_last(), Separator::Mark(sep));
        lemma_join_split(s.drop_last(), sep);
        assert(s =~= s.drop_last().push(s.last()));
        if s.last() == sep {
            assert(parts.drop_last() =~= before);
            assert(join(parts, sep) =~= s);
        } else {
            if before.len() > 1 {
                assert(parts.drop_last() =~= before.drop_last());
            }
            assert(join(parts, sep) =~= s);
        }
    }
}

/// `s` holds no separator.
pub open spec fn is_uncut(s: Seq<char>, sep: Separator) -> bool {
    forall|j: int| 0 <= j < s.len() ==> !sep.cuts(#[trigger] s[j])
}

/// A text without a separator is one piece.
pub proof fn lemma_split_one_piece(s: Seq<char>, sep: Separator)
    requires
        is_uncut(s, sep),
    ensures
        split_on(s, sep) == seq![s],
    decreases s.len(),
{
    if s.len() == 0 {
        assert(s =~= Seq::<char>::empty());
        assert(split_on(s, sep) =~= seq![s]);
    } else {
        let q = s.drop_last();
        assert(is_uncut(q, sep)) by {
            assert forall|j: int| 0 <= j < q.len() implies !sep.cuts(#[trigger] q[j]) by {
                assert(q[j] == s[j]);
            }
        }
        lemma_split_one_piece(q, sep);
        assert(!sep.cuts(s[s.len() - 1]));
        assert(s =~= q.push(s.last()));
        assert(seq![q].drop_last() =~= Seq::<Seq<char>>::empty());
        assert(seq![q].last() == q);
        assert(split_on(s, sep) =~= seq![s]);
    }
}

/// A separator and a text without one add that text to the pieces as one
/// more piece.
pub proof fn lemma_split_one_more(a: Seq<char>, c: char, b: Seq<char>, sep: Separator)
    requires
        sep.cuts(c),
        is_uncut(b, sep),
    ensures
        split_on(a + seq![c] + b, sep) == split_on(a, sep).push(b),
    decreases b.len(),
{
    let s = a + seq![c] + b;
    let pieces = split_on(a, sep);
    if b.len() == 0 {
        assert(s.drop_last() =~= a);
        assert(b =~= Seq::<char>::empty());
        assert(split_on(s, sep) =~= pieces.push(b));
    } else {
        let q = b.drop_last();
        assert(is_uncut(q, sep)) by {
            assert forall|j: int| 0 <= j < q.len() implies !sep.cuts(#[trigger] q[j]) by {
                assert(q[j] == b[j]);
            }
        }
        lemma_split_one_more(a, c, q, sep);
        assert(s.drop_last() =~= a + seq![c] + q);
        assert(!sep.cuts(b[b.len() - 1]));
        assert(s.last() == b.last());
        assert(pieces.push(q).drop_last() =~= pieces);
        assert(b =~= q.push(b.last()));
        assert(split_on(s, sep) =~= pieces.push(b));
    }
}

/// No piece of a text holds a separator.
pub proof fn lemma_pieces_hold_no_separator(s: Seq<char>, sep: Separator)
    ensures
        split_on(s, sep).len() >= 1,
        forall|i: int|
            0 <= i < split_on(s, sep).len() ==> is_uncut(#[trigger] split_on(s, sep)[i], sep),
    decreases s.len(),
{
    if s.len() > 0 {
        lemma_pieces_hold_no_separator(s.drop_last(), sep);
    }
}

} // verus!
