//! The Puppetfile: a text with one module declaration per line.

use crate::text::{
    chars_between, chars_of, is_space, is_uncut, lemma_pieces_hold_no_separator,
    lemma_split_one_more, lemma_split_one_piece, split_chars, split_on, string_of, views_of,
    Separator,
};
use crate::version::{parse_version, ParseError, Version};
use vstd::prelude::*;

verus! {

/// A module that a Puppetfile declares, with the release it is pinned to.
#[derive(Debug, Clone, PartialEq, Eq)]
pub struct ModuleEntry {
    pub name: String,
    pub version: Version,
}

impl View for ModuleEntry {
    type V = (Seq<char>, Version);

    open spec fn view(&self) -> (Seq<char>, Version) {
        (self.name@, self.version)
    }
}

/// The entries of a vector, each as its name and its release.
pub open spec fn entries_of(entries: Seq<ModuleEntry>) -> Seq<(Seq<char>, Version)> {
    entries.map_values(|e: ModuleEntry| e@)
}

/// `c` is a single or a double quote.
pub open spec fn is_quote(c: char) -> bool {
    c == '\'' || c == '"'
}

/// `t` without the quotes and commas at its end.
pub open spec fn strip_behind(t: Seq<char>) -> Seq<char>
    decreases t.len(),
{
    if t.len() > 0 && (is_quote(t.last()) || t.last() == ',') {
        strip_behind(t.drop_last())
    } else {
        t
    }
}

/// `t` without the quotes at its start.
pub open spec fn strip_ahead(t: Seq<char>) -> Seq<char>
    decreases t.len(),
{
    if t.len() > 0 && is_quote(t[0]) {
        strip_ahead(t.drop_first())
    } else {
        t
    }
}

/// What a word of a declaration names: the word without the quotes and
/// commas that follow it and without the quotes ahead of it.
pub open spec fn bare_word(t: Seq<char>) -> Seq<char> {
    strip_ahead(strip_behind(t))
}

/// The pieces that are not empty, in their order.
pub open spec fn without_empty(parts: Seq<Seq<char>>) -> Seq<Seq<char>>
    decreases parts.len(),
{
    if parts.len() == 0 {
        Seq::empty()
    } else if parts.last().len() == 0 {
        without_empty(parts.drop_last())
    } else {
        without_empty(parts.drop_last()).push(parts.last())
    }
}

/// The words of a line: its longest runs of characters that are not white
/// space.
pub open spec fn words(line: Seq<char>) -> Seq<Seq<char>> {
    without_empty(split_on(line, Separator::Space))
}

/// The word that every declaration begins with.
pub open spec fn keyword() -> Seq<char> {
    seq!['m', 'o', 'd']
}

/// The word that sets the directory of the modules; a line that begins with
/// it declares nothing.
pub open spec fn directive() -> Seq<char> {
    seq!['m', 'o', 'd', 'u', 'l', 'e', 'd', 'i', 'r']
}

/// A line declares a module if its first word begins with the keyword and
/// not with the directive.
pub open spec fn is_declaration(line: Seq<char>) -> bool {
    let w = words(line);
    w.len() > 0 && keyword().is_prefix_of(w[0]) && !directive().is_prefix_of(w[0])
}

/// What one line of a Puppetfile yields: nothing, unless it is a declaration
/// with a name and a release; then the entry, or the reason why the third
/// word is no release number.
pub open spec fn line_entry(line: Seq<char>) -> Result<Option<(Seq<char>, Version)>, ParseError> {
    let w = words(line);
    if is_declaration(line) && w.len() >= 3 {
        match parse_version(bare_word(w[2])) {
            Ok(version) => Ok(Some((bare_word(w[1]), version))),
            Err(e) => Err(e),
        }
    } else {
        Ok(None)
    }
}

/// What a sequence of lines yields: the entries of its lines in their order,
/// or the error of the first line that has one.
pub open spec fn lines_entries(lines: Seq<Seq<char>>) -> Result<
    Seq<(Seq<char>, Version)>,
    ParseError,
>
    decreases lines.len(),
{
    if lines.len() == 0 {
        Ok(Seq::empty())
    } else {
        match lines_entries(lines.drop_last()) {
            Err(e) => Err(e),
            Ok(before) => match line_entry(lines.last()) {
                Err(e) => Err(e),
                Ok(None) => Ok(before),
                Ok(Some(entry)) => Ok(before.push(entry)),
            },
        }
    }
}

/// What the text of a Puppetfile yields.
pub open spec fn manifest_entries(text: Seq<char>) -> Result<Seq<(Seq<char>, Version)>, ParseError> {
    lines_entries(split_on(text, Separator::Mark('\n')))
}

/// `w` is not empty and holds no white space.
pub open spec fn is_solid(w: Seq<char>) -> bool {
    w.len() > 0 && is_uncut(w, Separator::Space)
}

/// Of pieces without white space, those that are not empty are solid.
proof fn lemma_without_empty_is_solid(parts: Seq<Seq<char>>)
    requires
        forall|i: int| 0 <= i < parts.len() ==> is_uncut(#[trigger] parts[i], Separator::Space),
    ensures
        forall|i: int|
            0 <= i < without_empty(parts).len() ==> is_solid(#[trigger] without_empty(parts)[i]),
    decreases parts.len(),
{
    if parts.len() > 0 {
        let before = parts.drop_last();
        assert forall|i: int| 0 <= i < before.len() implies is_uncut(
            #[trigger] before[i],
            Separator::Space,
        ) by {
            assert(before[i] == parts[i]);
        }
        lemma_without_empty_is_solid(before);
        let kept = without_empty(parts);
        assert forall|i: int| 0 <= i < kept.len() implies is_solid(#[trigger] kept[i]) by {
            if i < without_empty(before).len() {
                assert(kept[i] == without_empty(before)[i]);
            } else {
                assert(kept[i] == parts[parts.len() - 1]);
            }
        }
    }
}

/// Every word of a line is solid.
pub proof fn lemma_words_are_solid(line: Seq<char>)
    ensures
        forall|i: int| 0 <= i < words(line).len() ==> is_solid(#[trigger] words(line)[i]),
{
    lemma_pieces_hold_no_separator(line, Separator::Space);
    lemma_without_empty_is_solid(split_on(line, Separator::Space));
}

/// What is stripped from the end of a word leaves a beginning of the word
/// that does not end in a quote or a comma.
pub proof fn lemma_strip_behind(t: Seq<char>)
    ensures
        strip_behind(t).is_prefix_of(t),
        strip_behind(t).len() > 0 ==> !is_quote(strip_behind(t).last()) && strip_behind(t).last()
            != ',',
    decreases t.len(),
{
    if t.len() > 0 && (is_quote(t.last()) || t.last() == ',') {
        lemma_strip_behind(t.drop_last());
        let r = strip_behind(t);
        assert(r =~= t.subrange(0, r.len() as int));
    } else {
        assert(t =~= t.subrange(0, t.len() as int));
    }
}

/// What is stripped from the start of a word leaves an end of the word that
/// does not start with a quote.
pub proof fn lemma_strip_ahead(t: Seq<char>)
    ensures
        strip_ahead(t).is_suffix_of(t),
        strip_ahead(t).len() > 0 ==> !is_quote(strip_ahead(t)[0]),
    decreases t.len(),
{
    if t.len() > 0 && is_quote(t[0]) {
        lemma_strip_ahead(t.drop_first());
        let r = strip_ahead(t);
        assert(r =~= t.subrange(t.len() - r.len(), t.len() as int));
    } else {
        assert(t =~= t.subrange(0, t.len() as int));
    }
}

/// A bare word neither starts with a quote nor ends in a quote or a comma.
pub proof fn lemma_bare_word_is_bare(t: Seq<char>)
    ensures
        bare_word(t).len() <= t.len(),
        bare_word(t).len() > 0 ==> !is_quote(bare_word(t)[0]) && !is_quote(bare_word(t).last())
            && bare_word(t).last() != ',',
{
    let a = strip_behind(t);
    let b = strip_ahead(a);
    lemma_strip_behind(t);
    lemma_strip_ahead(a);
    if b.len() > 0 {
        assert(b.last() == a.subrange(a.len() - b.len(), a.len() as int).last());
        assert(b.last() == a.last());
    }
}

/// Three solid words with white space between them are the words of their
/// line. Where the first of them begins a declaration, the line declares the
/// module that the second names, with the release that the third names.
pub proof fn lemma_declaration(
    first: Seq<char>,
    name: Seq<char>,
    release: Seq<char>,
    gap: char,
    other_gap: char,
)
    requires
        is_solid(first),
        is_solid(name),
        is_solid(release),
        is_space(gap),
        is_space(other_gap),
    ensures
        words(first + seq![gap] + name + seq![other_gap] + release) == seq![first, name, release],
        keyword().is_prefix_of(first) && !directive().is_prefix_of(first) ==> line_entry(
            first + seq![gap] + name + seq![other_gap] + release,
        ) == match parse_version(bare_word(release)) {
            Ok(version) => Ok::<_, ParseError>(Some((bare_word(name), version))),
            Err(e) => Err(e),
        },
{
    let space = Separator::Space;
    lemma_split_one_piece(first, space);
    lemma_split_one_more(first, gap, name, space);
    lemma_split_one_more(first + seq![gap] + name, other_gap, release, space);
    let pieces = split_on(first + seq![gap] + name + seq![other_gap] + release, space);
    let one = seq![first];
    let two = seq![first, name];
    assert(pieces =~= seq![first, name, release]);
    assert(pieces.drop_last() =~= two);
    assert(two.drop_last() =~= one);
    assert(one.drop_last() =~= Seq::<Seq<char>>::empty());
    assert(without_empty(one.drop_last()) =~= Seq::<Seq<char>>::empty());
    assert(without_empty(one) =~= one);
    assert(without_empty(two) =~= two);
    assert(without_empty(pieces) =~= pieces);
}

/// A text of one line yields what the line yields.
pub proof fn lemma_one_line(line: Seq<char>)
    requires
        is_uncut(line, Separator::Mark('\n')),
    ensures
        manifest_entries(line) == match line_entry(line) {
            Err(e) => Err::<Seq<(Seq<char>, Version)>, _>(e),
            Ok(None) => Ok(Seq::empty()),
            Ok(Some(entry)) => Ok(seq![entry]),
        },
{
    lemma_split_one_piece(line, Separator::Mark('\n'));
    let lines = seq![line];
    assert(lines.drop_last() =~= Seq::<Seq<char>>::empty());
    assert(lines.last() == line);
    assert(lines_entries(lines.drop_last()) == Ok::<_, ParseError>(
        Seq::<(Seq<char>, Version)>::empty(),
    ));
    match line_entry(line) {
        Ok(Some(entry)) => {
            assert(Seq::<(Seq<char>, Version)>::empty().push(entry) =~= seq![entry]);
        },
        _ => {},
    }
}

/// One more line adds what it yields behind what the text before it
/// yields, unless the text before it has an error already.
pub proof fn lemma_one_more_line(text: Seq<char>, line: Seq<char>)
    requires
        is_uncut(line, Separator::Mark('\n')),
    ensures
        manifest_entries(text + seq!['\n'] + line) == match manifest_entries(text) {
            Err(e) => Err::<Seq<(Seq<char>, Version)>, _>(e),
            Ok(before) => match line_entry(line) {
                Err(e) => Err(e),
                Ok(None) => Ok(before),
                Ok(Some(entry)) => Ok(before.push(entry)),
            },
        },
{
    let newline = Separator::Mark('\n');
    lemma_split_one_more(text, '\n', line, newline);
    let lines = split_on(text, newline).push(line);
    assert(lines.drop_last() =~= split_on(text, newline));
    assert(lines.last() == line);
}

/// An error among the first lines is the error of the whole.
proof fn lemma_error_stays(lines: Seq<Seq<char>>, n: int)
    requires
        0 <= n <= lines.len(),
        lines_entries(lines.take(n)) is Err,
    ensures
        lines_entries(lines) == lines_entries(lines.take(n)),
    decreases lines.len(),
{
    if n == lines.len() {
        assert(lines.take(n) =~= lines);
    } else {
        assert(lines.drop_last().take(n) =~= lines.take(n));
        lemma_error_stays(lines.drop_last(), n);
    }
}

/// Tells whether `w` begins with `p`.
fn begins_with(w: &Vec<char>, p: &Vec<char>) -> (r: bool)
    ensures
        r == p@.is_prefix_of(w@),
{
    if p.len() > w.len() {
        return false;
    }
    let mut i: usize = 0;
    while i < p.len()
        invariant
            i <= p.len() <= w.len(),
            forall|k: int| 0 <= k < i ==> p@[k] == w@[k],
        decreases p.len() - i,
    {
        if p[i] != w[i] {
            assert(w@.subrange(0, p@.len() as int)[i as int] != p@[i as int]);
            return false;
        }
        i += 1;
    }
    assert(p@ =~= w@.subrange(0, p@.len() as int));
    true
}

/// The words of a line.
fn words_of(line: &Vec<char>) -> (w: Vec<Vec<char>>)
    ensures
        views_of(w@) == words(line@),
{
    let pieces = split_chars(line, Separator::Space);
    let ghost model = views_of(pieces@);
    let mut w: Vec<Vec<char>> = Vec::new();
    let mut i: usize = 0;
    assert(model.take(0) =~= Seq::empty());
    assert(views_of(w@) =~= without_empty(model.take(0)));
    while i < pieces.len()
        invariant
            i <= pieces.len(),
            model == views_of(pieces@),
            views_of(w@) == without_empty(model.take(i as int)),
        decreases pieces.len() - i,
    {
        let ghost old_w = views_of(w@);
        proof {
            let t = model.take(i + 1);
            assert(t.drop_last() =~= model.take(i as int));
            assert(t.last() == pieces@[i as int]@);
        }
        if pieces[i].len() > 0 {
            w.push(pieces[i].clone());
            assert(w@.last()@ == pieces@[i as int]@);
            assert(views_of(w@) =~= old_w.push(pieces@[i as int]@));
        }
        i += 1;
    }
    assert(model.take(i as int) =~= model);
    w
}

/// Where the bare word lies in `t`.
fn bare_range(t: &Vec<char>) -> (r: (usize, usize))
    ensures
        r.0 <= r.1 <= t.len(),
        t@.subrange(r.0 as int, r.1 as int) == bare_word(t@),
{
    let mut end: usize = t.len();
    assert(t@.take(end as int) =~= t@);
    while end > 0 && (t[end - 1] == '\'' || t[end - 1] == '"' || t[end - 1] == ',')
        invariant
            end <= t.len(),
            strip_behind(t@) == strip_behind(t@.take(end as int)),
        decreases end,
    {
        assert(t@.take(end as int).drop_last() =~= t@.take(end - 1));
        end -= 1;
    }
    let ghost b = t@.take(end as int);
    assert(strip_behind(t@) == b);
    let mut start: usize = 0;
    assert(b.skip(0) =~= b);
    while start < end && (t[start] == '\'' || t[start] == '"')
        invariant
            start <= end <= t.len(),
            b == t@.take(end as int),
            strip_ahead(b) == strip_ahead(b.skip(start as int)),
        decreases end - start,
    {
        assert(b.skip(start as int).drop_first() =~= b.skip(start + 1));
        start += 1;
    }
    assert(strip_ahead(b) == b.skip(start as int));
    assert(b.skip(start as int) =~= t@.subrange(start as int, end as int));
    (start, end)
}

/// Reads one line of a Puppetfile.
pub fn read_line(line: &Vec<char>) -> (r: Result<Option<ModuleEntry>, ParseError>)
    ensures
        match r {
            Ok(Some(entry)) => line_entry(line@) == Ok::<_, ParseError>(Some(entry@)),
            Ok(None) => line_entry(line@) == Ok::<Option<(Seq<char>, Version)>, ParseError>(None),
            Err(e) => line_entry(line@) == Err::<Option<(Seq<char>, Version)>, _>(e),
        },
{
    let w = words_of(line);
    let ghost model = views_of(w@);
    if w.len() < 3 {
        return Ok(None);
    }
    assert(model[0] == w[0]@ && model[1] == w[1]@ && model[2] == w[2]@);
    let key = vec!['m', 'o', 'd'];
    let dir = vec!['m', 'o', 'd', 'u', 'l', 'e', 'd', 'i', 'r'];
    assert(key@ =~= keyword());
    assert(dir@ =~= directive());
    if !begins_with(&w[0], &key) || begins_with(&w[0], &dir) {
        return Ok(None);
    }
    let (from, to) = bare_range(&w[2]);
    let number = chars_between(&w[2], from, to);
    match Version::parse_chars(&number) {
        Err(e) => Err(e),
        Ok(version) => {
            let (from, to) = bare_range(&w[1]);
            let name = string_of(&w[1], from, to);
            Ok(Some(ModuleEntry { name, version }))
        },
    }
}

/// Reads the text of a Puppetfile: the modules that it declares with a
/// release, in the order of their lines. Lines that declare no module, and
/// declarations without a release, yield nothing. The reading fails at the
/// first declaration whose release is no release number.
pub fn read_puppetfile(text: &str) -> (r: Result<Vec<ModuleEntry>, ParseError>)
    ensures
        match r {
            Ok(entries) => manifest_entries(text@) == Ok::<_, ParseError>(entries_of(entries@)),
            Err(e) => manifest_entries(text@) == Err::<Seq<(Seq<char>, Version)>, _>(e),
        },
{
    let chars = chars_of(text);
    let lines = split_chars(&chars, Separator::Mark('\n'));
    let ghost model = views_of(lines@);
    let mut entries: Vec<ModuleEntry> = Vec::new();
    let mut i: usize = 0;
    assert(model.take(0) =~= Seq::empty());
    assert(entries_of(entries@) =~= Seq::empty());
    while i < lines.len()
        invariant
            i <= lines.len(),
            model == views_of(lines@),
            model == split_on(text@, Separator::Mark('\n')),
            lines_entries(model.take(i as int)) == Ok::<_, ParseError>(entries_of(entries@)),
        decreases lines.len() - i,
    {
        let ghost before = entries_of(entries@);
        proof {
            let t = model.take(i + 1);
            assert(t.drop_last() =~= model.take(i as int));
            assert(t.last() == lines@[i as int]@);
        }
        match read_line(&lines[i]) {
            Err(e) => {
                proof {
                    lemma_error_stays(model, i + 1);
                }
                return Err(e);
            },
            Ok(None) => {},
            Ok(Some(entry)) => {
                let ghost added = entry@;
                entries.push(entry);
                assert(entries_of(entries@) =~= before.push(added));
            },
        }
        i += 1;
    }
    assert(model.take(i as int) =~= model);
    Ok(entries)
}

} // verus!
