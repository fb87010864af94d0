//! Wrapping text to a width.
use vstd::prelude::*;

use crate::text::{
    begins_with_word, chars_of, is_blank, is_word, joined, lemma_blank_has_no_words,
    lemma_first_word, lemma_pieces_append, lemma_pieces_nonempty, lemma_pieces_without,
    lemma_texts_push, lemma_words, line_texts, lines, pieces, texts, without_return, word_texts,
    words,
};

verus! {

/// The lines of some words: those that are full, and the one that is not.
pub struct Wrapped {
    pub full: Seq<Seq<char>>,
    pub current: Seq<char>,
}

/// Some words in lines of at most a width, with a space between each two words
/// of a line. A word that is longer than the width has a line of its own.
pub open spec fn wrap_words(list: Seq<Seq<char>>, width: nat) -> Wrapped
    decreases list.len(),
{
    if list.len() == 0 {
        Wrapped { full: Seq::empty(), current: Seq::empty() }
    } else {
        let before = wrap_words(list.drop_last(), width);
        let word = list.last();
        if before.current.len() == 0 {
            Wrapped { current: word, ..before }
        } else if before.current.len() + 1 + word.len() > width {
            Wrapped { full: before.full.push(before.current), current: word }
        } else {
            Wrapped { current: before.current + " "@ + word, ..before }
        }
    }
}

/// One line of a text, wrapped.
pub open spec fn wrap_line(line: Seq<char>, width: nat) -> Seq<Seq<char>> {
    let wrapped = wrap_words(word_texts(line), width);
    wrapped.full.push(wrapped.current)
}

/// Some lines of a text, each wrapped.
pub open spec fn wrap_lines(source: Seq<Seq<char>>, width: nat) -> Seq<Seq<char>>
    decreases source.len(),
{
    if source.len() == 0 {
        Seq::empty()
    } else {
        wrap_lines(source.drop_last(), width) + wrap_line(source.last(), width)
    }
}

/// A text in lines of at most a width, at least one.
pub open spec fn wrap(text: Seq<char>, width: nat) -> Seq<Seq<char>> {
    let wrapped = wrap_lines(line_texts(text), width);
    if wrapped.len() == 0 {
        seq![Seq::<char>::empty()]
    } else {
        wrapped
    }
}

fn char_count(text: &str) -> (count: usize)
    ensures
        count == text@.len(),
{
    chars_of(text).len()
}

fn wrap_source_line(lines_so_far: &mut Vec<String>, line: &str, width: usize)
    ensures
        texts(final(lines_so_far)@) == texts(old(lines_so_far)@) + wrap_line(
            line@,
            width as nat,
        ),
{
    let list = words(line);
    let ghost views = texts(list@);
    let ghost before = texts(lines_so_far@);
    let mut current: String = String::new();
    proof {
        let none = wrap_words(views.take(0), width as nat);
        assert(before + none.full =~= before);
        assert(current@ =~= none.current);
    }
    for i in 0..list.len()
        invariant
            views == texts(list@),
            texts(lines_so_far@) == before + wrap_words(views.take(i as int), width as nat).full,
            current@ == wrap_words(views.take(i as int), width as nat).current,
    {
        let ghost so_far = wrap_words(views.take(i as int), width as nat);
        let ghost next = wrap_words(views.take(i + 1), width as nat);
        let word = list[i].as_str();
        proof {
            assert(views.take(i + 1).drop_last() =~= views.take(i as int));
            assert(views.take(i + 1).last() == word@);
        }
        let used: usize = char_count(current.as_str());
        let length: usize = char_count(word);
        if used > 0 && (used >= width || length >= width - used) {
            proof {
                lemma_texts_push(lines_so_far@, current);
            }
            lines_so_far.push(current);
            current = word.to_owned();
            assert(texts(lines_so_far@) =~= before + next.full);
        } else if used > 0 {
            current.push_str(" ");
            current.push_str(word);
        } else {
            current = word.to_owned();
        }
    }
    assert(views.take(views.len() as int) =~= views);
    proof {
        lemma_texts_push(lines_so_far@, current);
    }
    lines_so_far.push(current);
    assert(texts(lines_so_far@) =~= before + wrap_line(line@, width as nat));
}

/// Wraps a text to a width.
pub fn wrap_text(input: &str, width: usize) -> (result: Vec<String>)
    ensures
        texts(result@) == wrap(input@, width as nat),
        result@.len() >= 1,
{
    let source = lines(input);
    let ghost views = texts(source@);
    let mut result: Vec<String> = Vec::new();
    assert(texts(result@) =~= wrap_lines(views.take(0), width as nat));
    for i in 0..source.len()
        invariant
            views == texts(source@),
            texts(result@) == wrap_lines(views.take(i as int), width as nat),
    {
        assert(views.take(i + 1).drop_last() =~= views.take(i as int));
        assert(views.take(i + 1).last() == source@[i as int]@);
        wrap_source_line(&mut result, source[i].as_str(), width);
    }
    assert(views.take(views.len() as int) =~= views);
    if result.len() == 0 {
        let empty = String::new();
        proof {
            lemma_texts_push(result@, empty);
        }
        result.push(empty);
        assert(texts(result@) =~= seq![Seq::<char>::empty()]);
    }
    result
}

// ---------------------------------------------------------------------------
// Laws
// ---------------------------------------------------------------------------

proof fn lemma_joined_push(list: Seq<Seq<char>>, last: Seq<char>, separator: Seq<char>)
    requires
        list.len() > 0,
    ensures
        joined(list.push(last), separator) == joined(list, separator) + separator + last,
{
    assert(list.push(last).drop_last() =~= list);
}

proof fn lemma_current(list: Seq<Seq<char>>, width: nat)
    requires
        forall|i: int| 0 <= i < list.len() ==> (#[trigger] list[i]).len() > 0,
        list.len() > 0,
    ensures
        wrap_words(list, width).current.len() > 0,
    decreases list.len(),
{
    let fewer = list.drop_last();
    if fewer.len() > 0 {
        assert forall|i: int| 0 <= i < fewer.len() implies (#[trigger] fewer[i]).len() > 0 by {
            assert(fewer[i] == list[i]);
        }
        lemma_current(fewer, width);
    }
    assert(list[list.len() - 1].len() > 0);
}

/// Wrapping breaks between words and nowhere else: the lines with spaces
/// between them are the words with spaces between them.
pub proof fn wrapping_keeps_the_words(list: Seq<Seq<char>>, width: nat)
    requires
        forall|i: int| 0 <= i < list.len() ==> (#[trigger] list[i]).len() > 0,
    ensures
        joined(wrap_words(list, width).full.push(wrap_words(list, width).current), " "@) == joined(
            list,
            " "@,
        ),
    decreases list.len(),
{
    let wrapped = wrap_words(list, width);
    let all = wrapped.full.push(wrapped.current);
    if list.len() == 0 {
        assert(all =~= seq![Seq::<char>::empty()]);
    } else {
        let fewer = list.drop_last();
        let word = list.last();
        let before = wrap_words(fewer, width);
        let earlier = before.full.push(before.current);
        assert forall|i: int| 0 <= i < fewer.len() implies (#[trigger] fewer[i]).len() > 0 by {
            assert(fewer[i] == list[i]);
        }
        wrapping_keeps_the_words(fewer, width);
        if fewer.len() == 0 {
            assert(before.full =~= Seq::<Seq<char>>::empty());
            assert(all =~= seq![word]);
            assert(list =~= seq![word]);
        } else {
            lemma_current(fewer, width);
            lemma_joined_push(fewer, word, " "@);
            assert(fewer.push(word) =~= list);
            if before.current.len() + 1 + word.len() > width {
                lemma_joined_push(earlier, word, " "@);
            } else {
                if before.full.len() == 0 {
                    assert(all =~= seq![before.current + " "@ + word]);
                    assert(earlier =~= seq![before.current]);
                } else {
                    lemma_joined_push(before.full, wrapped.current, " "@);
                    lemma_joined_push(before.full, before.current, " "@);
                    assert(joined(before.full, " "@) + " "@ + (before.current + " "@ + word)
                        =~= joined(before.full, " "@) + " "@ + before.current + " "@ + word);
                }
            }
        }
    }
}

/// No line is wider than the width, but for a single word that is.
pub proof fn wrapped_lines_fit(list: Seq<Seq<char>>, width: nat)
    ensures
        forall|i: int|
            0 <= i < wrap_words(list, width).full.len() ==> (#[trigger] wrap_words(
                list,
                width,
            ).full[i]).len() <= width || list.contains(wrap_words(list, width).full[i]),
        wrap_words(list, width).current.len() <= width || list.contains(
            wrap_words(list, width).current,
        ),
    decreases list.len(),
{
    reveal_strlit(" ");
    if list.len() > 0 {
        let fewer = list.drop_last();
        wrapped_lines_fit(fewer, width);
        let before = wrap_words(fewer, width);
        let wrapped = wrap_words(list, width);
        assert forall|s: Seq<char>| fewer.contains(s) implies #[trigger] list.contains(s) by {
            let i = choose|i: int| 0 <= i < fewer.len() && fewer[i] == s;
            assert(list[i] == s);
        }
        assert(list[list.len() - 1] == list.last());
        assert(list.contains(list.last()));
        assert forall|i: int| 0 <= i < wrapped.full.len() implies (#[trigger] wrapped.full[i]).len()
            <= width || list.contains(wrapped.full[i]) by {
            if i < before.full.len() {
                assert(wrapped.full[i] == before.full[i]);
            } else {
                assert(wrapped.full[i] == before.current);
            }
        }
    }
}

proof fn lemma_lines_hold_no_feed(text: Seq<char>, index: int)
    requires
        0 <= index < line_texts(text).len(),
    ensures
        !line_texts(text)[index].contains('\n'),
{
    let all = pieces(text, '\n');
    lemma_pieces_nonempty(text, '\n');
    lemma_pieces_without(text, '\n', index);
    let line = line_texts(text)[index];
    let piece = all[index];
    if index < all.len() - 1 {
        assert(line == without_return(piece));
    }
    assert forall|i: int| 0 <= i < line.len() implies line[i] != '\n' by {
        assert(line[i] == piece[i]);
        assert(piece.contains(piece[i]));
    }
}

proof fn lemma_wrap_one_line(line: Seq<char>, width: nat)
    requires
        !line.contains('\n'),
    ensures
        wrap(line, width) == wrap_line(line, width),
{
    let none = Seq::<char>::empty();
    lemma_pieces_append(none, line, '\n');
    assert(none + line =~= line);
    assert(pieces(none, '\n') =~= seq![none]);
    assert(pieces(line, '\n') =~= seq![line]);
    let ended = seq![line].drop_last().map_values(|line: Seq<char>| without_return(line));
    assert(ended =~= Seq::<Seq<char>>::empty());
    if line.len() == 0 {
        assert(line_texts(line) =~= Seq::<Seq<char>>::empty());
        lemma_blank_has_no_words(line);
        assert(wrap_line(line, width) =~= seq![none]);
    } else {
        assert(line_texts(line) =~= seq![line]);
        assert(seq![line].drop_last() =~= Seq::<Seq<char>>::empty());
        assert(wrap_lines(Seq::<Seq<char>>::empty(), width) =~= Seq::<Seq<char>>::empty());
        assert(wrap_lines(seq![line], width) =~= wrap_line(line, width));
    }
}

proof fn lemma_wrap_lines_flatten(source: Seq<Seq<char>>, width: nat)
    requires
        forall|i: int| 0 <= i < source.len() ==> !(#[trigger] source[i]).contains('\n'),
    ensures
        wrap_lines(source, width) == source.map_values(
            |line: Seq<char>| wrap(line, width),
        ).flatten(),
    decreases source.len(),
{
    let wrapped = source.map_values(|line: Seq<char>| wrap(line, width));
    wrapped.lemma_flatten_and_flatten_alt_are_equivalent();
    if source.len() > 0 {
        let fewer = source.drop_last();
        assert forall|i: int| 0 <= i < fewer.len() implies !(#[trigger] fewer[i]).contains(
            '\n',
        ) by {
            assert(fewer[i] == source[i]);
        }
        lemma_wrap_lines_flatten(fewer, width);
        let earlier = fewer.map_values(|line: Seq<char>| wrap(line, width));
        earlier.lemma_flatten_and_flatten_alt_are_equivalent();
        assert(wrapped.drop_last() =~= earlier);
        assert(!source[source.len() - 1].contains('\n'));
        lemma_wrap_one_line(source.last(), width);
        assert(wrapped.last() == wrap_line(source.last(), width));
    }
}

/// Wrapping goes line by line: a text is wrapped into what its lines are wrapped
/// into, one after another, and a text without lines into one empty line. A line
/// of nothing but white space comes out as one empty line.
pub proof fn wrapping_goes_line_by_line(text: Seq<char>, width: nat)
    ensures
        line_texts(text).len() > 0 ==> wrap(text, width) == line_texts(text).map_values(
            |line: Seq<char>| wrap(line, width),
        ).flatten(),
        line_texts(text).len() == 0 ==> wrap(text, width) == seq![Seq::<char>::empty()],
        forall|i: int|
            0 <= i < line_texts(text).len() ==> wrap(#[trigger] line_texts(text)[i], width)
                == wrap_line(line_texts(text)[i], width),
        forall|i: int|
            0 <= i < line_texts(text).len() && is_blank(#[trigger] line_texts(text)[i]) ==> wrap(
                line_texts(text)[i],
                width,
            ) == seq![Seq::<char>::empty()],
{
    let source = line_texts(text);
    assert forall|i: int| 0 <= i < source.len() implies !(#[trigger] source[i]).contains('\n')
        && wrap(source[i], width) == wrap_line(source[i], width) by {
        lemma_lines_hold_no_feed(text, i);
        lemma_wrap_one_line(source[i], width);
    }
    lemma_wrap_lines_flatten(source, width);
    assert forall|i: int| 0 <= i < source.len() && is_blank(#[trigger] source[i]) implies wrap(
        source[i],
        width,
    ) == seq![Seq::<char>::empty()] by {
        lemma_blank_has_no_words(source[i]);
        assert(wrap_line(source[i], width) =~= seq![Seq::<char>::empty()]);
    }
    if source.len() > 0 {
        assert(wrap_lines(source, width).len() > 0);
    }
}

/// Whether a line follows another because its first word did not fit that one.
pub open spec fn follows_when_full(before: Seq<char>, line: Seq<char>, width: nat) -> bool {
    exists|word: Seq<char>| #[trigger]
        begins_with_word(line, word) && before.len() + 1 + word.len() > width
}

proof fn lemma_longer_line(before: Seq<char>, line: Seq<char>, more: Seq<char>, width: nat)
    requires
        follows_when_full(before, line, width),
    ensures
        follows_when_full(before, line + " "@ + more, width),
{
    reveal_strlit(" ");
    let word = choose|word: Seq<char>| #[trigger]
        begins_with_word(line, word) && before.len() + 1 + word.len() > width;
    let longer = line + " "@ + more;
    assert(longer.take(word.len() as int) =~= line.take(word.len() as int));
    assert(begins_with_word(longer, word));
}

proof fn lemma_lines_follow(list: Seq<Seq<char>>, width: nat, index: int)
    requires
        forall|i: int| 0 <= i < list.len() ==> is_word(#[trigger] list[i]),
        0 <= index < wrap_words(list, width).full.len(),
    ensures
        ({
            let wrapped = wrap_words(list, width);
            let all = wrapped.full.push(wrapped.current);
            follows_when_full(all[index], all[index + 1], width)
        }),
    decreases list.len(),
{
    if list.len() > 0 {
        let fewer = list.drop_last();
        let word = list.last();
        assert(is_word(list[list.len() - 1]));
        assert forall|i: int| 0 <= i < fewer.len() implies is_word(#[trigger] fewer[i]) by {
            assert(fewer[i] == list[i]);
        }
        let before = wrap_words(fewer, width);
        if index < before.full.len() {
            lemma_lines_follow(fewer, width, index);
            if before.current.len() > 0 && before.current.len() + 1 + word.len() <= width
                && index == before.full.len() - 1 {
                lemma_longer_line(before.full[index], before.current, word, width);
            }
            if before.current.len() == 0 {
                lemma_current(fewer, width);
            }
        } else {
            assert(word.take(word.len() as int) =~= word);
            assert(begins_with_word(word, word));
        }
    }
}

/// Lines are filled: a line ends only where the first word of the next one, and
/// the space before it, would not have fitted.
pub proof fn lines_are_filled(line: Seq<char>, width: nat, index: int)
    requires
        0 <= index < wrap_line(line, width).len() - 1,
    ensures
        word_texts(wrap_line(line, width)[index + 1]).len() > 0,
        wrap_line(line, width)[index].len() + 1 + word_texts(
            wrap_line(line, width)[index + 1],
        )[0].len() > width,
{
    let list = word_texts(line);
    lemma_words(line);
    lemma_lines_follow(list, width, index);
    let all = wrap_line(line, width);
    let word = choose|word: Seq<char>| #[trigger]
        begins_with_word(all[index + 1], word) && all[index].len() + 1 + word.len() > width;
    lemma_first_word(all[index + 1], word);
}

/// Whether some groups of words are a way to write a list of words in lines: they
/// are the words in their order, and each group fits the width or is a single
/// word.
pub open spec fn arranges(
    groups: Seq<Seq<Seq<char>>>,
    list: Seq<Seq<char>>,
    width: nat,
) -> bool {
    &&& groups.flatten() == list
    &&& forall|i: int|
        0 <= i < groups.len() ==> {
            &&& (#[trigger] groups[i]).len() > 0
            &&& groups[i].len() == 1 || joined(groups[i], " "@).len() <= width
        }
}

proof fn lemma_flatten_last(groups: Seq<Seq<Seq<char>>>)
    requires
        groups.len() > 0,
    ensures
        groups.flatten() == groups.drop_last().flatten() + groups.last(),
{
    groups.lemma_flatten_and_flatten_alt_are_equivalent();
    groups.drop_last().lemma_flatten_and_flatten_alt_are_equivalent();
}

proof fn lemma_fewest(groups: Seq<Seq<Seq<char>>>, list: Seq<Seq<char>>, width: nat)
    requires
        arranges(groups, list, width),
        list.len() > 0,
        forall|i: int| 0 <= i < list.len() ==> (#[trigger] list[i]).len() > 0,
    ensures
        groups.len() > 0,
        wrap_words(list, width).full.len() + 1 <= groups.len(),
        wrap_words(list, width).full.len() + 1 == groups.len() ==> wrap_words(
            list,
            width,
        ).current.len() <= joined(groups.last(), " "@).len(),
    decreases list.len(),
{
    reveal_strlit(" ");
    let none = Seq::<Seq<Seq<char>>>::empty();
    if groups.len() == 0 {
        assert(groups =~= none);
        assert(none.flatten() =~= Seq::<Seq<char>>::empty());
    }
    lemma_flatten_last(groups);
    let fewer = list.drop_last();
    let word = list.last();
    let last = groups.last();
    let rest = groups.drop_last();
    assert(groups[groups.len() - 1].len() > 0);
    assert(list.last() == last.last());
    assert forall|i: int| 0 <= i < fewer.len() implies (#[trigger] fewer[i]).len() > 0 by {
        assert(fewer[i] == list[i]);
    }
    assert(list[list.len() - 1].len() > 0);
    let before = wrap_words(fewer, width);
    if fewer.len() > 0 {
        lemma_current(fewer, width);
    }
    if last.len() == 1 {
        assert(last =~= seq![word]);
        assert(fewer =~= rest.flatten());
        if fewer.len() > 0 {
            assert forall|i: int| 0 <= i < rest.len() implies {
                &&& (#[trigger] rest[i]).len() > 0
                &&& rest[i].len() == 1 || joined(rest[i], " "@).len() <= width
            } by {
                assert(rest[i] == groups[i]);
            }
            lemma_fewest(rest, fewer, width);
        }
    } else {
        let shorter = last.drop_last();
        let kept = rest.push(shorter);
        lemma_flatten_last(kept);
        assert(kept.drop_last() =~= rest);
        assert(fewer =~= kept.flatten());
        assert(joined(last, " "@).len() == joined(shorter, " "@).len() + 1 + word.len());
        assert forall|i: int| 0 <= i < kept.len() implies {
            &&& (#[trigger] kept[i]).len() > 0
            &&& kept[i].len() == 1 || joined(kept[i], " "@).len() <= width
        } by {
            if i < rest.len() {
                assert(kept[i] == groups[i]);
            }
        }
        assert(joined(groups[groups.len() - 1], " "@).len() <= width);
        lemma_fewest(kept, fewer, width);
    }
}

/// No way to write the words of a line in lines of the width takes fewer lines.
pub proof fn wrapping_takes_the_fewest_lines(
    line: Seq<char>,
    width: nat,
    groups: Seq<Seq<Seq<char>>>,
)
    requires
        word_texts(line).len() > 0,
        arranges(groups, word_texts(line), width),
    ensures
        wrap_line(line, width).len() <= groups.len(),
{
    lemma_words(line);
    lemma_fewest(groups, word_texts(line), width);
}

} // verus!
