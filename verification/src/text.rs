//! Text as the rest of the library reads it: a sequence of characters.
//!
//! Every operation is stated over that sequence. The few that the standard
//! library alone can compute (lower case, quoting) stand behind trusted
//! wrappers at the end of the file.
use vstd::prelude::*;

verus! {

/// `String::push` appends one character and leaves the rest as it was.
pub assume_specification[ String::push ](text: &mut String, c: char)
    ensures
        final(text)@ == old(text)@.push(c),
;

/// `String::push_str` appends all of `tail` and leaves the rest as it was.
pub assume_specification[ String::push_str ](text: &mut String, tail: &str)
    ensures
        final(text)@ == old(text)@ + tail@,
;

/// The characters of each text in a list.
pub open spec fn texts(list: Seq<String>) -> Seq<Seq<char>> {
    list.map_values(|text: String| text@)
}

/// The characters of a text that may be missing.
pub open spec fn optional(text: Option<String>) -> Option<Seq<char>> {
    match text {
        Some(text) => Some(text@),
        None => None,
    }
}

pub proof fn lemma_texts_push(list: Seq<String>, text: String)
    ensures
        texts(list.push(text)) == texts(list).push(text@),
{
    assert(texts(list.push(text)) =~= texts(list).push(text@));
}

/// The characters of a text, one by one.
pub fn chars_of(text: &str) -> (chars: Vec<char>)
    ensures
        chars@ == text@,
{
    let mut chars: Vec<char> = Vec::new();
    for c in it: text.chars()
        invariant
            chars@ == it.seq().take(it.index()),
            it.seq() == text@,
    {
        chars.push(c);
    }
    chars
}

/// The text made of the characters from `start` up to `end`.
pub fn text_between(chars: &Vec<char>, start: usize, end: usize) -> (text: String)
    requires
        start <= end <= chars@.len(),
    ensures
        text@ == chars@.subrange(start as int, end as int),
{
    let mut text: String = String::new();
    for i in start..end
        invariant
            start <= i <= end <= chars@.len(),
            text@ == chars@.subrange(start as int, i as int),
    {
        text.push(chars[i]);
    }
    text
}

/// The text made of the given characters.
pub fn text_of(chars: &Vec<char>) -> (text: String)
    ensures
        text@ == chars@,
{
    let text = text_between(chars, 0, chars.len());
    assert(text@ =~= chars@);
    text
}

/// A second copy of a text that may be missing.
pub fn copy_optional(text: &Option<String>) -> (copy: Option<String>)
    ensures
        copy == text,
{
    match text {
        Some(text) => Some(text.clone()),
        None => None,
    }
}

/// Whether two texts hold the same characters.
pub fn same_text(left: &str, right: &str) -> (same: bool)
    ensures
        same == (left@ == right@),
{
    left.to_owned() == right.to_owned()
}

// ---------------------------------------------------------------------------
// White space
// ---------------------------------------------------------------------------

/// The characters with the Unicode property White_Space.
pub open spec fn is_space(c: char) -> bool {
    ||| '\u{9}' <= c <= '\u{d}'
    ||| c == '\u{20}'
    ||| c == '\u{85}'
    ||| c == '\u{a0}'
    ||| c == '\u{1680}'
    ||| '\u{2000}' <= c <= '\u{200a}'
    ||| c == '\u{2028}'
    ||| c == '\u{2029}'
    ||| c == '\u{202f}'
    ||| c == '\u{205f}'
    ||| c == '\u{3000}'
}

pub fn space(c: char) -> (yes: bool)
    ensures
        yes == is_space(c),
{
    ('\u{9}' <= c && c <= '\u{d}') || c == '\u{20}' || c == '\u{85}' || c == '\u{a0}' || c
        == '\u{1680}' || ('\u{2000}' <= c && c <= '\u{200a}') || c == '\u{2028}' || c == '\u{2029}'
        || c == '\u{202f}' || c == '\u{205f}' || c == '\u{3000}'
}

/// The text without the white space at its front.
pub open spec fn trim_front(s: Seq<char>) -> Seq<char>
    decreases s.len(),
{
    if s.len() > 0 && is_space(s[0]) {
        trim_front(s.drop_first())
    } else {
        s
    }
}

/// The text without the white space at its back.
pub open spec fn trim_back(s: Seq<char>) -> Seq<char>
    decreases s.len(),
{
    if s.len() > 0 && is_space(s.last()) {
        trim_back(s.drop_last())
    } else {
        s
    }
}

/// The text without the white space at either end.
pub open spec fn trimmed(s: Seq<char>) -> Seq<char> {
    trim_back(trim_front(s))
}

/// The text without the white space at either end.
pub fn trim(text: &str) -> (result: String)
    ensures
        result@ == trimmed(text@),
{
    let chars = chars_of(text);
    let mut start: usize = 0;
    assert(chars@.subrange(0, chars@.len() as int) =~= chars@);
    while start < chars.len() && space(chars[start])
        invariant
            start <= chars@.len(),
            trim_front(chars@) == trim_front(chars@.subrange(start as int, chars@.len() as int)),
        decreases chars@.len() - start,
    {
        assert(chars@.subrange(start as int, chars@.len() as int).drop_first()
            =~= chars@.subrange(start + 1, chars@.len() as int));
        start = start + 1;
    }
    let ghost front = chars@.subrange(start as int, chars@.len() as int);
    assert(trim_front(chars@) == front);
    let mut end: usize = chars.len();
    while start < end && space(chars[end - 1])
        invariant
            start <= end <= chars@.len(),
            trim_back(front) == trim_back(chars@.subrange(start as int, end as int)),
        decreases end,
    {
        assert(chars@.subrange(start as int, end as int).drop_last()
            =~= chars@.subrange(start as int, end - 1));
        end = end - 1;
    }
    text_between(&chars, start, end)
}

/// Whether a text holds nothing but white space.
pub open spec fn is_blank(s: Seq<char>) -> bool {
    forall|i: int| 0 <= i < s.len() ==> is_space(#[trigger] s[i])
}

/// Trimming leaves nothing exactly where there was nothing but white space.
pub proof fn lemma_blank(s: Seq<char>)
    ensures
        is_blank(s) <==> trimmed(s).len() == 0,
{
    lemma_trim_front(s);
    lemma_trim_back(trim_front(s));
}

proof fn lemma_trim_front(s: Seq<char>)
    ensures
        is_blank(s) ==> trim_front(s).len() == 0,
        !is_blank(s) ==> trim_front(s).len() > 0 && !is_space(trim_front(s)[0]),
    decreases s.len(),
{
    if s.len() > 0 && is_space(s[0]) {
        let rest = s.drop_first();
        lemma_trim_front(rest);
        if is_blank(rest) {
            assert forall|i: int| 0 <= i < s.len() implies is_space(#[trigger] s[i]) by {
                if i > 0 {
                    assert(rest[i - 1] == s[i]);
                }
            }
        } else {
            let i = choose|i: int| 0 <= i < rest.len() && !is_space(#[trigger] rest[i]);
            assert(!is_space(s[i + 1]));
        }
    }
}

proof fn lemma_trim_back(s: Seq<char>)
    ensures
        s.len() > 0 && !is_space(s[0]) ==> trim_back(s).len() > 0,
    decreases s.len(),
{
    if s.len() > 0 && is_space(s.last()) {
        if !is_space(s[0]) {
            assert(s.drop_last()[0] == s[0]);
        }
        lemma_trim_back(s.drop_last());
    }
}

/// Whether a text holds nothing but white space.
pub fn blank(text: &str) -> (yes: bool)
    ensures
        yes == is_blank(text@),
{
    let chars = chars_of(text);
    for i in 0..chars.len()
        invariant
            chars@ == text@,
            forall|j: int| 0 <= j < i ==> is_space(#[trigger] chars@[j]),
    {
        if !space(chars[i]) {
            return false;
        }
    }
    true
}

// ---------------------------------------------------------------------------
// Pieces
// ---------------------------------------------------------------------------

/// The pieces between the separators, at least one.
pub open spec fn pieces(s: Seq<char>, separator: char) -> Seq<Seq<char>>
    decreases s.len(),
{
    if s.len() == 0 {
        seq![Seq::<char>::empty()]
    } else {
        let before = pieces(s.drop_last(), separator);
        if s.last() == separator {
            before.push(Seq::<char>::empty())
        } else {
            before.drop_last().push(before.last().push(s.last()))
        }
    }
}

pub proof fn lemma_pieces_nonempty(s: Seq<char>, separator: char)
    ensures
        pieces(s, separator).len() >= 1,
    decreases s.len(),
{
    if s.len() > 0 {
        lemma_pieces_nonempty(s.drop_last(), separator);
    }
}

/// No piece holds the separator.
pub proof fn lemma_pieces_without(s: Seq<char>, separator: char, index: int)
    requires
        0 <= index < pieces(s, separator).len(),
    ensures
        !pieces(s, separator)[index].contains(separator),
    decreases s.len(),
{
    if s.len() > 0 {
        let shorter = s.drop_last();
        let before = pieces(shorter, separator);
        lemma_pieces_nonempty(shorter, separator);
        if index < before.len() {
            lemma_pieces_without(shorter, separator, index);
        }
        if s.last() != separator && index == before.len() - 1 {
            let longer = before.last().push(s.last());
            assert forall|i: int| 0 <= i < longer.len() implies longer[i] != separator by {
                if i < before.last().len() {
                    assert(before.last().contains(before.last()[i]));
                }
            }
        }
    }
}

/// What comes behind a text goes on with its last piece, up to the first
/// separator.
pub proof fn lemma_pieces_append(s: Seq<char>, tail: Seq<char>, separator: char)
    requires
        !tail.contains(separator),
    ensures
        pieces(s + tail, separator) == pieces(s, separator).drop_last().push(
            pieces(s, separator).last() + tail,
        ),
    decreases tail.len(),
{
    let all = pieces(s, separator);
    lemma_pieces_nonempty(s, separator);
    if tail.len() == 0 {
        assert(s + tail =~= s);
        assert(all.last() + tail =~= all.last());
        assert(all.drop_last().push(all.last()) =~= all);
    } else {
        let shorter = tail.drop_last();
        assert forall|i: int| 0 <= i < shorter.len() implies shorter[i] != separator by {
            assert(tail.contains(tail[i]));
        }
        lemma_pieces_append(s, shorter, separator);
        assert((s + tail).drop_last() =~= s + shorter);
        assert(tail.contains(tail.last()));
        let before = all.drop_last().push(all.last() + shorter);
        assert(before.drop_last() =~= all.drop_last());
        assert((all.last() + shorter).push(tail.last()) =~= all.last() + tail);
    }
}

/// Splits a text at every occurrence of a character.
pub fn split_on(text: &str, separator: char) -> (list: Vec<String>)
    ensures
        texts(list@) == pieces(text@, separator),
        list@.len() >= 1,
{
    let chars = chars_of(text);
    let mut list: Vec<String> = Vec::new();
    let mut current: String = String::new();
    assert(pieces(chars@.take(0), separator) =~= texts(list@).push(current@));
    for i in 0..chars.len()
        invariant
            pieces(chars@.take(i as int), separator) == texts(list@).push(current@),
    {
        assert(chars@.take(i + 1).drop_last() =~= chars@.take(i as int));
        let ghost done = texts(list@);
        assert(done.push(current@).drop_last() =~= done);
        if chars[i] == separator {
            proof {
                lemma_texts_push(list@, current);
            }
            list.push(current);
            current = String::new();
        } else {
            current.push(chars[i]);
        }
    }
    assert(chars@.take(chars@.len() as int) =~= text@);
    proof {
        lemma_texts_push(list@, current);
    }
    list.push(current);
    list
}

/// A line without the carriage return that its line feed followed.
pub open spec fn without_return(line: Seq<char>) -> Seq<char> {
    if line.len() > 0 && line.last() == '\r' {
        line.drop_last()
    } else {
        line
    }
}

/// The lines of a text. A line ends at a line feed or at a carriage return with
/// a line feed; the ending of the last line is optional.
pub open spec fn line_texts(s: Seq<char>) -> Seq<Seq<char>> {
    let all = pieces(s, '\n');
    let ended = all.drop_last().map_values(|line: Seq<char>| without_return(line));
    if all.last().len() == 0 {
        ended
    } else {
        ended.push(all.last())
    }
}

/// The lines of a text.
pub fn lines(text: &str) -> (list: Vec<String>)
    ensures
        texts(list@) == line_texts(text@),
{
    let all = split_on(text, '\n');
    let ghost spec_all = pieces(text@, '\n');
    let mut list: Vec<String> = Vec::new();
    for i in 0..(all.len() - 1) as usize
        invariant
            all@.len() >= 1,
            texts(all@) == spec_all,
            texts(list@) == spec_all.take(i as int).map_values(
                |line: Seq<char>| without_return(line),
            ),
    {
        let line = &all[i];
        assert(spec_all[i as int] == line@);
        let chars = chars_of(line.as_str());
        let kept = if chars.len() > 0 && chars[chars.len() - 1] == '\r' {
            let end: usize = chars.len() - 1;
            let kept = text_between(&chars, 0, end);
            assert(kept@ =~= line@.drop_last());
            kept
        } else {
            line.clone()
        };
        assert(kept@ == without_return(line@));
        let ghost before = texts(list@);
        proof {
            lemma_texts_push(list@, kept);
        }
        list.push(kept);
        assert(texts(list@) =~= spec_all.take(i + 1).map_values(
            |line: Seq<char>| without_return(line),
        ));
    }
    assert(spec_all.take(spec_all.len() - 1) =~= spec_all.drop_last());
    let last = &all[all.len() - 1];
    assert(spec_all.last() == last@);
    if !last.as_str().is_empty() {
        proof {
            lemma_texts_push(list@, *last);
        }
        list.push(last.clone());
    }
    list
}

/// The characters after the last white space.
pub open spec fn open_word(s: Seq<char>) -> Seq<char>
    decreases s.len(),
{
    if s.len() == 0 || is_space(s.last()) {
        Seq::empty()
    } else {
        open_word(s.drop_last()).push(s.last())
    }
}

/// The words that white space follows.
pub open spec fn closed_words(s: Seq<char>) -> Seq<Seq<char>>
    decreases s.len(),
{
    if s.len() == 0 {
        Seq::empty()
    } else if is_space(s.last()) && open_word(s.drop_last()).len() > 0 {
        closed_words(s.drop_last()).push(open_word(s.drop_last()))
    } else {
        closed_words(s.drop_last())
    }
}

/// The words of a text: its longest runs without white space.
pub open spec fn word_texts(s: Seq<char>) -> Seq<Seq<char>> {
    if open_word(s).len() > 0 {
        closed_words(s).push(open_word(s))
    } else {
        closed_words(s)
    }
}

/// Whether a text is a word: not empty, and without white space.
pub open spec fn is_word(s: Seq<char>) -> bool {
    s.len() > 0 && forall|i: int| 0 <= i < s.len() ==> !is_space(#[trigger] s[i])
}

proof fn lemma_open_word(s: Seq<char>)
    ensures
        forall|i: int| 0 <= i < open_word(s).len() ==> !is_space(#[trigger] open_word(s)[i]),
    decreases s.len(),
{
    if s.len() > 0 && !is_space(s.last()) {
        let before = open_word(s.drop_last());
        lemma_open_word(s.drop_last());
        assert forall|i: int| 0 <= i < open_word(s).len() implies !is_space(
            #[trigger] open_word(s)[i],
        ) by {
            if i < before.len() {
                assert(open_word(s)[i] == before[i]);
            }
        }
    }
}

proof fn lemma_closed_words(s: Seq<char>)
    ensures
        forall|i: int| 0 <= i < closed_words(s).len() ==> is_word(#[trigger] closed_words(s)[i]),
    decreases s.len(),
{
    if s.len() > 0 {
        let before = closed_words(s.drop_last());
        lemma_closed_words(s.drop_last());
        lemma_open_word(s.drop_last());
        assert forall|i: int| 0 <= i < closed_words(s).len() implies is_word(
            #[trigger] closed_words(s)[i],
        ) by {
            if i < before.len() {
                assert(closed_words(s)[i] == before[i]);
            }
        }
    }
}

/// The words of a text are words.
pub proof fn lemma_words(s: Seq<char>)
    ensures
        forall|i: int| 0 <= i < word_texts(s).len() ==> is_word(#[trigger] word_texts(s)[i]),
{
    lemma_closed_words(s);
    lemma_open_word(s);
}

proof fn lemma_word_is_open(word: Seq<char>)
    requires
        forall|i: int| 0 <= i < word.len() ==> !is_space(#[trigger] word[i]),
    ensures
        open_word(word) == word,
        closed_words(word) == Seq::<Seq<char>>::empty(),
    decreases word.len(),
{
    if word.len() > 0 {
        assert forall|i: int| 0 <= i < word.len() - 1 implies !is_space(
            #[trigger] word.drop_last()[i],
        ) by {
            assert(word.drop_last()[i] == word[i]);
        }
        lemma_word_is_open(word.drop_last());
        assert(word.drop_last().push(word.last()) =~= word);
    }
}

proof fn lemma_first_closed(word: Seq<char>, space: char, rest: Seq<char>)
    requires
        is_word(word),
        is_space(space),
    ensures
        closed_words(word.push(space) + rest).len() > 0,
        closed_words(word.push(space) + rest)[0] == word,
    decreases rest.len(),
{
    let whole = word.push(space) + rest;
    if rest.len() == 0 {
        assert(whole =~= word.push(space));
        assert(whole.drop_last() =~= word);
        lemma_word_is_open(word);
    } else {
        assert(whole.drop_last() =~= word.push(space) + rest.drop_last());
        lemma_first_closed(word, space, rest.drop_last());
    }
}

/// Whether a text begins with a word: it is that word, or white space follows it.
pub open spec fn begins_with_word(s: Seq<char>, word: Seq<char>) -> bool {
    &&& is_word(word)
    &&& word.len() <= s.len()
    &&& s.take(word.len() as int) == word
    &&& s.len() > word.len() ==> is_space(s[word.len() as int])
}

/// The word that a text begins with is the first of its words.
pub proof fn lemma_first_word(s: Seq<char>, word: Seq<char>)
    requires
        begins_with_word(s, word),
    ensures
        word_texts(s).len() > 0,
        word_texts(s)[0] == word,
{
    if s.len() == word.len() {
        assert(s =~= s.take(word.len() as int));
        lemma_word_is_open(word);
    } else {
        let space = s[word.len() as int];
        let rest = s.skip(word.len() as int + 1);
        assert(s =~= word.push(space) + rest);
        lemma_first_closed(word, space, rest);
    }
}

/// A text of white space has no words.
pub proof fn lemma_blank_has_no_words(s: Seq<char>)
    requires
        is_blank(s),
    ensures
        word_texts(s) == Seq::<Seq<char>>::empty(),
        open_word(s).len() == 0,
    decreases s.len(),
{
    if s.len() > 0 {
        assert(is_space(s[s.len() - 1]));
        assert forall|i: int| 0 <= i < s.len() - 1 implies is_space(
            #[trigger] s.drop_last()[i],
        ) by {
            assert(s.drop_last()[i] == s[i]);
        }
        lemma_blank_has_no_words(s.drop_last());
    }
}

/// The words of a text.
pub fn words(text: &str) -> (list: Vec<String>)
    ensures
        texts(list@) == word_texts(text@),
{
    let chars = chars_of(text);
    let mut list: Vec<String> = Vec::new();
    let mut current: String = String::new();
    assert(texts(list@) =~= closed_words(chars@.take(0)));
    for i in 0..chars.len()
        invariant
            texts(list@) == closed_words(chars@.take(i as int)),
            current@ == open_word(chars@.take(i as int)),
    {
        assert(chars@.take(i + 1).drop_last() =~= chars@.take(i as int));
        assert(chars@.take(i + 1).last() == chars@[i as int]);
        if space(chars[i]) {
            if !current.as_str().is_empty() {
                proof {
                    lemma_texts_push(list@, current);
                }
                list.push(current);
                current = String::new();
            }
        } else {
            current.push(chars[i]);
        }
    }
    assert(chars@.take(chars@.len() as int) =~= text@);
    if !current.as_str().is_empty() {
        proof {
            lemma_texts_push(list@, current);
        }
        list.push(current);
    }
    list
}

/// The texts of a list one after another, with a separator between each two.
pub open spec fn joined(list: Seq<Seq<char>>, separator: Seq<char>) -> Seq<char>
    decreases list.len(),
{
    if list.len() == 0 {
        Seq::empty()
    } else if list.len() == 1 {
        list[0]
    } else {
        joined(list.drop_last(), separator) + separator + list.last()
    }
}

/// Puts the texts of a list one after another, with a separator between each two.
pub fn join(list: &Vec<String>, separator: &str) -> (result: String)
    ensures
        result@ == joined(texts(list@), separator@),
{
    let mut result: String = String::new();
    for i in 0..list.len()
        invariant
            result@ == joined(texts(list@).take(i as int), separator@),
    {
        let ghost prefix = texts(list@).take(i + 1);
        assert(prefix.drop_last() =~= texts(list@).take(i as int));
        assert(prefix.last() == list@[i as int]@);
        if i > 0 {
            result.push_str(separator);
        }
        let ghost so_far = result@;
        result.push_str(list[i].as_str());
        assert(i == 0 ==> result@ =~= prefix[0]);
    }
    assert(texts(list@).take(list@.len() as int) =~= texts(list@));
    result
}

/// A text of `count` spaces.
pub open spec fn blanks(count: nat) -> Seq<char> {
    Seq::new(count, |i: int| ' ')
}

/// A text of `count` spaces.
pub fn spaces(count: usize) -> (text: String)
    ensures
        text@ == blanks(count as nat),
{
    let mut text: String = String::new();
    for i in 0..count
        invariant
            text@ == blanks(i as nat),
    {
        text.push(' ');
        assert(text@ =~= blanks((i + 1) as nat));
    }
    text
}

// ---------------------------------------------------------------------------
// Search
// ---------------------------------------------------------------------------

/// Whether `part` stands in `s` at index `at`.
pub open spec fn stands_at(s: Seq<char>, part: Seq<char>, at: int) -> bool {
    0 <= at && at + part.len() <= s.len() && s.subrange(at, at + part.len()) == part
}

/// Whether `part` stands somewhere in `s`.
pub open spec fn has_part(s: Seq<char>, part: Seq<char>) -> bool {
    exists|at: int| stands_at(s, part, at)
}

pub open spec fn has_prefix(s: Seq<char>, prefix: Seq<char>) -> bool {
    stands_at(s, prefix, 0)
}

pub open spec fn has_suffix(s: Seq<char>, suffix: Seq<char>) -> bool {
    stands_at(s, suffix, s.len() - suffix.len())
}

fn part_at(chars: &Vec<char>, part: &Vec<char>, at: usize) -> (yes: bool)
    requires
        at + part@.len() <= chars@.len(),
    ensures
        yes == stands_at(chars@, part@, at as int),
{
    for i in 0..part.len()
        invariant
            at + part@.len() <= chars.len(),
            forall|j: int| 0 <= j < i ==> part@[j] == chars@[at + j],
    {
        if chars[at + i] != part[i] {
            assert(chars@.subrange(at as int, at + part@.len())[i as int] != part@[i as int]);
            return false;
        }
    }
    assert(chars@.subrange(at as int, at + part@.len()) =~= part@);
    true
}

/// Whether `part` stands somewhere in `text`.
pub fn contains(text: &str, part: &str) -> (yes: bool)
    ensures
        yes == has_part(text@, part@),
{
    let chars = chars_of(text);
    let wanted = chars_of(part);
    if wanted.len() > chars.len() {
        return false;
    }
    let last: usize = chars.len() - wanted.len();
    let mut at: usize = 0;
    while at <= last
        invariant
            chars@ == text@,
            wanted@ == part@,
            last + part@.len() == chars@.len(),
            at <= last + 1,
            forall|i: int| 0 <= i < at ==> !stands_at(chars@, part@, i),
        decreases last + 1 - at,
    {
        if part_at(&chars, &wanted, at) {
            return true;
        }
        if at == last {
            return false;
        }
        at = at + 1;
    }
    false
}

/// Whether `text` begins with `prefix`.
pub fn starts_with(text: &str, prefix: &str) -> (yes: bool)
    ensures
        yes == has_prefix(text@, prefix@),
{
    let chars = chars_of(text);
    let part = chars_of(prefix);
    part.len() <= chars.len() && part_at(&chars, &part, 0)
}

/// What is left of `text` without the suffix, where it has that suffix.
pub fn strip_suffix(text: &str, suffix: &str) -> (rest: Option<String>)
    ensures
        match rest {
            Some(rest) => has_suffix(text@, suffix@) && rest@ == text@.take(
                text@.len() - suffix@.len(),
            ),
            None => !has_suffix(text@, suffix@),
        },
{
    let chars = chars_of(text);
    let part = chars_of(suffix);
    if part.len() <= chars.len() {
        let at: usize = chars.len() - part.len();
        if part_at(&chars, &part, at) {
            let rest = text_between(&chars, 0, at);
            assert(rest@ =~= text@.take(at as int));
            return Some(rest);
        }
    }
    None
}

/// What is left of `text` without the prefix, where it has that prefix.
pub fn strip_prefix(text: &str, prefix: &str) -> (rest: Option<String>)
    ensures
        match rest {
            Some(rest) => has_prefix(text@, prefix@) && rest@ == text@.skip(prefix@.len() as int),
            None => !has_prefix(text@, prefix@),
        },
{
    let chars = chars_of(text);
    let part = chars_of(prefix);
    if part.len() <= chars.len() && part_at(&chars, &part, 0) {
        let rest = text_between(&chars, part.len(), chars.len());
        assert(rest@ =~= text@.skip(prefix@.len() as int));
        return Some(rest);
    }
    None
}

// ---------------------------------------------------------------------------
// Case and order
// ---------------------------------------------------------------------------

/// The lower-case form of an ASCII letter; every other character is its own.
pub open spec fn ascii_lower(c: char) -> char {
    if 'A' <= c <= 'Z' {
        ((c as u32) + 32) as char
    } else {
        c
    }
}

/// Whether two texts differ at most in the case of ASCII letters.
pub open spec fn same_ignoring_ascii_case(left: Seq<char>, right: Seq<char>) -> bool {
    &&& left.len() == right.len()
    &&& forall|i: int|
        0 <= i < left.len() ==> ascii_lower(#[trigger] left[i]) == ascii_lower(right[i])
}

fn lower(c: char) -> (result: char)
    ensures
        result == ascii_lower(c),
{
    if 'A' <= c && c <= 'Z' {
        ((c as u8) + 32u8) as char
    } else {
        c
    }
}

/// Whether two texts differ at most in the case of ASCII letters.
pub fn equal_ignoring_ascii_case(left: &str, right: &str) -> (yes: bool)
    ensures
        yes == same_ignoring_ascii_case(left@, right@),
{
    let a = chars_of(left);
    let b = chars_of(right);
    if a.len() != b.len() {
        return false;
    }
    for i in 0..a.len()
        invariant
            a@ == left@,
            b@ == right@,
            a@.len() == b@.len(),
            forall|j: int| 0 <= j < i ==> ascii_lower(#[trigger] a@[j]) == ascii_lower(b@[j]),
    {
        if lower(a[i]) != lower(b[i]) {
            return false;
        }
    }
    true
}

/// Whether `left` stands before `right`, character by character.
pub open spec fn precedes(left: Seq<char>, right: Seq<char>) -> bool
    decreases left.len(),
{
    if right.len() == 0 {
        false
    } else if left.len() == 0 {
        true
    } else if left[0] == right[0] {
        precedes(left.drop_first(), right.drop_first())
    } else {
        left[0] < right[0]
    }
}

/// Whether `left` stands before `right`, character by character.
pub fn before(left: &str, right: &str) -> (yes: bool)
    ensures
        yes == precedes(left@, right@),
{
    let a = chars_of(left);
    let b = chars_of(right);
    let mut i: usize = 0;
    assert(a@.skip(0) =~= left@);
    assert(b@.skip(0) =~= right@);
    while i < a.len() && i < b.len() && a[i] == b[i]
        invariant
            i <= a@.len(),
            i <= b@.len(),
            precedes(left@, right@) == precedes(a@.skip(i as int), b@.skip(i as int)),
        decreases a@.len() - i,
    {
        assert(a@.skip(i as int).drop_first() =~= a@.skip(i + 1));
        assert(b@.skip(i as int).drop_first() =~= b@.skip(i + 1));
        i = i + 1;
    }
    if i >= b.len() {
        false
    } else if i >= a.len() {
        true
    } else {
        a[i] < b[i]
    }
}

/// No text stands before itself, and of two different texts one stands before
/// the other and not the other way round.
pub proof fn lemma_precedes_total(left: Seq<char>, right: Seq<char>)
    ensures
        left == right ==> !precedes(left, right),
        left != right ==> (precedes(left, right) <==> !precedes(right, left)),
    decreases left.len(),
{
    if left.len() > 0 && right.len() > 0 {
        lemma_precedes_total(left.drop_first(), right.drop_first());
        if left[0] == right[0] {
            assert(left =~= seq![left[0]] + left.drop_first());
            assert(right =~= seq![right[0]] + right.drop_first());
        }
    } else if left.len() == 0 && right.len() == 0 {
        assert(left =~= right);
    }
}

pub proof fn lemma_precedes_transitive(a: Seq<char>, b: Seq<char>, c: Seq<char>)
    requires
        precedes(a, b),
        precedes(b, c),
    ensures
        precedes(a, c),
    decreases a.len(),
{
    if a.len() > 0 && a[0] == b[0] && b[0] == c[0] {
        lemma_precedes_transitive(a.drop_first(), b.drop_first(), c.drop_first());
    }
}

/// The lower-case form of a text under Unicode's case mapping.
pub uninterp spec fn lowercase(s: Seq<char>) -> Seq<char>;

/// Whether a text holds ASCII characters only.
pub open spec fn is_ascii_text(s: Seq<char>) -> bool {
    forall|i: int| 0 <= i < s.len() ==> #[trigger] s[i] <= '\u{7f}'
}

/// `str::to_lowercase`: the result is a function of the text alone, and is
/// named `lowercase`. An ASCII text is mapped letter by letter; Unicode's mapping
/// beyond that is not spelled out.
#[verifier::external_body]
pub(crate) fn lowercased(text: &str) -> (result: String)
    ensures
        result@ == lowercase(text@),
        is_ascii_text(text@) ==> result@ == text@.map_values(|c: char| ascii_lower(c)),
{
    text.to_lowercase()
}

/// A text between double quotes, with what cannot be shown escaped.
pub uninterp spec fn debug_text(s: Seq<char>) -> Seq<char>;

/// `format!` with the text's `Debug` form: the result is a function of the text
/// alone, and is named `debug_text`. The escapes are not spelled out.
#[verifier::external_body]
pub(crate) fn quoted(text: &str) -> (result: String)
    ensures
        result@ == debug_text(text@),
{
    format!("{text:?}")
}

// ---------------------------------------------------------------------------
// Laws
// ---------------------------------------------------------------------------

/// Of the ASCII characters, the tab, the four line breaks and the blank are white
/// space, and no others.
pub proof fn ascii_white_space(c: char)
    requires
        c <= '\u{7f}',
    ensures
        is_space(c) <==> c == '\t' || c == '\n' || c == '\u{b}' || c == '\u{c}' || c == '\r' || c
            == ' ',
{
}

/// Trimming takes white space from the two ends and leaves the rest as it is;
/// what is left begins and ends with something else.
pub proof fn trimming_takes_white_space_only(s: Seq<char>) -> (ends: (Seq<char>, Seq<char>))
    ensures
        is_blank(ends.0),
        is_blank(ends.1),
        s == ends.0 + trimmed(s) + ends.1,
        trimmed(s).len() > 0 ==> !is_space(trimmed(s)[0]) && !is_space(trimmed(s).last()),
{
    let front = lemma_trim_front_splits(s);
    let back = lemma_trim_back_splits(trim_front(s));
    lemma_trim_front(s);
    assert(s =~= front + trimmed(s) + back);
    (front, back)
}

proof fn lemma_trim_front_splits(s: Seq<char>) -> (front: Seq<char>)
    ensures
        is_blank(front),
        s == front + trim_front(s),
    decreases s.len(),
{
    if s.len() > 0 && is_space(s[0]) {
        let rest = lemma_trim_front_splits(s.drop_first());
        let front = seq![s[0]] + rest;
        assert(s =~= seq![s[0]] + s.drop_first());
        assert(front + trim_front(s) =~= seq![s[0]] + (rest + trim_front(s.drop_first())));
        front
    } else {
        assert(s =~= Seq::<char>::empty() + s);
        Seq::empty()
    }
}

proof fn lemma_trim_back_splits(s: Seq<char>) -> (back: Seq<char>)
    ensures
        is_blank(back),
        s == trim_back(s) + back,
        trim_back(s).len() > 0 ==> !is_space(trim_back(s).last()) && trim_back(s)[0] == s[0],
    decreases s.len(),
{
    if s.len() > 0 && is_space(s.last()) {
        let rest = lemma_trim_back_splits(s.drop_last());
        let back = rest.push(s.last());
        assert(s =~= s.drop_last().push(s.last()));
        assert(trim_back(s) + back =~= (trim_back(s.drop_last()) + rest).push(s.last()));
        back
    } else {
        assert(s =~= s + Seq::<char>::empty());
        Seq::empty()
    }
}

/// The pieces of a text, with the separator between each two, are the text.
pub proof fn pieces_join_to_the_text(s: Seq<char>, separator: char)
    ensures
        joined(pieces(s, separator), seq![separator]) == s,
    decreases s.len(),
{
    let all = pieces(s, separator);
    if s.len() == 0 {
        assert(all[0] =~= s);
    } else {
        let shorter = s.drop_last();
        let before = pieces(shorter, separator);
        pieces_join_to_the_text(shorter, separator);
        lemma_pieces_nonempty(shorter, separator);
        if s.last() == separator {
            assert(all.drop_last() =~= before);
            assert(joined(all, seq![separator]) =~= s);
        } else {
            assert(all.drop_last() =~= before.drop_last());
            assert(s =~= shorter.push(s.last()));
            assert(all.last() == before.last().push(s.last()));
            if before.len() == 1 {
                assert(joined(all, seq![separator]) == all.last());
                assert(joined(before, seq![separator]) == before.last());
            } else {
                assert(joined(all, seq![separator]) =~= joined(before, seq![separator]).push(
                    s.last(),
                ));
            }
        }
    }
}

/// The words of a text, one after another, are the text without its white space.
pub proof fn words_hold_all_but_white_space(s: Seq<char>)
    ensures
        word_texts(s).flatten() == s.filter(|c: char| !is_space(c)),
{
    lemma_words_flatten(s);
    let words = closed_words(s);
    words.lemma_flatten_push(open_word(s));
    assert(words.flatten() + Seq::<char>::empty() =~= words.flatten());
    if open_word(s).len() == 0 {
        assert(open_word(s) =~= Seq::<char>::empty());
    }
}

proof fn lemma_words_flatten(s: Seq<char>)
    ensures
        closed_words(s).flatten() + open_word(s) == s.filter(|c: char| !is_space(c)),
    decreases s.len(),
{
    reveal(Seq::filter);
    let solid = |c: char| !is_space(c);
    if s.len() > 0 {
        let shorter = s.drop_last();
        let words = closed_words(shorter);
        lemma_words_flatten(shorter);
        words.lemma_flatten_push(open_word(shorter));
        if is_space(s.last()) {
            assert(open_word(s) =~= Seq::<char>::empty());
            if open_word(shorter).len() == 0 {
                assert(open_word(shorter) =~= Seq::<char>::empty());
            }
            assert(closed_words(s).flatten() + open_word(s) =~= closed_words(shorter).flatten()
                + open_word(shorter));
        } else {
            assert(closed_words(s).flatten() + open_word(s) =~= (words.flatten() + open_word(
                shorter,
            )).push(s.last()));
        }
    } else {
        assert(closed_words(s).flatten() =~= Seq::<char>::empty());
        assert(closed_words(s).flatten() + open_word(s) =~= s.filter(solid));
    }
}

/// One text stands before another where they first differ: there it has the
/// smaller character, or it has ended.
pub proof fn precedes_at_the_first_difference(left: Seq<char>, right: Seq<char>, at: int)
    requires
        0 <= at <= left.len(),
        at <= right.len(),
        left.take(at) == right.take(at),
    ensures
        at == right.len() ==> !precedes(left, right),
        at == left.len() && at < right.len() ==> precedes(left, right),
        at < left.len() && at < right.len() && left[at] < right[at] ==> precedes(left, right),
        at < left.len() && at < right.len() && left[at] > right[at] ==> !precedes(left, right),
    decreases at,
{
    if at > 0 {
        assert(left[0] == left.take(at)[0]);
        assert(right[0] == right.take(at)[0]);
        let shorter = left.drop_first();
        let other = right.drop_first();
        assert(shorter.take(at - 1) =~= left.take(at).drop_first());
        assert(other.take(at - 1) =~= right.take(at).drop_first());
        precedes_at_the_first_difference(shorter, other, at - 1);
    }
}

/// The ASCII capitals are mapped to the small letters, thirty-two places further
/// on; every other character stays.
pub proof fn only_capitals_are_lowered(c: char)
    ensures
        'A' <= c <= 'Z' ==> ascii_lower(c) as u32 == c as u32 + 32 && 'a' <= ascii_lower(c) <= 'z',
        !('A' <= c <= 'Z') ==> ascii_lower(c) == c,
{
}

/// The lines of a text hold neither its line feeds nor the carriage returns
/// right before them. A text without carriage returns is its lines with a line
/// feed between each two, and at most one more at its end.
pub proof fn lines_join_to_the_text(s: Seq<char>)
    requires
        !s.contains('\r'),
    ensures
        joined(line_texts(s), seq!['\n']) == s || s.len() > 0 && s.last() == '\n' && joined(
            line_texts(s),
            seq!['\n'],
        ) == s.drop_last(),
{
    let all = pieces(s, '\n');
    lemma_pieces_nonempty(s, '\n');
    pieces_join_to_the_text(s, '\n');
    let ended = all.drop_last().map_values(|line: Seq<char>| without_return(line));
    assert forall|i: int| 0 <= i < all.len() implies !(#[trigger] all[i]).contains('\r') by {
        lemma_pieces_hold_only(s, '\n', i, '\r');
    }
    assert forall|i: int| 0 <= i < ended.len() implies #[trigger] ended[i] == all[i] by {
        if all[i].len() > 0 {
            assert(all[i].contains(all[i].last()));
        }
    }
    assert(ended =~= all.drop_last());
    if all.last().len() == 0 {
        if all.len() == 1 {
            assert(joined(line_texts(s), seq!['\n']) =~= Seq::<char>::empty());
            assert(s =~= Seq::<char>::empty());
        } else {
            assert(s =~= joined(all.drop_last(), seq!['\n']) + seq!['\n']);
            assert(s.drop_last() =~= joined(all.drop_last(), seq!['\n']));
        }
    } else {
        assert(line_texts(s) =~= all);
    }
}

proof fn lemma_pieces_hold_only(s: Seq<char>, separator: char, index: int, c: char)
    requires
        0 <= index < pieces(s, separator).len(),
        !s.contains(c),
    ensures
        !pieces(s, separator)[index].contains(c),
    decreases s.len(),
{
    if s.len() > 0 {
        let shorter = s.drop_last();
        let before = pieces(shorter, separator);
        lemma_pieces_nonempty(shorter, separator);
        assert(!shorter.contains(c)) by {
            if shorter.contains(c) {
                let i = choose|i: int| 0 <= i < shorter.len() && shorter[i] == c;
                assert(s[i] == c);
            }
        }
        assert(s[s.len() - 1] != c);
        if index < before.len() {
            lemma_pieces_hold_only(shorter, separator, index, c);
            let piece = pieces(s, separator)[index];
            if piece.contains(c) {
                let i = choose|i: int| 0 <= i < piece.len() && piece[i] == c;
                if i < before[index].len() {
                    assert(before[index][i] == c);
                }
            }
        }
    }
}

/// A carriage return counts as part of the line break where a line feed follows.
pub proof fn line_breaks_may_have_a_return(line: Seq<char>)
    ensures
        without_return(line + seq!['\r']) == line,
        !line.contains('\r') ==> without_return(line) == line,
{
    assert((line + seq!['\r']).drop_last() =~= line);
    if line.len() > 0 && line.last() == '\r' {
        assert(line.contains(line.last()));
    }
}

/// A text begins with what was put before the rest, and ends with what was put
/// behind it; it holds each of its parts, and nothing longer than itself.
pub proof fn texts_hold_their_parts(front: Seq<char>, middle: Seq<char>, back: Seq<char>)
    ensures
        has_prefix(front + middle, front),
        has_suffix(middle + back, back),
        has_part(front + middle + back, middle),
        has_part(middle, back) ==> back.len() <= middle.len(),
        has_prefix(middle, front) <==> front.len() <= middle.len() && middle.take(
            front.len() as int,
        ) == front,
        has_suffix(middle, back) <==> back.len() <= middle.len() && middle.skip(
            middle.len() - back.len(),
        ) == back,
{
    assert((front + middle).subrange(0, front.len() as int) =~= front);
    let end = middle + back;
    assert(end.subrange(end.len() - back.len(), end.len() as int) =~= back);
    let whole = front + middle + back;
    assert(whole.subrange(front.len() as int, front.len() + middle.len() as int) =~= middle);
    assert(stands_at(whole, middle, front.len() as int));
    if front.len() <= middle.len() {
        assert(middle.subrange(0, front.len() as int) =~= middle.take(front.len() as int));
    }
    if back.len() <= middle.len() {
        assert(middle.subrange(middle.len() - back.len(), middle.len() as int) =~= middle.skip(
            middle.len() - back.len(),
        ));
    }
}

/// A list of texts with a separator goes on with the separator and the next text;
/// one text alone is itself.
pub proof fn separators_go_between(
    list: Seq<Seq<char>>,
    last: Seq<char>,
    separator: Seq<char>,
)
    ensures
        joined(seq![last], separator) == last,
        list.len() > 0 ==> joined(list.push(last), separator) == joined(list, separator) + separator
            + last,
        joined(Seq::empty(), separator).len() == 0,
{
    assert(list.push(last).drop_last() =~= list);
}

/// Words with a blank between each two are found again, and no others.
pub proof fn words_come_back(words: Seq<Seq<char>>)
    requires
        forall|i: int| 0 <= i < words.len() ==> is_word(#[trigger] words[i]),
    ensures
        word_texts(joined(words, seq![' '])) == words,
    decreases words.len(),
{
    if words.len() == 0 {
        assert(word_texts(Seq::<char>::empty()) =~= words);
    } else {
        let fewer = words.drop_last();
        let last = words.last();
        assert(is_word(last));
        assert forall|i: int| 0 <= i < fewer.len() implies is_word(#[trigger] fewer[i]) by {
            assert(fewer[i] == words[i]);
        }
        words_come_back(fewer);
        let before = joined(fewer, seq![' ']);
        let none = Seq::<char>::empty();
        assert(fewer.push(last) =~= words);
        if fewer.len() == 0 {
            assert(none + last =~= last);
            lemma_append_word(none, last);
            assert(open_word(none) + last =~= last);
            assert(words =~= seq![last]);
            assert(closed_words(none).push(last) =~= words);
        } else {
            let front = before + seq![' '];
            separators_go_between(fewer, last, seq![' ']);
            lemma_append_word(front, last);
            assert(front.drop_last() =~= before);
            assert(front.last() == ' ');
            assert(open_word(front) =~= none);
            assert(none + last =~= last);
            assert(open_word(before).len() > 0) by {
                lemma_joined_ends_in_a_word(fewer);
            }
            assert(closed_words(front) == fewer);
        }
    }
}

proof fn lemma_append_word(s: Seq<char>, tail: Seq<char>)
    requires
        forall|i: int| 0 <= i < tail.len() ==> !is_space(#[trigger] tail[i]),
    ensures
        open_word(s + tail) == open_word(s) + tail,
        closed_words(s + tail) == closed_words(s),
    decreases tail.len(),
{
    if tail.len() == 0 {
        assert(s + tail =~= s);
        assert(open_word(s) + tail =~= open_word(s));
    } else {
        let shorter = tail.drop_last();
        assert forall|i: int| 0 <= i < shorter.len() implies !is_space(#[trigger] shorter[i]) by {
            assert(shorter[i] == tail[i]);
        }
        lemma_append_word(s, shorter);
        assert((s + tail).drop_last() =~= s + shorter);
        assert(!is_space(tail[tail.len() - 1]));
        assert((s + tail).last() == tail.last());
        assert((open_word(s) + shorter).push(tail.last()) =~= open_word(s) + tail);
    }
}

proof fn lemma_joined_ends_in_a_word(words: Seq<Seq<char>>)
    requires
        words.len() > 0,
        is_word(words.last()),
    ensures
        open_word(joined(words, seq![' '])).len() > 0,
{
    let all = joined(words, seq![' ']);
    let last = words.last();
    assert(!is_space(last[last.len() - 1]));
    if words.len() > 1 {
        assert(all == joined(words.drop_last(), seq![' ']) + seq![' '] + last);
    }
    assert(all.last() == last.last());
}

} // verus!
