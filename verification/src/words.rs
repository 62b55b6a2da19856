//! Taking texts apart and putting them together.

use vstd::prelude::*;

verus! {

/// Texts, in the mathematical world.
pub open spec fn strings(list: Seq<String>) -> Seq<Seq<char>> {
    Seq::new(list.len(), |i: int| list[i]@)
}

/// The parts of a text between separators.
pub open spec fn split(text: Seq<char>, sep: char) -> Seq<Seq<char>>
    decreases text.len(),
{
    if text.len() == 0 {
        seq![Seq::empty()]
    } else {
        let before = split(text.drop_last(), sep);
        if text.last() == sep {
            before.push(Seq::empty())
        } else {
            before.drop_last().push(before.last().push(text.last()))
        }
    }
}

/// Parts with separators in between.
pub open spec fn joined(parts: Seq<Seq<char>>, sep: char) -> Seq<char>
    decreases parts.len(),
{
    if parts.len() == 0 {
        Seq::empty()
    } else if parts.len() == 1 {
        parts[0]
    } else {
        joined(parts.drop_last(), sep).push(sep) + parts.last()
    }
}

/// Splits a text.
pub fn split_on(text: &str, sep: char) -> (parts: Vec<String>)
    ensures
        strings(parts@) == split(text@, sep),
{
    let n: usize = text.unicode_len();
    let mut parts: Vec<String> = Vec::new();
    let mut start: usize = 0;
    let mut i: usize = 0;
    proof {
        assert(text@.take(0) =~= Seq::<char>::empty());
        assert(text@.subrange(0, 0) =~= Seq::<char>::empty());
        assert(strings(parts@).push(text@.subrange(0, 0)) =~= split(text@.take(0), sep));
    }
    while i < n
        invariant
            n == text@.len(),
            start <= i <= n,
            split(text@.take(i as int), sep) == strings(parts@).push(
                text@.subrange(start as int, i as int),
            ),
        decreases n - i,
    {
        let c: char = text.get_char(i);
        let ghost before = split(text@.take(i as int), sep);
        proof {
            let longer = text@.take(i + 1);
            assert(longer.drop_last() =~= text@.take(i as int));
            assert(longer.last() == c);
            assert(before.drop_last() =~= strings(parts@));
            assert(text@.subrange(start as int, i as int).push(c) =~= text@.subrange(
                start as int,
                i + 1,
            ));
        }
        if c == sep {
            parts.push(String::from_str(text.substring_char(start, i)));
            start = i + 1;
            proof {
                assert(strings(parts@) =~= before);
                assert(text@.subrange(start as int, i + 1) =~= Seq::<char>::empty());
            }
        }
        i += 1;
    }
    let ghost had = parts@;
    parts.push(String::from_str(text.substring_char(start, n)));
    proof {
        assert(text@.take(n as int) =~= text@);
        assert(strings(parts@) =~= strings(had).push(text@.subrange(start as int, n as int)));
    }
    parts
}

/// Nothing is lost by the separation: the parts, with separators in between, are
/// the text again. There is always a part, and none holds a separator.
pub proof fn law_parts_join_back(text: Seq<char>, sep: char)
    ensures
        joined(split(text, sep), sep) == text,
        split(text, sep).len() > 0,
        forall|i: int|
            0 <= i < split(text, sep).len() ==> !(#[trigger] split(text, sep)[i]).contains(sep),
    decreases text.len(),
{
    let parts = split(text, sep);
    if text.len() == 0 {
        assert(joined(parts, sep) =~= text);
        assert(!parts[0].contains(sep));
    } else {
        let shorter = text.drop_last();
        let before = split(shorter, sep);
        law_parts_join_back(shorter, sep);
        if text.last() == sep {
            assert(parts.drop_last() =~= before);
            assert(joined(parts, sep) =~= shorter.push(sep));
            assert(shorter.push(sep) =~= text);
        } else {
            assert(parts.drop_last() =~= before.drop_last());
            assert(parts.last() =~= before.last().push(text.last()));
            if before.len() == 1 {
                assert(joined(before, sep) == before[0]);
                assert(joined(parts, sep) == parts[0]);
                assert(parts[0] =~= shorter.push(text.last()));
            } else {
                assert(joined(parts, sep) =~= joined(before, sep).push(text.last()));
            }
            assert(joined(parts, sep) =~= text);
            assert forall|i: int| 0 <= i < parts.len() implies !(#[trigger] parts[i]).contains(
                sep,
            ) by {
                if i < before.len() - 1 {
                    assert(parts[i] == before[i]);
                } else {
                    assert(!before[i].contains(sep));
                    let part = parts[i];
                    if part.contains(sep) {
                        let k = choose|k: int| 0 <= k < part.len() && part[k] == sep;
                        assert(k < part.len() - 1);
                        assert(before[i][k] == sep);
                    }
                }
            }
        }
    }
}

/// Puts parts together with separators in between.
pub fn join_with(parts: &Vec<String>, sep: &str) -> (text: String)
    requires
        sep@.len() == 1,
    ensures
        text@ == joined(strings(parts@), sep@[0]),
{
    let mut text: String = String::new();
    let mut i: usize = 0;
    assert(strings(parts@).take(0) =~= Seq::<Seq<char>>::empty());
    while i < parts.len()
        invariant
            i <= parts.len(),
            sep@.len() == 1,
            text@ == joined(strings(parts@).take(i as int), sep@[0]),
        decreases parts.len() - i,
    {
        let ghost before = strings(parts@).take(i as int);
        let ghost after = strings(parts@).take(i + 1);
        proof {
            assert(after.drop_last() =~= before);
            assert(after.last() == parts@[i as int]@);
            assert(sep@ =~= seq![sep@[0]]);
        }
        if i > 0 {
            text.append(sep);
        }
        text.append(parts[i].as_str());
        assert(text@ =~= joined(after, sep@[0]));
        i += 1;
    }
    assert(strings(parts@).take(i as int) =~= strings(parts@));
    text
}

/// The lines of a text: the parts between line feeds, without the carriage return
/// before a line feed, and without an empty part at the end.
pub open spec fn lines(text: Seq<char>) -> Seq<Seq<char>> {
    let parts = split(text, '\n');
    let rest = if parts.last().len() == 0 {
        Seq::empty()
    } else {
        seq![parts.last()]
    };
    Seq::new((parts.len() - 1) as nat, |i: int| without_cr(parts[i])) + rest
}

/// A line without the carriage return at its end.
pub open spec fn without_cr(line: Seq<char>) -> Seq<char> {
    if line.len() > 0 && line.last() == '\r' {
        line.drop_last()
    } else {
        line
    }
}

/// Splits a text into its lines.
pub fn split_lines(text: &str) -> (list: Vec<String>)
    ensures
        strings(list@) == lines(text@),
{
    let mut list: Vec<String> = Vec::new();
    let parts: Vec<String> = split_on(text, '\n');
    let ghost all = split(text@, '\n');
    proof {
        law_parts_join_back(text@, '\n');
        assert(strings(parts@).len() == parts.len());
    }
    let last: usize = parts.len() - 1;
    let mut i: usize = 0;
    while i < last
        invariant
            parts.len() > 0,
            last == parts.len() - 1,
            i <= last,
            all == strings(parts@),
            strings(list@) == Seq::new(i as nat, |k: int| without_cr(all[k])),
        decreases last - i,
    {
        let line: &str = parts[i].as_str();
        assert(line@ == all[i as int]);
        let n: usize = line.unicode_len();
        let ghost had = list@;
        if n > 0 && line.get_char(n - 1) == '\r' {
            assert(line@.subrange(0, n - 1) =~= line@.drop_last());
            list.push(String::from_str(line.substring_char(0, n - 1)));
        } else {
            list.push(String::from_str(line));
        }
        assert(strings(list@) =~= strings(had).push(without_cr(all[i as int])));
        assert(strings(list@) =~= Seq::new((i + 1) as nat, |k: int| without_cr(all[k])));
        i += 1;
    }
    let line: &str = parts[last].as_str();
    let ghost had = list@;
    if line.unicode_len() > 0 {
        list.push(String::from_str(line));
        assert(strings(list@) =~= strings(had).push(line@));
    }
    assert(strings(list@) =~= lines(text@));
    list
}

/// Whether a character is white space, as Unicode has it.
pub open spec fn spec_is_white(c: char) -> bool {
    ||| '\u{9}' <= c <= '\u{d}'
    ||| c == ' '
    ||| c == '\u{85}'
    ||| c == '\u{a0}'
    ||| c == '\u{1680}'
    ||| '\u{2000}' <= c <= '\u{200a}'
    ||| c == '\u{2028}'
    ||| c == '\u{2029}'
    ||| c == '\u{202f}'
    ||| c == '\u{205f}'
    ||| c == '\u{3000}'
}

#[verifier::when_used_as_spec(spec_is_white)]
pub fn is_white(c: char) -> (yes: bool)
    ensures
        yes == spec_is_white(c),
{
    ('\u{9}' <= c && c <= '\u{d}') || c == ' ' || c == '\u{85}' || c == '\u{a0}' || c == '\u{1680}'
        || ('\u{2000}' <= c && c <= '\u{200a}') || c == '\u{2028}' || c == '\u{2029}' || c
        == '\u{202f}' || c == '\u{205f}' || c == '\u{3000}'
}

/// The words of a text, and the word that is open at its end.
pub open spec fn words_and_rest(text: Seq<char>) -> (Seq<Seq<char>>, Seq<char>)
    decreases text.len(),
{
    if text.len() == 0 {
        (Seq::empty(), Seq::empty())
    } else {
        let (words, rest) = words_and_rest(text.drop_last());
        if !is_white(text.last()) {
            (words, rest.push(text.last()))
        } else if rest.len() > 0 {
            (words.push(rest), Seq::empty())
        } else {
            (words, rest)
        }
    }
}

/// The words of a text: what is left when white space is taken out.
pub open spec fn words(text: Seq<char>) -> Seq<Seq<char>> {
    let (words, rest) = words_and_rest(text);
    if rest.len() > 0 {
        words.push(rest)
    } else {
        words
    }
}

/// Splits a text into its words.
pub fn split_words(text: &str) -> (list: Vec<String>)
    ensures
        strings(list@) == words(text@),
{
    let n: usize = text.unicode_len();
    let mut list: Vec<String> = Vec::new();
    let mut start: usize = 0;
    let mut i: usize = 0;
    proof {
        assert(text@.take(0) =~= Seq::<char>::empty());
        assert(text@.subrange(0, 0) =~= Seq::<char>::empty());
        assert(strings(list@) =~= Seq::<Seq<char>>::empty());
    }
    while i < n
        invariant
            n == text@.len(),
            start <= i <= n,
            words_and_rest(text@.take(i as int)) == (
                strings(list@),
                text@.subrange(start as int, i as int),
            ),
        decreases n - i,
    {
        let c: char = text.get_char(i);
        proof {
            let longer = text@.take(i + 1);
            assert(longer.drop_last() =~= text@.take(i as int));
            assert(longer.last() == c);
            assert(text@.subrange(start as int, i as int).push(c) =~= text@.subrange(
                start as int,
                i + 1,
            ));
        }
        if is_white(c) {
            let ghost had = list@;
            if start < i {
                list.push(String::from_str(text.substring_char(start, i)));
                assert(strings(list@) =~= strings(had).push(
                    text@.subrange(start as int, i as int),
                ));
            }
            start = i + 1;
            assert(text@.subrange(start as int, i + 1) =~= Seq::<char>::empty());
            assert(text@.subrange(i as int, i as int) =~= Seq::<char>::empty());
        }
        i += 1;
    }
    assert(text@.take(n as int) =~= text@);
    if start < n {
        let ghost had = list@;
        list.push(String::from_str(text.substring_char(start, n)));
        assert(strings(list@) =~= strings(had).push(text@.subrange(start as int, n as int)));
    }
    list
}

/// A text that is not empty and holds no white space.
pub open spec fn is_solid(word: Seq<char>) -> bool {
    word.len() > 0 && forall|k: int| 0 <= k < word.len() ==> !is_white(#[trigger] word[k])
}

/// No word is empty, and none holds white space.
pub proof fn law_words_are_solid(text: Seq<char>)
    ensures
        forall|i: int| 0 <= i < words(text).len() ==> is_solid(#[trigger] words(text)[i]),
{
    lemma_words_are_solid(text);
    let (done, rest) = words_and_rest(text);
    assert forall|i: int| 0 <= i < words(text).len() implies is_solid(
        #[trigger] words(text)[i],
    ) by {
        if i < done.len() {
            assert(words(text)[i] == done[i]);
        }
    }
}

spec fn all_solid(words: Seq<Seq<char>>) -> bool {
    forall|i: int| 0 <= i < words.len() ==> is_solid(#[trigger] words[i])
}

proof fn lemma_words_are_solid(text: Seq<char>)
    ensures
        all_solid(words_and_rest(text).0),
        words_and_rest(text).1.len() > 0 ==> is_solid(words_and_rest(text).1),
    decreases text.len(),
{
    if text.len() > 0 {
        let (done, rest) = words_and_rest(text.drop_last());
        lemma_words_are_solid(text.drop_last());
        if !is_white(text.last()) {
            let longer = rest.push(text.last());
            assert forall|k: int| 0 <= k < longer.len() implies !is_white(#[trigger] longer[k]) by {
                if k < rest.len() {
                    assert(longer[k] == rest[k]);
                }
            }
        } else if rest.len() > 0 {
            let more = done.push(rest);
            assert forall|i: int| 0 <= i < more.len() implies is_solid(#[trigger] more[i]) by {
                if i < done.len() {
                    assert(more[i] == done[i]);
                }
            }
        }
    }
}

/// A decimal digit, as a character.
pub open spec fn digit(d: nat) -> char {
    (48 + d) as char
}

/// A number in decimal digits, without leading zeroes.
pub open spec fn decimal(n: nat) -> Seq<char>
    decreases n,
{
    if n < 10 {
        seq![digit(n)]
    } else {
        decimal(n / 10).push(digit(n % 10))
    }
}

fn digit_text(d: u64) -> (text: &'static str)
    requires
        d < 10,
    ensures
        text@ == seq![digit(d as nat)],
{
    proof {
        reveal_strlit("0");
        reveal_strlit("1");
        reveal_strlit("2");
        reveal_strlit("3");
        reveal_strlit("4");
        reveal_strlit("5");
        reveal_strlit("6");
        reveal_strlit("7");
        reveal_strlit("8");
        reveal_strlit("9");
    }
    let text: &'static str = match d {
        0 => "0",
        1 => "1",
        2 => "2",
        3 => "3",
        4 => "4",
        5 => "5",
        6 => "6",
        7 => "7",
        8 => "8",
        _ => "9",
    };
    assert(text@ =~= seq![digit(d as nat)]);
    text
}

/// Writes a number in decimal digits.
pub fn to_decimal(n: u64) -> (text: String)
    ensures
        text@ == decimal(n as nat),
    decreases n,
{
    if n < 10 {
        String::from_str(digit_text(n))
    } else {
        let mut text: String = to_decimal(n / 10);
        text.append(digit_text(n % 10));
        assert(text@ =~= decimal(n as nat));
        text
    }
}

/// Puts two texts together.
pub fn cat(a: &str, b: &str) -> (text: String)
    ensures
        text@ == a@ + b@,
{
    let mut text: String = String::from_str(a);
    text.append(b);
    text
}

/// Puts three texts together.
pub fn cat3(a: &str, b: &str, c: &str) -> (text: String)
    ensures
        text@ == a@ + b@ + c@,
{
    let mut text: String = cat(a, b);
    text.append(c);
    text
}

/// Whether two texts are the same.
pub fn same_text(a: &str, b: &str) -> (same: bool)
    ensures
        same == (a@ == b@),
{
    let n: usize = a.unicode_len();
    if b.unicode_len() != n {
        return false;
    }
    let mut i: usize = 0;
    while i < n
        invariant
            n == a@.len() == b@.len(),
            i <= n,
            forall|k: int| 0 <= k < i ==> a@[k] == b@[k],
        decreases n - i,
    {
        if a.get_char(i) != b.get_char(i) {
            return false;
        }
        i += 1;
    }
    assert(a@ =~= b@);
    true
}

/// Whether `list` holds `text`.
pub fn holds(list: &Vec<String>, text: &str) -> (found: bool)
    ensures
        found == strings(list@).contains(text@),
{
    let mut i: usize = 0;
    while i < list.len()
        invariant
            i <= list.len(),
            forall|k: int| 0 <= k < i ==> (#[trigger] list@[k])@ != text@,
        decreases list.len() - i,
    {
        if same_text(list[i].as_str(), text) {
            assert(strings(list@)[i as int] == text@);
            return true;
        }
        i += 1;
    }
    assert forall|k: int| 0 <= k < strings(list@).len() implies strings(list@)[k] != text@ by {
        assert(list@[k]@ != text@);
    }
    false
}

/// A text without the part in front of it, if it starts with that part.
pub open spec fn stripped(text: Seq<char>, prefix: Seq<char>) -> Option<Seq<char>> {
    if prefix.len() <= text.len() && text.take(prefix.len() as int) == prefix {
        Some(text.skip(prefix.len() as int))
    } else {
        None
    }
}

/// Takes `prefix` off a text.
pub fn strip_prefix<'a>(text: &'a str, prefix: &str) -> (rest: Option<&'a str>)
    ensures
        match rest {
            Some(r) => stripped(text@, prefix@) == Some(r@),
            None => stripped(text@, prefix@) is None,
        },
{
    let n: usize = text.unicode_len();
    let m: usize = prefix.unicode_len();
    if m > n {
        return None;
    }
    assert(text@.subrange(0, m as int) =~= text@.take(m as int));
    if !same_text(text.substring_char(0, m), prefix) {
        return None;
    }
    assert(text@.subrange(m as int, n as int) =~= text@.skip(m as int));
    Some(text.substring_char(m, n))
}

/// Whether a text ends with `suffix`.
pub open spec fn ended_by(text: Seq<char>, suffix: Seq<char>) -> bool {
    suffix.len() <= text.len() && text.skip(text.len() - suffix.len()) == suffix
}

/// Whether a text ends with `suffix`.
pub fn has_ending(text: &str, suffix: &str) -> (yes: bool)
    ensures
        yes == ended_by(text@, suffix@),
{
    let n: usize = text.unicode_len();
    let m: usize = suffix.unicode_len();
    if m > n {
        return false;
    }
    assert(text@.subrange(n - m, n as int) =~= text@.skip(n - m));
    same_text(text.substring_char(n - m, n), suffix)
}

proof fn lemma_split_more(text: Seq<char>, word: Seq<char>, sep: char)
    requires
        !word.contains(sep),
    ensures
        split(text + word, sep) == split(text, sep).drop_last().push(
            split(text, sep).last() + word,
        ),
    decreases word.len(),
{
    let parts = split(text, sep);
    law_parts_join_back(text, sep);
    if word.len() == 0 {
        assert(text + word =~= text);
        assert(parts.last() + word =~= parts.last());
        assert(parts.drop_last().push(parts.last()) =~= parts);
    } else {
        let shorter = word.drop_last();
        assert(!shorter.contains(sep)) by {
            assert forall|i: int| 0 <= i < shorter.len() implies shorter[i] != sep by {
                assert(word[i] == shorter[i]);
                assert(word.contains(word[i]));
            }
        }
        assert(word.contains(word[word.len() - 1]));
        lemma_split_more(text, shorter, sep);
        assert((text + word).drop_last() =~= text + shorter);
        assert((text + word).last() == word.last());
        let before = split(text + shorter, sep);
        assert(before.drop_last() =~= parts.drop_last());
        assert(before.last().push(word.last()) =~= parts.last() + word);
    }
}

/// The parts of a text are what it was put together of: parts that hold no separator come
/// back, with nothing added and nothing lost.
pub proof fn law_joined_parts_come_back(parts: Seq<Seq<char>>, sep: char)
    requires
        parts.len() > 0,
        forall|i: int| 0 <= i < parts.len() ==> !(#[trigger] parts[i]).contains(sep),
    ensures
        split(joined(parts, sep), sep) == parts,
    decreases parts.len(),
{
    let text = joined(parts, sep);
    if parts.len() == 1 {
        let none = Seq::<char>::empty();
        lemma_split_more(none, parts[0], sep);
        assert(none + parts[0] =~= parts[0]);
        assert(split(none, sep) =~= seq![none]);
        assert(split(text, sep) =~= parts);
    } else {
        let before = parts.drop_last();
        assert forall|i: int| 0 <= i < before.len() implies !(#[trigger] before[i]).contains(
            sep,
        ) by {
            assert(before[i] == parts[i]);
        }
        law_joined_parts_come_back(before, sep);
        let start = joined(before, sep).push(sep);
        assert(start.drop_last() =~= joined(before, sep));
        assert(split(start, sep) =~= before.push(Seq::empty()));
        assert(!parts[parts.len() - 1].contains(sep));
        lemma_split_more(start, parts.last(), sep);
        assert(text =~= start + parts.last());
        assert(split(text, sep) =~= parts);
    }
}

/// The lines of a text are what was written, whichever way they end.
pub proof fn law_lines_come_back(list: Seq<Seq<char>>, with_cr: Seq<bool>)
    requires
        with_cr.len() == list.len(),
        forall|i: int|
            0 <= i < list.len() ==> !(#[trigger] list[i]).contains('\n') && (list[i].len() > 0
                ==> list[i].last() != '\r'),
    ensures
        lines(
            joined(
                Seq::new(
                    list.len(),
                    |i: int|
                        if with_cr[i] {
                            list[i].push('\r')
                        } else {
                            list[i]
                        },
                ).push(Seq::empty()),
                '\n',
            ),
        ) == list,
{
    let written = Seq::new(
        list.len(),
        |i: int|
            if with_cr[i] {
                list[i].push('\r')
            } else {
                list[i]
            },
    );
    let parts = written.push(Seq::empty());
    assert forall|i: int| 0 <= i < parts.len() implies !(#[trigger] parts[i]).contains('\n') by {
        if i < list.len() {
            assert(!list[i].contains('\n'));
            assert forall|k: int| 0 <= k < parts[i].len() implies parts[i][k] != '\n' by {
                if k < list[i].len() {
                    assert(list[i].contains(list[i][k]));
                }
            }
        }
    }
    law_joined_parts_come_back(parts, '\n');
    assert forall|i: int| 0 <= i < list.len() implies without_cr(parts[i]) == #[trigger] list[i] by {
        assert(!list[i].contains('\n'));
        if with_cr[i] {
            assert(parts[i].drop_last() =~= list[i]);
        }
    }
    assert(lines(joined(parts, '\n')) =~= list);
}

proof fn lemma_word(text: Seq<char>, word: Seq<char>)
    requires
        words_and_rest(text).1.len() == 0,
        forall|k: int| 0 <= k < word.len() ==> !is_white(#[trigger] word[k]),
    ensures
        words_and_rest(text + word).0 == words_and_rest(text).0,
        words_and_rest(text + word).1 == word,
    decreases word.len(),
{
    if word.len() == 0 {
        assert(text + word =~= text);
        assert(words_and_rest(text).1 =~= word);
    } else {
        let shorter = word.drop_last();
        assert forall|k: int| 0 <= k < shorter.len() implies !is_white(#[trigger] shorter[k]) by {
            assert(shorter[k] == word[k]);
        }
        lemma_word(text, shorter);
        assert((text + word).drop_last() =~= text + shorter);
        assert((text + word).last() == word[word.len() - 1]);
        assert(words_and_rest(text + word).1 =~= word);
    }
}

/// The words of a text are what was written: words with blanks in between come back.
pub proof fn law_words_come_back(list: Seq<Seq<char>>)
    requires
        list.len() > 0,
        forall|i: int| 0 <= i < list.len() ==> is_solid(#[trigger] list[i]),
    ensures
        words(joined(list, ' ')) == list,
        words_and_rest(joined(list, ' ')).0 == list.drop_last(),
        words_and_rest(joined(list, ' ')).1 == list.last(),
    decreases list.len(),
{
    let text = joined(list, ' ');
    assert(is_solid(list[list.len() - 1]));
    if list.len() == 1 {
        let none = Seq::<char>::empty();
        lemma_word(none, list[0]);
        assert(none + list[0] =~= list[0]);
        assert(list.drop_last() =~= Seq::<Seq<char>>::empty());
    } else {
        let before = list.drop_last();
        assert forall|i: int| 0 <= i < before.len() implies is_solid(#[trigger] before[i]) by {
            assert(before[i] == list[i]);
        }
        law_words_come_back(before);
        let start = joined(before, ' ').push(' ');
        assert(start.drop_last() =~= joined(before, ' '));
        assert(before.drop_last().push(before.last()) =~= before);
        assert(is_solid(list[list.len() - 2]));
        assert(before.last() == list[list.len() - 2]);
        lemma_word(start, list.last());
        assert(text =~= start + list.last());
    }
    assert(words(text) =~= list);
}

} // verus!
