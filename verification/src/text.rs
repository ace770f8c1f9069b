//! Text: words, trimming, joining and decimal numerals, over sequences of characters.
use vstd::prelude::*;

verus! {

/// The Unicode property `White_Space`.
pub open spec fn white_space(c: char) -> bool {
    let n = c as u32;
    ||| 0x9 <= n <= 0xd
    ||| n == 0x20
    ||| n == 0x85
    ||| n == 0xa0
    ||| n == 0x1680
    ||| 0x2000 <= n <= 0x200a
    ||| n == 0x2028
    ||| n == 0x2029
    ||| n == 0x202f
    ||| n == 0x205f
    ||| n == 0x3000
}

/// `word` stands in `text` at position `at` as a whole word: it is not empty, holds no white
/// space, and has white space or an end of the text on either side.
pub open spec fn word_at(text: Seq<char>, word: Seq<char>, at: int) -> bool {
    &&& 0 < word.len()
    &&& 0 <= at
    &&& at + word.len() <= text.len()
    &&& text.subrange(at, at + word.len()) == word
    &&& forall|i: int| 0 <= i < word.len() ==> !white_space(#[trigger] word[i])
    &&& at == 0 || white_space(text[at - 1])
    &&& at + word.len() == text.len() || white_space(text[at + word.len()])
}

/// `word` is one of the words that white space splits `text` into.
pub open spec fn has_word(text: Seq<char>, word: Seq<char>) -> bool {
    exists|at: int| word_at(text, word, at)
}

/// `text` without the white space that it starts with.
pub open spec fn trimmed_start(text: Seq<char>) -> Seq<char>
    decreases text.len(),
{
    if text.len() > 0 && white_space(text.first()) {
        trimmed_start(text.drop_first())
    } else {
        text
    }
}

/// `text` without the white space that it ends with.
pub open spec fn trimmed_end(text: Seq<char>) -> Seq<char>
    decreases text.len(),
{
    if text.len() > 0 && white_space(text.last()) {
        trimmed_end(text.drop_last())
    } else {
        text
    }
}

/// `text` without the white space at either end.
pub open spec fn trimmed(text: Seq<char>) -> Seq<char> {
    trimmed_end(trimmed_start(text))
}

/// The parts in order, with `separator` between any two neighbours.
pub open spec fn joined(parts: Seq<Seq<char>>, separator: Seq<char>) -> Seq<char>
    decreases parts.len(),
{
    if parts.len() == 0 {
        Seq::empty()
    } else if parts.len() == 1 {
        parts[0]
    } else {
        joined(parts.drop_last(), separator) + separator + parts.last()
    }
}

/// What each string of a list holds.
pub open spec fn views(strings: Seq<String>) -> Seq<Seq<char>> {
    Seq::new(strings.len(), |i: int| strings[i]@)
}

/// The decimal digit for a number below ten.
pub open spec fn digit(n: nat) -> char {
    if n == 0 {
        '0'
    } else if n == 1 {
        '1'
    } else if n == 2 {
        '2'
    } else if n == 3 {
        '3'
    } else if n == 4 {
        '4'
    } else if n == 5 {
        '5'
    } else if n == 6 {
        '6'
    } else if n == 7 {
        '7'
    } else if n == 8 {
        '8'
    } else {
        '9'
    }
}

/// The decimal numeral of a number, without leading zeros.
pub open spec fn numeral(n: nat) -> Seq<char>
    decreases n,
{
    if n < 10 {
        seq![digit(n)]
    } else {
        numeral(n / 10).push(digit(n % 10))
    }
}

/// What `str::to_uppercase` makes of a text.
pub uninterp spec fn uppercase(text: Seq<char>) -> Seq<char>;

/// Calls `str::to_uppercase` of the standard library. Its result is the Unicode uppercase
/// equivalent of the text and depends on the text alone; which characters that gives is left to
/// the name `uppercase`.
#[verifier::external_body]
pub(crate) fn to_uppercase(text: &str) -> (upper: String)
    ensures
        upper@ == uppercase(text@),
{
    text.to_uppercase()
}

/// Whether a character has the Unicode property `White_Space`.
pub fn is_white_space(c: char) -> (yes: bool)
    ensures
        yes == white_space(c),
{
    let n: u32 = c as u32;
    (0x9 <= n && n <= 0xd) || n == 0x20 || n == 0x85 || n == 0xa0 || n == 0x1680 || (0x2000 <= n
        && n <= 0x200a) || n == 0x2028 || n == 0x2029 || n == 0x202f || n == 0x205f || n == 0x3000
}

/// The characters of a text.
pub(crate) fn characters(text: &str) -> (chars: Vec<char>)
    ensures
        chars@ == text@,
{
    let mut chars: Vec<char> = Vec::new();
    for c in it: text.chars()
        invariant
            chars@ == text@.take(it.index() as int),
            it.seq() == text@,
    {
        chars.push(c);
    }
    chars
}

/// Whether `chars` matches `word` from position `at` on.
fn matches_at(chars: &Vec<char>, word: &Vec<char>, at: usize) -> (yes: bool)
    requires
        at + word@.len() <= chars@.len(),
    ensures
        yes == (chars@.subrange(at as int, at + word@.len()) == word@),
{
    assert(chars.len() == chars@.len());
    for i in 0..word.len()
        invariant
            chars@.len() <= usize::MAX,
            at + word@.len() <= chars@.len(),
            forall|j: int| 0 <= j < i ==> chars@[at + j] == word@[j],
    {
        if chars[at + i] != word[i] {
            assert(chars@.subrange(at as int, at + word@.len())[i as int] != word@[i as int]);
            return false;
        }
    }
    assert(chars@.subrange(at as int, at + word@.len()) =~= word@);
    true
}

/// Whether `word` is one of the words that white space splits `text` into.
pub fn contains_word(text: &str, word: &str) -> (yes: bool)
    ensures
        yes == has_word(text@, word@),
{
    let chars = characters(text);
    let letters = characters(word);
    for i in 0..letters.len()
        invariant
            letters@ == word@,
            forall|j: int| 0 <= j < i ==> !white_space(#[trigger] letters@[j]),
    {
        if is_white_space(letters[i]) {
            assert(white_space(word@[i as int]));
            return false;
        }
    }
    if letters.len() == 0 || letters.len() > chars.len() {
        return false;
    }
    let last: usize = chars.len() - letters.len();
    let mut at: usize = 0;
    while at <= last
        invariant
            chars@ == text@,
            letters@ == word@,
            at <= last + 1,
            0 < letters@.len(),
            last + letters@.len() == chars@.len(),
            chars@.len() <= usize::MAX,
            forall|j: int| 0 <= j < letters@.len() ==> !white_space(#[trigger] letters@[j]),
            forall|j: int| 0 <= j < at ==> !word_at(chars@, letters@, j),
        decreases last + 1 - at,
    {
        let end: usize = at + letters.len();
        if (at == 0 || is_white_space(chars[at - 1])) && (end == chars.len() || is_white_space(
            chars[end],
        )) && matches_at(&chars, &letters, at) {
            assert(word_at(chars@, letters@, at as int));
            return true;
        }
        at = at + 1;
    }
    false
}

/// A text without the white space at either end.
pub fn trim(text: &str) -> (res: String)
    ensures
        res@ == trimmed(text@),
{
    let chars = characters(text);
    let mut from: usize = 0;
    assert(text@.skip(0) =~= text@);
    while from < chars.len() && is_white_space(chars[from])
        invariant
            chars@ == text@,
            from <= chars@.len(),
            trimmed_start(text@.skip(from as int)) == trimmed_start(text@),
        decreases chars@.len() - from,
    {
        assert(text@.skip(from as int).drop_first() =~= text@.skip(from + 1));
        from = from + 1;
    }
    let ghost started = text@.skip(from as int);
    assert(started == trimmed_start(text@));
    let mut to: usize = chars.len();
    assert(started.take(to - from) =~= started);
    while to > from && is_white_space(chars[to - 1])
        invariant
            chars@ == text@,
            from <= to <= chars@.len(),
            started == text@.skip(from as int),
            trimmed_end(started.take(to - from)) == trimmed_end(started),
        decreases to - from,
    {
        assert(started.take(to - from).last() == chars@[to - 1]);
        assert(started.take(to - from).drop_last() =~= started.take(to - 1 - from));
        to = to - 1;
    }
    assert(started.take(to - from) =~= text@.subrange(from as int, to as int));
    if to > from {
        assert(started.take(to - from).last() == chars@[to - 1]);
    }
    text.substring_char(from, to).to_string()
}

/// The parts in order, with `separator` between any two neighbours.
pub fn join(parts: &Vec<String>, separator: &str) -> (res: String)
    ensures
        res@ == joined(views(parts@), separator@),
{
    let mut res = String::new();
    let ghost all = views(parts@);
    for i in 0..parts.len()
        invariant
            all == views(parts@),
            res@ == joined(all.take(i as int), separator@),
    {
        let ghost next = all.take(i + 1);
        assert(next.drop_last() =~= all.take(i as int));
        assert(next.last() == parts@[i as int]@);
        if i > 0 {
            res.append(separator);
            res.append(parts[i].as_str());
        } else {
            res = parts[i].clone();
        }
    }
    assert(all.take(parts@.len() as int) =~= all);
    res
}

/// The decimal digit for a number below ten, as a text of one character.
fn digit_text(n: u64) -> (res: &'static str)
    requires
        n < 10,
    ensures
        res@ == seq![digit(n as nat)],
{
    proof {
        reveal_strlit("0");
        reveal_strlit("1");
        reveal_strlit("2");
        reveal_strlit("3");
        reveal_strlit("4");
        reveal_strlit("5");
        reveal_strlit("6");
        reveal_strlit("7");
        reveal_strlit("8");
        reveal_strlit("9");
    }
    let res: &'static str = match n {
        0 => "0",
        1 => "1",
        2 => "2",
        3 => "3",
        4 => "4",
        5 => "5",
        6 => "6",
        7 => "7",
        8 => "8",
        _ => "9",
    };
    assert(res@ =~= seq![digit(n as nat)]);
    res
}

/// The decimal numeral of a number.
pub fn decimal(n: u64) -> (res: String)
    ensures
        res@ == numeral(n as nat),
    decreases n,
{
    if n < 10 {
        digit_text(n).to_string()
    } else {
        let mut res = decimal(n / 10);
        res.append(digit_text(n % 10));
        assert(res@ =~= numeral((n / 10) as nat).push(digit((n % 10) as nat)));
        res
    }
}

/// What is left of a text by trimming is a part of it, and neither starts nor ends with white
/// space; only white space was taken off.
pub proof fn trimming_takes_white_space_off(text: Seq<char>)
    ensures
        trimmed(text).len() > 0 ==> !white_space(trimmed(text).first()) && !white_space(
            trimmed(text).last(),
        ),
        exists|from: int, to: int|
            0 <= from <= to <= text.len() && trimmed(text) == #[trigger] text.subrange(from, to) && (
            forall|i: int|
                (0 <= i < from || to <= i < text.len()) ==> white_space(#[trigger] text[i])),
{
    let from = lemma_trimmed_start(text);
    let to = from + lemma_trimmed_end(trimmed_start(text));
    assert(trimmed(text) =~= text.subrange(from, to));
    assert forall|i: int| (0 <= i < from || to <= i < text.len()) implies white_space(
        #[trigger] text[i],
    ) by {
        if i >= to {
            assert(trimmed_start(text)[i - from] == text[i]);
        }
    }
}

/// Trimming a second time changes nothing.
pub proof fn trimming_is_idempotent(text: Seq<char>)
    ensures
        trimmed(trimmed(text)) == trimmed(text),
{
    trimming_takes_white_space_off(text);
}

proof fn lemma_trimmed_start(text: Seq<char>) -> (from: int)
    ensures
        0 <= from <= text.len(),
        trimmed_start(text) == text.skip(from),
        forall|i: int| 0 <= i < from ==> white_space(#[trigger] text[i]),
        from < text.len() ==> !white_space(text[from]),
    decreases text.len(),
{
    if text.len() > 0 && white_space(text.first()) {
        let rest = lemma_trimmed_start(text.drop_first());
        assert(text.drop_first().skip(rest) =~= text.skip(rest + 1));
        assert forall|i: int| 0 <= i < rest + 1 implies white_space(#[trigger] text[i]) by {
            if i > 0 {
                assert(text.drop_first()[i - 1] == text[i]);
            }
        }
        rest + 1
    } else {
        assert(text.skip(0) =~= text);
        0
    }
}

proof fn lemma_trimmed_end(text: Seq<char>) -> (to: int)
    ensures
        0 <= to <= text.len(),
        trimmed_end(text) == text.take(to),
        forall|i: int| to <= i < text.len() ==> white_space(#[trigger] text[i]),
        to > 0 ==> !white_space(text[to - 1]),
    decreases text.len(),
{
    if text.len() > 0 && white_space(text.last()) {
        let front = text.drop_last();
        let to = lemma_trimmed_end(front);
        assert(front.take(to) =~= text.take(to));
        assert forall|i: int| to <= i < text.len() implies white_space(#[trigger] text[i]) by {
            if i < front.len() {
                assert(front[i] == text[i]);
            }
        }
        to
    } else {
        assert(text.take(text.len() as int) =~= text);
        text.len() as int
    }
}

/// A numeral reads back as its number: it is made of decimal digits, which come to the number when
/// each is added to ten times what those before it come to, and it starts with a zero only where it
/// is that of zero.
pub proof fn numerals_read_back(n: nat, value: spec_fn(int, char) -> int)
    requires
        forall|before: int, c: char| #[trigger] value(before, c) == 10 * before + (c as int - '0' as int),
    ensures
        numeral(n).len() > 0,
        forall|i: int|
            0 <= i < numeral(n).len() ==> '0' as int <= (#[trigger] numeral(n)[i]) as int <= '9' as int,
        numeral(n).fold_left(0int, value) == n,
        n > 0 ==> numeral(n)[0] != '0',
    decreases n,
{
    if n < 10 {
        assert(numeral(n).drop_last() =~= Seq::empty());
        assert(Seq::<char>::empty().fold_left(0int, value) == 0);
        assert(numeral(n).fold_left(0int, value) == value(0, digit(n)));
    } else {
        numerals_read_back(n / 10, value);
        let front = numeral(n / 10);
        assert(numeral(n).drop_last() =~= front);
        assert forall|i: int| 0 <= i < numeral(n).len() implies '0' as int <= (
        #[trigger] numeral(n)[i]) as int <= '9' as int by {
            if i < front.len() {
                assert(front[i] == numeral(n)[i]);
            }
        }
        assert(numeral(n)[0] == front[0]);
        assert(numeral(n).fold_left(0int, value) == value((n / 10) as int, digit(n % 10)));
    }
}

/// Different numbers have different numerals.
pub proof fn numerals_tell_numbers_apart(n: nat, m: nat)
    requires
        numeral(n) == numeral(m),
    ensures
        n == m,
{
    let value = |before: int, c: char| 10 * before + (c as int - '0' as int);
    numerals_read_back(n, value);
    numerals_read_back(m, value);
}

/// Parts that are joined stand in what they are joined to in order, the first at the start, the
/// last at the end, and nothing but the separator between one and the next. The positions at which
/// they stand are the result.
pub proof fn joined_parts_stand_in_order(parts: Seq<Seq<char>>, separator: Seq<char>) -> (at: Seq<int>)
    requires
        parts.len() > 0,
    ensures
        at.len() == parts.len(),
        at[0] == 0,
        forall|i: int|
            0 <= i < parts.len() ==> 0 <= #[trigger] at[i] && at[i] + parts[i].len() <= joined(
                parts,
                separator,
            ).len() && joined(parts, separator).subrange(at[i], at[i] + parts[i].len()) == parts[i],
        forall|i: int|
            0 <= i < parts.len() - 1 ==> at[i + 1] == #[trigger] at[i] + parts[i].len()
                + separator.len() && joined(parts, separator).subrange(
                at[i] + parts[i].len(),
                at[i] + parts[i].len() + separator.len(),
            ) == separator,
        at.last() + parts.last().len() == joined(parts, separator).len(),
    decreases parts.len(),
{
    let whole = joined(parts, separator);
    if parts.len() == 1 {
        assert(whole.subrange(0, whole.len() as int) =~= whole);
        seq![0int]
    } else {
        let front = parts.drop_last();
        let before = joined(front, separator);
        let at = joined_parts_stand_in_order(front, separator);
        let all = at.push((before.len() + separator.len()) as int);
        let last = parts.len() - 1;
        assert forall|i: int| 0 <= i < parts.len() implies 0 <= #[trigger] all[i] && all[i]
            + parts[i].len() <= whole.len() && whole.subrange(all[i], all[i] + parts[i].len())
            == parts[i] by {
            if i < last {
                assert(front[i] == parts[i]);
                assert(all[i] == at[i]);
                assert(whole.subrange(all[i], all[i] + parts[i].len()) =~= before.subrange(
                    at[i],
                    at[i] + front[i].len(),
                ));
            } else {
                assert(whole.subrange(all[i], all[i] + parts[i].len()) =~= parts[i]);
            }
        }
        assert forall|i: int| 0 <= i < parts.len() - 1 implies all[i + 1] == #[trigger] all[i]
            + parts[i].len() + separator.len() && whole.subrange(
            all[i] + parts[i].len(),
            all[i] + parts[i].len() + separator.len(),
        ) == separator by {
            assert(front[i] == parts[i]);
            assert(all[i] == at[i]);
            if i < last - 1 {
                assert(all[i + 1] == at[i + 1]);
                assert(at[i + 1] + front[i + 1].len() <= before.len());
                assert(whole.subrange(
                    all[i] + parts[i].len(),
                    all[i] + parts[i].len() + separator.len(),
                ) =~= before.subrange(
                    at[i] + front[i].len(),
                    at[i] + front[i].len() + separator.len(),
                ));
            } else {
                assert(whole.subrange(
                    all[i] + parts[i].len(),
                    all[i] + parts[i].len() + separator.len(),
                ) =~= separator);
            }
        }
        all
    }
}

/// Nothing joined is nothing.
pub proof fn nothing_joined_is_empty(separator: Seq<char>)
    ensures
        joined(Seq::empty(), separator).len() == 0,
{
}

/// A text without white space has one word, itself, and no word where it is empty.
pub proof fn a_text_without_white_space_is_its_only_word(text: Seq<char>, word: Seq<char>)
    requires
        forall|i: int| 0 <= i < text.len() ==> !white_space(#[trigger] text[i]),
    ensures
        has_word(text, word) <==> word == text && text.len() > 0,
{
    if has_word(text, word) {
        let at = choose|at: int| word_at(text, word, at);
        if at > 0 {
            assert(white_space(text[at - 1]));
        }
        assert(text.subrange(0, text.len() as int) =~= text);
    }
    if word == text && text.len() > 0 {
        assert(text.subrange(0, text.len() as int) =~= text);
        assert(word_at(text, word, 0));
    }
}

/// The words of two texts with white space between them are the words of the one and those of the
/// other.
pub proof fn white_space_parts_words(front: Seq<char>, space: char, back: Seq<char>, word: Seq<char>)
    requires
        white_space(space),
    ensures
        has_word(front.push(space) + back, word) <==> has_word(front, word) || has_word(
            back,
            word,
        ),
{
    let text = front.push(space) + back;
    let split = front.len() as int;
    assert(text[split] == space);
    if has_word(text, word) {
        let at = choose|at: int| word_at(text, word, at);
        let end = at + word.len();
        if at <= split && split < end {
            assert(text.subrange(at, end)[split - at] == text[split]);
            assert(white_space(word[split - at]));
        }
        if end <= split {
            assert(front.subrange(at, end) =~= text.subrange(at, end));
            assert(word_at(front, word, at));
        } else {
            let moved = at - split - 1;
            assert(back.subrange(moved, moved + word.len()) =~= text.subrange(at, end));
            assert(word_at(back, word, moved));
        }
    }
    if has_word(front, word) {
        let at = choose|at: int| word_at(front, word, at);
        assert(text.subrange(at, at + word.len()) =~= front.subrange(at, at + word.len()));
        assert(word_at(text, word, at));
    }
    if has_word(back, word) {
        let at = choose|at: int| word_at(back, word, at);
        let moved = at + split + 1;
        assert(text.subrange(moved, moved + word.len()) =~= back.subrange(at, at + word.len()));
        assert(word_at(text, word, moved));
    }
}

/// A list of strings is taken string by string.
pub proof fn strings_are_taken_one_by_one(strings: Seq<String>, i: int)
    ensures
        views(strings).len() == strings.len(),
        0 <= i < strings.len() ==> views(strings)[i] == strings[i]@,
{
}

} // verus!
