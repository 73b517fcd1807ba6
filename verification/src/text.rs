//! Text seen as a sequence of characters: searching, trimming, ordering and
//! writing numbers.

use vstd::prelude::*;
use vstd::string::*;

verus! {

/// The lower-case form of a text, as Unicode defines it.
pub uninterp spec fn lowercase(text: Seq<char>) -> Seq<char>;

/// Whether every character is in the ASCII range.
pub open spec fn all_ascii(text: Seq<char>) -> bool {
    forall|i: int| 0 <= i < text.len() ==> (#[trigger] text[i] as int) < 128
}

/// The ASCII lower-case form of one character.
pub open spec fn ascii_lower_char(c: char) -> char {
    if 'A' <= c <= 'Z' {
        (c as int + 32) as char
    } else {
        c
    }
}

/// A text with its letters `A` to `Z` replaced by `a` to `z`.
pub open spec fn ascii_lower(text: Seq<char>) -> Seq<char> {
    text.map_values(|c: char| ascii_lower_char(c))
}

/// Specifies `str::to_lowercase` of std: the result depends on the text alone,
/// and on a text of ASCII characters it maps `A` to `Z` to `a` to `z` and keeps
/// the rest. What it does to other characters is left to the name
/// [`lowercase`].
pub assume_specification[ str::to_lowercase ](s: &str) -> (lowered: String)
    ensures
        lowered@ == lowercase(s@),
        all_ascii(s@) ==> lowered@ == ascii_lower(s@),
;

/// The characters of a text, in order.
pub fn chars_of(text: &str) -> (chars: Vec<char>)
    ensures
        chars@ == text@,
{
    let mut chars: Vec<char> = Vec::new();
    for c in it: text.chars()
        invariant
            it.seq() == text@,
            chars@ == text@.take(it.index() as int),
    {
        chars.push(c);
    }
    chars
}

/// Whether `word` stands in `text` at position `at`.
pub open spec fn occurs_at(text: Seq<char>, word: Seq<char>, at: int) -> bool {
    &&& 0 <= at <= text.len() - word.len()
    &&& text.subrange(at, at + word.len()) == word
}

/// Whether `word` occurs anywhere in `text`.
pub open spec fn has(text: Seq<char>, word: Seq<char>) -> bool {
    exists|at: int| #[trigger] occurs_at(text, word, at)
}

/// A word of a text is a word of every text around it.
pub proof fn law_longer_text_keeps_words(
    before: Seq<char>,
    text: Seq<char>,
    after: Seq<char>,
    word: Seq<char>,
)
    requires
        has(text, word),
    ensures
        has(before + text + after, word),
{
    let at = choose|at: int| #[trigger] occurs_at(text, word, at);
    let whole = before + text + after;
    let there = before.len() + at;
    assert(whole.subrange(there, there + word.len()) =~= text.subrange(at, at + word.len()));
    assert(occurs_at(whole, word, there));
}

/// Occurring in a text is transitive.
pub proof fn law_has_transitive(text: Seq<char>, word: Seq<char>, part: Seq<char>)
    requires
        has(text, word),
        has(word, part),
    ensures
        has(text, part),
{
    let at = choose|at: int| #[trigger] occurs_at(text, word, at);
    let within = choose|at: int| #[trigger] occurs_at(word, part, at);
    assert(text.subrange(at + within, at + within + part.len()) =~= text.subrange(
        at,
        at + word.len(),
    ).subrange(within, within + part.len()));
    assert(occurs_at(text, part, at + within));
}

/// The empty word occurs in every text, and every text in itself.
pub proof fn law_has_trivial(text: Seq<char>)
    ensures
        has(text, Seq::empty()),
        has(text, text),
{
    assert(text.subrange(0, 0) =~= Seq::<char>::empty());
    assert(occurs_at(text, Seq::empty(), 0));
    assert(text.subrange(0, text.len() as int) =~= text);
    assert(occurs_at(text, text, 0));
}

/// Whether `word` stands in `text` at position `at`, character by character.
fn stands_at(text: &Vec<char>, word: &Vec<char>, at: usize) -> (found: bool)
    requires
        at + word.len() <= text.len(),
    ensures
        found == occurs_at(text@, word@, at as int),
{
    let mut i: usize = 0;
    while i < word.len()
        invariant
            at + word.len() <= text.len(),
            i <= word@.len(),
            text@.subrange(at as int, at + i) == word@.take(i as int),
        decreases word@.len() - i,
    {
        if text[at + i] != word[i] {
            proof {
                assert(text@.subrange(at as int, at + word@.len())[i as int] == text@[at + i]);
            }
            return false;
        }
        i += 1;
        assert(text@.subrange(at as int, at + i) =~= word@.take(i as int));
    }
    assert(word@.take(word@.len() as int) =~= word@);
    true
}

/// Whether `word` occurs in a text given as characters.
pub fn chars_contain(text: &Vec<char>, word: &Vec<char>) -> (found: bool)
    ensures
        found == has(text@, word@),
{
    if word.len() > text.len() {
        return false;
    }
    let last: usize = text.len() - word.len();
    let mut at: usize = 0;
    while at <= last
        invariant
            last == text@.len() - word@.len(),
            at <= last + 1,
            forall|j: int| 0 <= j < at ==> !#[trigger] occurs_at(text@, word@, j),
        decreases last + 1 - at,
    {
        if stands_at(text, word, at) {
            return true;
        }
        if at == last {
            return false;
        }
        at += 1;
    }
    false
}

/// Whether `word` occurs in `text`.
pub fn contains(text: &str, word: &str) -> (found: bool)
    ensures
        found == has(text@, word@),
{
    chars_contain(&chars_of(text), &chars_of(word))
}

/// Whether `text` begins with `prefix`.
pub fn starts_with(text: &str, prefix: &str) -> (found: bool)
    ensures
        found == occurs_at(text@, prefix@, 0),
{
    let text_chars = chars_of(text);
    let prefix_chars = chars_of(prefix);
    if prefix_chars.len() > text_chars.len() {
        return false;
    }
    stands_at(&text_chars, &prefix_chars, 0)
}

/// Whether two texts hold the same characters.
pub fn same(a: &str, b: &str) -> (equal: bool)
    ensures
        equal == (a@ == b@),
{
    let a_chars = chars_of(a);
    let b_chars = chars_of(b);
    if a_chars.len() != b_chars.len() {
        return false;
    }
    let found = stands_at(&a_chars, &b_chars, 0);
    assert(a@.subrange(0, a@.len() as int) =~= a@);
    found
}

/// The characters that Unicode counts as white space.
pub open spec fn is_space(c: char) -> bool {
    ||| '\u{9}' <= c <= '\u{d}'
    ||| c == ' '
    ||| c == '\u{85}'
    ||| c == '\u{a0}'
    ||| c == '\u{1680}'
    ||| '\u{2000}' <= c <= '\u{200a}'
    ||| '\u{2028}' <= c <= '\u{2029}'
    ||| c == '\u{202f}'
    ||| c == '\u{205f}'
    ||| c == '\u{3000}'
}

/// Whether a character is white space.
pub fn char_is_space(c: char) -> (space: bool)
    ensures
        space == is_space(c),
{
    ('\u{9}' <= c && c <= '\u{d}') || c == ' ' || c == '\u{85}' || c == '\u{a0}' || c == '\u{1680}'
        || ('\u{2000}' <= c && c <= '\u{200a}') || ('\u{2028}' <= c && c <= '\u{2029}')
        || c == '\u{202f}' || c == '\u{205f}' || c == '\u{3000}'
}

/// What is left of a text once the characters that `drop` accepts are taken
/// away from both ends.
pub open spec fn stripped(text: Seq<char>, drop: spec_fn(char) -> bool) -> Seq<char>
    decreases text.len(),
{
    if text.len() == 0 {
        text
    } else if drop(text.first()) {
        stripped(text.drop_first(), drop)
    } else if drop(text.last()) {
        stripped(text.drop_last(), drop)
    } else {
        text
    }
}

/// A text without the white space at its ends.
pub open spec fn trimmed(text: Seq<char>) -> Seq<char> {
    stripped(text, |c: char| is_space(c))
}

/// A text without the quotation marks at its ends.
pub open spec fn unquoted(text: Seq<char>) -> Seq<char> {
    stripped(text, |c: char| c == '"')
}

/// Stripping the ends of a range: dropping accepted characters from either end
/// does not change what is left.
pub proof fn lemma_stripped_range(
    text: Seq<char>,
    drop: spec_fn(char) -> bool,
    lo: int,
    hi: int,
    from: int,
    to: int,
)
    requires
        0 <= lo <= from <= to <= hi <= text.len(),
        forall|i: int| lo <= i < from ==> drop(#[trigger] text[i]),
        forall|i: int| to <= i < hi ==> drop(#[trigger] text[i]),
        from < to ==> !drop(text[from]) && !drop(text[to - 1]),
    ensures
        stripped(text.subrange(lo, hi), drop) == text.subrange(from, to),
    decreases hi - lo,
{
    let part = text.subrange(lo, hi);
    if lo < from {
        assert(part.first() == text[lo]);
        assert(part.drop_first() =~= text.subrange(lo + 1, hi));
        lemma_stripped_range(text, drop, lo + 1, hi, from, to);
    } else if to < hi {
        assert(part.last() == text[hi - 1]);
        assert(part.drop_last() =~= text.subrange(lo, hi - 1));
        if drop(part.first()) {
            assert(from == to);
            assert(part.drop_first() =~= text.subrange(lo + 1, hi));
            lemma_stripped_range(text, drop, lo + 1, hi, lo + 1, lo + 1);
            assert(text.subrange(lo + 1, lo + 1) =~= text.subrange(from, to));
        } else {
            lemma_stripped_range(text, drop, lo, hi - 1, from, to);
        }
    } else if part.len() > 0 {
        assert(part.first() == text[from]);
        assert(part.last() == text[to - 1]);
    }
}

/// A dropped character added at the end changes nothing.
pub proof fn lemma_stripped_push(text: Seq<char>, drop: spec_fn(char) -> bool, added: char)
    requires
        drop(added),
    ensures
        stripped(text.push(added), drop) == stripped(text, drop),
    decreases text.len(),
{
    let longer = text.push(added);
    if text.len() == 0 {
        assert(longer.drop_first() =~= text);
    } else if drop(text.first()) {
        assert(longer.drop_first() =~= text.drop_first().push(added));
        lemma_stripped_push(text.drop_first(), drop, added);
    } else {
        assert(longer.drop_last() =~= text);
    }
}

/// What is left begins and ends with a character that is kept.
pub proof fn lemma_stripped_ends(text: Seq<char>, drop: spec_fn(char) -> bool)
    ensures
        stripped(text, drop).len() > 0 ==> !drop(stripped(text, drop).first()) && !drop(
            stripped(text, drop).last(),
        ),
    decreases text.len(),
{
    if text.len() > 0 {
        if drop(text.first()) {
            lemma_stripped_ends(text.drop_first(), drop);
        } else if drop(text.last()) {
            lemma_stripped_ends(text.drop_last(), drop);
        }
    }
}

/// The range that is left of `chars[lo..hi]` without the white space at its
/// ends.
pub fn trim_range(chars: &Vec<char>, lo: usize, hi: usize) -> (range: (usize, usize))
    requires
        lo <= hi <= chars@.len(),
    ensures
        lo <= range.0 <= range.1 <= hi,
        chars@.subrange(range.0 as int, range.1 as int) == trimmed(
            chars@.subrange(lo as int, hi as int),
        ),
{
    let mut from: usize = lo;
    while from < hi && char_is_space(chars[from])
        invariant
            lo <= from <= hi <= chars@.len(),
            forall|i: int| lo <= i < from ==> is_space(#[trigger] chars@[i]),
        decreases hi - from,
    {
        from += 1;
    }
    let mut to: usize = hi;
    while from < to && char_is_space(chars[to - 1])
        invariant
            lo <= from <= to <= hi <= chars@.len(),
            forall|i: int| to <= i < hi ==> is_space(#[trigger] chars@[i]),
        decreases to,
    {
        to -= 1;
    }
    proof {
        lemma_stripped_range(
            chars@,
            |c: char| is_space(c),
            lo as int,
            hi as int,
            from as int,
            to as int,
        );
    }
    (from, to)
}

/// The range that is left of `chars[lo..hi]` without the quotation marks at its
/// ends.
pub fn unquote_range(chars: &Vec<char>, lo: usize, hi: usize) -> (range: (usize, usize))
    requires
        lo <= hi <= chars@.len(),
    ensures
        lo <= range.0 <= range.1 <= hi,
        chars@.subrange(range.0 as int, range.1 as int) == unquoted(
            chars@.subrange(lo as int, hi as int),
        ),
{
    let mut from: usize = lo;
    while from < hi && chars[from] == '"'
        invariant
            lo <= from <= hi <= chars@.len(),
            forall|i: int| lo <= i < from ==> #[trigger] chars@[i] == '"',
        decreases hi - from,
    {
        from += 1;
    }
    let mut to: usize = hi;
    while from < to && chars[to - 1] == '"'
        invariant
            lo <= from <= to <= hi <= chars@.len(),
            forall|i: int| to <= i < hi ==> #[trigger] chars@[i] == '"',
        decreases to,
    {
        to -= 1;
    }
    proof {
        lemma_stripped_range(
            chars@,
            |c: char| c == '"',
            lo as int,
            hi as int,
            from as int,
            to as int,
        );
    }
    (from, to)
}

/// A text without the white space at its ends.
pub fn trim(text: &str) -> (rest: String)
    ensures
        rest@ == trimmed(text@),
{
    let chars = chars_of(text);
    let range = trim_range(&chars, 0, chars.len());
    assert(chars@.subrange(0, chars@.len() as int) =~= text@);
    text.substring_char(range.0, range.1).to_owned()
}

/// Whether `a` comes strictly before `b`: at the first place where they differ
/// `a` has the smaller character, or has ended.
pub open spec fn precedes(a: Seq<char>, b: Seq<char>) -> bool
    decreases a.len(),
{
    if b.len() == 0 {
        false
    } else if a.len() == 0 {
        true
    } else if a[0] == b[0] {
        precedes(a.drop_first(), b.drop_first())
    } else {
        a[0] < b[0]
    }
}

/// No text comes before itself.
pub proof fn law_precedes_irreflexive(a: Seq<char>)
    ensures
        !precedes(a, a),
    decreases a.len(),
{
    if a.len() > 0 {
        law_precedes_irreflexive(a.drop_first());
    }
}

/// The order of texts is transitive.
pub proof fn law_precedes_transitive(a: Seq<char>, b: Seq<char>, c: Seq<char>)
    requires
        precedes(a, b),
        precedes(b, c),
    ensures
        precedes(a, c),
    decreases a.len(),
{
    if a.len() > 0 && a[0] == b[0] && b[0] == c[0] {
        law_precedes_transitive(a.drop_first(), b.drop_first(), c.drop_first());
    }
}

/// Of two different texts one comes before the other.
pub proof fn law_precedes_total(a: Seq<char>, b: Seq<char>)
    ensures
        precedes(a, b) || a == b || precedes(b, a),
    decreases a.len(),
{
    if a.len() > 0 && b.len() > 0 && a[0] == b[0] {
        law_precedes_total(a.drop_first(), b.drop_first());
        if a.drop_first() == b.drop_first() {
            assert(a =~= seq![a[0]] + a.drop_first());
            assert(b =~= seq![b[0]] + b.drop_first());
        }
    } else if a.len() == 0 && b.len() == 0 {
        assert(a =~= b);
    }
}

/// Whether `a` comes strictly before `b` in the order of their characters.
pub fn comes_before(a: &str, b: &str) -> (before: bool)
    ensures
        before == precedes(a@, b@),
{
    let a_chars = chars_of(a);
    let b_chars = chars_of(b);
    let mut i: usize = 0;
    assert(a@.skip(0) =~= a@);
    assert(b@.skip(0) =~= b@);
    while i < a_chars.len() && i < b_chars.len()
        invariant
            a_chars@ == a@,
            b_chars@ == b@,
            i <= a@.len(),
            i <= b@.len(),
            precedes(a@, b@) == precedes(a@.skip(i as int), b@.skip(i as int)),
        decreases a@.len() - i,
    {
        if a_chars[i] != b_chars[i] {
            return a_chars[i] < b_chars[i];
        }
        assert(a@.skip(i as int).drop_first() =~= a@.skip(i + 1));
        assert(b@.skip(i as int).drop_first() =~= b@.skip(i + 1));
        i += 1;
    }
    i < b_chars.len()
}

/// The character of a decimal digit.
pub open spec fn digit(d: nat) -> char {
    (48 + d) as char
}

/// A number written in decimal, without leading zeros.
pub open spec fn decimal(n: nat) -> Seq<char>
    decreases n,
{
    if n < 10 {
        seq![digit(n)]
    } else {
        decimal(n / 10).push(digit(n % 10))
    }
}

/// A number written in decimal, with at least two digits.
pub open spec fn two_digits(n: nat) -> Seq<char> {
    if n < 10 {
        seq!['0', digit(n)]
    } else {
        decimal(n)
    }
}

/// The text of one digit.
fn digit_text(d: u64) -> (text: &'static str)
    requires
        d < 10,
    ensures
        text@ == seq![digit(d as nat)],
{
    proof {
        reveal_strlit("0");
        reveal_strlit("1");
        reveal_strlit("2");
        reveal_strlit("3");
        reveal_strlit("4");
        reveal_strlit("5");
        reveal_strlit("6");
        reveal_strlit("7");
        reveal_strlit("8");
        reveal_strlit("9");
    }
    let text: &'static str = match d {
        0 => "0",
        1 => "1",
        2 => "2",
        3 => "3",
        4 => "4",
        5 => "5",
        6 => "6",
        7 => "7",
        8 => "8",
        _ => "9",
    };
    assert(text@ =~= seq![digit(d as nat)]);
    text
}

/// A number written in decimal.
pub fn write_decimal(n: u64) -> (text: String)
    ensures
        text@ == decimal(n as nat),
    decreases n,
{
    if n < 10 {
        digit_text(n).to_owned()
    } else {
        let mut text = write_decimal(n / 10);
        text.append(digit_text(n % 10));
        assert(text@ =~= decimal(n as nat));
        text
    }
}

/// A number written in decimal, with a zero in front of a single digit.
pub fn write_two_digits(n: u64) -> (text: String)
    ensures
        text@ == two_digits(n as nat),
{
    if n < 10 {
        let mut text = "0".to_owned();
        text.append(digit_text(n));
        proof {
            reveal_strlit("0");
            assert(text@ =~= two_digits(n as nat));
        }
        text
    } else {
        write_decimal(n)
    }
}

/// The texts of a list.
pub open spec fn texts(list: Seq<String>) -> Seq<Seq<char>> {
    list.map_values(|s: String| s@)
}

/// A list of texts has its texts in their places.
pub proof fn law_texts_keep_their_places(list: Seq<String>, i: int)
    ensures
        texts(list).len() == list.len(),
        0 <= i < list.len() ==> texts(list)[i] == list[i]@,
{
}

/// Lowering a text of ASCII characters keeps its length, moves the capital
/// letters by the distance between the two alphabets and leaves the rest.
pub proof fn law_ascii_letters_are_lowered(text: Seq<char>, i: int)
    ensures
        ascii_lower(text).len() == text.len(),
        0 <= i < text.len() && 65 <= text[i] as int <= 90 ==> ascii_lower(text)[i] as int
            == text[i] as int + 32,
        0 <= i < text.len() && !(65 <= text[i] as int <= 90) ==> ascii_lower(text)[i] == text[i],
{
}

/// A word stands at a place exactly where the text is what comes before the
/// place, then the word, then something more.
pub proof fn law_word_stands_between_the_rest(text: Seq<char>, word: Seq<char>, at: int)
    ensures
        occurs_at(text, word, at) <==> exists|before: Seq<char>, after: Seq<char>|
            before.len() == at && text == #[trigger] (before + word + after),
{
    if occurs_at(text, word, at) {
        let before = text.take(at);
        let after = text.skip(at + word.len());
        assert(text =~= before + word + after);
    }
    if exists|before: Seq<char>, after: Seq<char>|
        before.len() == at && text == #[trigger] (before + word + after) {
        let (before, after) = choose|before: Seq<char>, after: Seq<char>|
            before.len() == at && text == #[trigger] (before + word + after);
        assert(text.subrange(at, at + word.len()) =~= word);
    }
}

/// A text has a word exactly if it is the word with something before and
/// something after it.
pub proof fn law_text_with_a_word(text: Seq<char>, word: Seq<char>)
    ensures
        has(text, word) <==> exists|before: Seq<char>, after: Seq<char>|
            text == #[trigger] (before + word + after),
{
    if has(text, word) {
        let at = choose|at: int| #[trigger] occurs_at(text, word, at);
        law_word_stands_between_the_rest(text, word, at);
    }
    if exists|before: Seq<char>, after: Seq<char>| text == #[trigger] (before + word + after) {
        let (before, after) = choose|before: Seq<char>, after: Seq<char>|
            text == #[trigger] (before + word + after);
        law_word_stands_between_the_rest(text, word, before.len() as int);
    }
}

/// The white space of Unicode, by number.
pub proof fn law_white_space_by_number(c: char)
    ensures
        is_space(c) <==> {
            let n = c as int;
            n == 0x9 || n == 0xa || n == 0xb || n == 0xc || n == 0xd || n == 0x20 || n == 0x85 || n
                == 0xa0 || n == 0x1680 || 0x2000 <= n <= 0x200a || n == 0x2028 || n == 0x2029 || n
                == 0x202f || n == 0x205f || n == 0x3000
        },
{
}

/// Trimming gives back what stands between white space: from a text made of
/// white space, something that neither begins nor ends with it, and white space,
/// the middle is left.
pub proof fn law_trimming_gives_the_middle(before: Seq<char>, middle: Seq<char>, after: Seq<char>)
    requires
        forall|i: int| 0 <= i < before.len() ==> is_space(#[trigger] before[i]),
        forall|i: int| 0 <= i < after.len() ==> is_space(#[trigger] after[i]),
        middle.len() > 0 ==> !is_space(middle.first()) && !is_space(middle.last()),
    ensures
        trimmed(before + middle + after) == middle,
{
    let text = before + middle + after;
    let from = before.len() as int;
    let to = from + middle.len();
    assert forall|i: int| to <= i < text.len() implies is_space(#[trigger] text[i]) by {
        assert(text[i] == after[i - to]);
    }
    lemma_stripped_range(text, |c: char| is_space(c), 0, text.len() as int, from, to);
    assert(text.subrange(0, text.len() as int) =~= text);
    assert(text.subrange(from, to) =~= middle);
}

/// Trimming leaves nothing exactly of a text that is white space throughout.
pub proof fn law_blank_text_is_trimmed_away(text: Seq<char>)
    ensures
        trimmed(text).len() > 0 <==> exists|i: int|
            0 <= i < text.len() && !is_space(#[trigger] text[i]),
    decreases text.len(),
{
    let drop = |c: char| is_space(c);
    if text.len() > 0 {
        if is_space(text.first()) {
            let rest = text.drop_first();
            law_blank_text_is_trimmed_away(rest);
            assert(stripped(text, drop) == stripped(rest, drop));
            if exists|i: int| 0 <= i < rest.len() && !is_space(#[trigger] rest[i]) {
                let i = choose|i: int| 0 <= i < rest.len() && !is_space(#[trigger] rest[i]);
                assert(text[i + 1] == rest[i]);
            }
            if exists|i: int| 0 <= i < text.len() && !is_space(#[trigger] text[i]) {
                let i = choose|i: int| 0 <= i < text.len() && !is_space(#[trigger] text[i]);
                assert(rest[i - 1] == text[i]);
            }
        } else if is_space(text.last()) {
            let rest = text.drop_last();
            law_blank_text_is_trimmed_away(rest);
            assert(stripped(text, drop) == stripped(rest, drop));
            assert(rest[0] == text[0]);
        } else {
            assert(!is_space(text[0]));
        }
    }
}

/// Unquoting gives back what stands between quotation marks, however many they
/// are on either side.
pub proof fn law_unquoting_gives_the_middle(before: Seq<char>, middle: Seq<char>, after: Seq<char>)
    requires
        forall|i: int| 0 <= i < before.len() ==> #[trigger] before[i] == '"',
        forall|i: int| 0 <= i < after.len() ==> #[trigger] after[i] == '"',
        middle.len() > 0 ==> middle.first() != '"' && middle.last() != '"',
    ensures
        unquoted(before + middle + after) == middle,
{
    let text = before + middle + after;
    let from = before.len() as int;
    let to = from + middle.len();
    assert forall|i: int| to <= i < text.len() implies #[trigger] text[i] == '"' by {
        assert(text[i] == after[i - to]);
    }
    lemma_stripped_range(text, |c: char| c == '"', 0, text.len() as int, from, to);
    assert(text.subrange(0, text.len() as int) =~= text);
    assert(text.subrange(from, to) =~= middle);
}

/// A common beginning does not matter to the order.
proof fn lemma_precedes_after_prefix(prefix: Seq<char>, a: Seq<char>, b: Seq<char>)
    ensures
        precedes(prefix + a, prefix + b) == precedes(a, b),
    decreases prefix.len(),
{
    if prefix.len() == 0 {
        assert(prefix + a =~= a);
        assert(prefix + b =~= b);
    } else {
        lemma_precedes_after_prefix(prefix.drop_first(), a, b);
        assert((prefix + a).drop_first() =~= prefix.drop_first() + a);
        assert((prefix + b).drop_first() =~= prefix.drop_first() + b);
    }
}

/// The first place where two texts differ decides their order, and a text comes
/// before every longer one that begins with it.
pub proof fn law_first_difference_decides(
    prefix: Seq<char>,
    c: char,
    d: char,
    x: Seq<char>,
    y: Seq<char>,
)
    requires
        c != d,
    ensures
        precedes(prefix + seq![c] + x, prefix + seq![d] + y) <==> (c as int) < (d as int),
        precedes(prefix, prefix + seq![c] + x),
        !precedes(prefix + seq![c] + x, prefix),
{
    let a = seq![c] + x;
    let b = seq![d] + y;
    assert(prefix + seq![c] + x =~= prefix + a);
    assert(prefix + seq![d] + y =~= prefix + b);
    assert(prefix + Seq::<char>::empty() =~= prefix);
    lemma_precedes_after_prefix(prefix, a, b);
    lemma_precedes_after_prefix(prefix, Seq::empty(), a);
    lemma_precedes_after_prefix(prefix, a, Seq::empty());
}

/// The number that decimal digits stand for.
pub open spec fn number(digits: Seq<char>) -> int
    decreases digits.len(),
{
    if digits.len() == 0 {
        0
    } else {
        10 * number(digits.drop_last()) + (digits.last() as int - 48)
    }
}

/// A number that is written in decimal reads back as itself; it is written with
/// digits only and without a zero in front.
pub proof fn law_decimal_reads_back(n: nat)
    ensures
        number(decimal(n)) == n,
        decimal(n).len() > 0,
        forall|i: int| 0 <= i < decimal(n).len() ==> 48 <= #[trigger] decimal(n)[i] as int <= 57,
        n > 0 ==> decimal(n)[0] as int != 48,
        n < 10 ==> decimal(n).len() == 1,
    decreases n,
{
    reveal_with_fuel(number, 2);
    if n < 10 {
        assert(decimal(n).drop_last() =~= Seq::<char>::empty());
        assert(decimal(n).last() as int == 48 + n);
    } else {
        law_decimal_reads_back(n / 10);
        let rest = decimal(n / 10);
        assert(decimal(n).drop_last() =~= rest);
        assert(decimal(n).last() as int == 48 + n % 10);
        assert forall|i: int| 0 <= i < decimal(n).len() implies 48 <= #[trigger] decimal(
            n,
        )[i] as int <= 57 by {
            if i < rest.len() {
                assert(decimal(n)[i] == rest[i]);
            }
        }
        assert(decimal(n)[0] == rest[0]);
    }
}

/// A number that is written with at least two digits reads back as itself; it has
/// one zero in front if it is below ten and none otherwise.
pub proof fn law_two_digits_read_back(n: nat)
    ensures
        number(two_digits(n)) == n,
        n < 10 ==> two_digits(n).len() == 2 && two_digits(n)[0] as int == 48,
        n >= 10 ==> two_digits(n).len() >= 2 && two_digits(n)[0] as int != 48,
        forall|i: int|
            0 <= i < two_digits(n).len() ==> 48 <= #[trigger] two_digits(n)[i] as int <= 57,
{
    law_decimal_reads_back(n);
    if n < 10 {
        reveal_with_fuel(number, 3);
        let written = two_digits(n);
        assert(written.drop_last() =~= seq!['0']);
        assert(seq!['0'].drop_last() =~= Seq::<char>::empty());
        assert(written.last() as int == 48 + n);
    } else {
        law_decimal_reads_back(n / 10);
    }
}

} // verus!
